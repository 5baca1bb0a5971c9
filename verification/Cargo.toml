[package]
name = "agave_events"
version = "0.1.0"
edition = "2021"
publish = false

[dependencies]
wincode = "=0.6.3"
wincode-dynamic = "=0.3.1"
shaq = "=5.1.1"
solana-message = { version = "=6.0.0", features = ["wincode"] }
libc = "=0.2.191"
nix = { version = "=0.31.3", features = ["dir", "fs", "time", "mman"] }
getrandom = "=0.4.3"
thiserror = "=2.0.21"

[dev-dependencies]
tempfile = "=3.27.0"
solana-hash = "=4.7.0"
solana-pubkey = "=4.4.0"
solana-signature = "=3.6.0"
solana-transaction = { version = "=6.0.0", features = ["wincode"] }
solana-system-interface = { version = "=3.3.0", features = ["bincode"] }
