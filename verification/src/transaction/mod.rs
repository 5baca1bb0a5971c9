//! Framing of serialized transactions and messages.
pub mod bytes;
pub mod result;
pub mod sections;
pub mod frames;
pub mod message_frame;
pub mod transaction_frame;
pub mod message_view;
pub mod prefix;
pub mod embedding;
pub mod layout;
