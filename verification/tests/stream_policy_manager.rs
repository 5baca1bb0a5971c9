use agave_events::stream_name::StreamName;
use agave_events::stream_policy::StreamPolicy;
use agave_events::stream_policy_manager::{StreamLiveness, StreamPolicyManager};
use std::sync::{Arc, Weak};

struct Guard(Weak<()>);

impl StreamLiveness for Guard {
    fn is_alive(&self) -> bool {
        self.0.strong_count() > 0
    }
}

fn policy(s: &str) -> StreamPolicy {
    s.parse().unwrap()
}

#[test]
fn new_streams_follow_the_policy_in_force() {
    let mut manager = StreamPolicyManager::<Guard>::new();
    let alive = Arc::new(());
    let rule = manager.register_new_stream(Guard(Arc::downgrade(&alive)), StreamName::try_new("network.packets").unwrap());
    assert!(!rule.is_on());

    manager.set_stream_policy(policy("off, network.=on"));
    assert!(rule.is_on());

    let other = manager.register_new_stream(Guard(Arc::downgrade(&alive)), StreamName::try_new("block-production").unwrap());
    assert!(!other.is_on());
    let drops = manager.register_new_stream(Guard(Arc::downgrade(&alive)), StreamName::try_new("network.drops").unwrap());
    assert!(drops.is_on());

    manager.set_stream_policy(policy("on, network.packets=off"));
    assert!(!rule.is_on());
    assert!(other.is_on());
    assert!(drops.is_on());
}

#[test]
fn dropped_streams_are_no_longer_updated() {
    let mut manager = StreamPolicyManager::<Guard>::new();
    let guard = Arc::new(());
    let rule = manager.register_new_stream(Guard(Arc::downgrade(&guard)), StreamName::try_new("slots").unwrap());
    drop(guard);
    manager.set_stream_policy(policy("on"));
    assert!(!rule.is_on());
}

#[test]
fn live_streams_survive_the_pruning_of_dead_ones() {
    let mut manager = StreamPolicyManager::<Guard>::new();
    let kept = Arc::new(());
    let gone = Arc::new(());
    let first = manager.register_new_stream(Guard(Arc::downgrade(&kept)), StreamName::try_new("a").unwrap());
    let dead = manager.register_new_stream(Guard(Arc::downgrade(&gone)), StreamName::try_new("b").unwrap());
    let last = manager.register_new_stream(Guard(Arc::downgrade(&kept)), StreamName::try_new("c").unwrap());
    drop(gone);
    manager.set_stream_policy(policy("on"));
    assert!(first.is_on());
    assert!(last.is_on());
    assert!(!dead.is_on());
    let fresh = manager.register_new_stream(Guard(Arc::downgrade(&kept)), StreamName::try_new("d").unwrap());
    assert!(fresh.is_on());
    manager.set_stream_policy(policy("off"));
    assert!(!first.is_on());
    assert!(!last.is_on());
    assert!(!fresh.is_on());
}
