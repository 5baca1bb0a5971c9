//! A switch that producers consult before emitting events.
use std::sync::atomic::{AtomicBool, Ordering};
use std::sync::Arc;
use vstd::prelude::*;

verus! {

/// Whether events of a stream are emitted, shared between its producers.
/// Others may flip it at any time, so a read promises nothing.
#[derive(Debug, Clone)]
pub struct EventFilter(Arc<AtomicBool>);

impl EventFilter {
    /// Whether events are currently emitted.
    pub fn enabled(&self) -> bool {
        self.0.load(Ordering::Relaxed)
    }

    /// A filter that starts enabled.
    pub fn new_enabled() -> EventFilter {
        EventFilter(Arc::new(AtomicBool::new(true)))
    }
}

impl Default for EventFilter {
    /// A filter that starts enabled.
    fn default() -> EventFilter {
        Self::new_enabled()
    }
}

} // verus!
