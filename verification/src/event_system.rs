//! Configuration of event streams and the handles of a stream subscriber.
use std::marker::PhantomData;
use std::path::PathBuf;
use vstd::prelude::*;

verus! {

/// A filesystem path.
#[verifier::external_type_specification]
#[verifier::external_body]
pub struct ExPathBuf(PathBuf);

/// Capacity and participant limits for an event stream.
#[derive(Debug, Clone, Copy, PartialEq, Eq, Structural)]
pub struct StreamConfig {
    /// Number of events retained in each producer queue.
    pub capacity: usize,
    /// Maximum number of producers that can be created for the stream. This
    /// is a lifetime budget: dropping a producer retires its slot.
    pub producer_slots: usize,
    /// Maximum number of concurrent consumers.
    pub consumer_slots: usize,
}

/// Capacity and participant limits for an event stream of the single-queue
/// event system.
#[derive(Debug, Clone, Copy, PartialEq, Eq, Structural)]
pub struct EventStreamConfig {
    /// Number of events retained in each producer queue.
    pub capacity: usize,
    /// Maximum number of concurrent producers per event stream.
    pub producer_slots: usize,
    /// Maximum number of concurrent consumers per event stream.
    pub consumer_slots: usize,
}

/// Finds the event streams that an event system publishes in its directory.
pub struct StreamExplorer {
    event_system_directory: PathBuf,
}

impl StreamExplorer {
    /// The directory that the explorer looks in.
    pub closed spec fn directory(&self) -> PathBuf {
        self.event_system_directory
    }

    /// An explorer for the event system rooted at `event_system_directory`.
    pub fn new(event_system_directory: PathBuf) -> (r: StreamExplorer)
        ensures
            r.directory() == event_system_directory,
    {
        StreamExplorer { event_system_directory }
    }

    /// The directory that the explorer looks in.
    pub fn event_system_directory(&self) -> (r: &PathBuf)
        ensures
            *r == self.directory(),
    {
        &self.event_system_directory
    }
}

/// Marker for subscribers that reflect over messages dynamically.
pub struct Dynamic;

/// Marker for subscribers that decode messages into the type `T`.
pub struct Typed<T> {
    _marker: PhantomData<T>,
}

impl<T> Typed<T> {
    /// The marker for `T`.
    pub fn new() -> Self {
        Typed { _marker: PhantomData }
    }
}

/// Why a subscriber received nothing.
#[derive(Debug, Clone, Copy, PartialEq, Eq, Structural)]
pub enum TryRecvError {
    /// The stream has no new message.
    Empty,
}

impl TryRecvError {
    /// The human-readable description of the error.
    pub fn message(&self) -> (r: &'static str)
        ensures
            r@ == "the stream has no new message"@,
    {
        match self {
            TryRecvError::Empty => "the stream has no new message",
        }
    }
}

/// Why connecting to a stream failed.
#[derive(Debug, Clone, Copy, PartialEq, Eq, Structural)]
pub enum TryConnectError {
    /// Every consumer slot of the stream is taken.
    SubscriberSlotsExhausted,
}

} // verus!
