//! The size of the queue cell that holds one encoded event.
use vstd::prelude::*;

verus! {

/// What is known ahead of time about the encoded size of an event type.
#[derive(Debug, Clone, Copy, PartialEq, Eq, Structural)]
pub enum SerializedSize {
    /// Every encoded value fits within this many bytes.
    Static(usize),
    /// No complete upper bound is known; the statically sized fields take at
    /// most this many bytes.
    Dynamic(usize),
}

/// Whether a queue cell size can be chosen for an event type: a dynamically
/// sized event must declare a maximum encoded size strictly greater than the
/// statically known part of its encoding.
pub open spec fn cell_size_defined(size: SerializedSize, max_serialized_size: Option<usize>) -> bool {
    match size {
        SerializedSize::Static(_) => true,
        SerializedSize::Dynamic(lower_bound) => match max_serialized_size {
            Some(max) => max > lower_bound,
            None => false,
        },
    }
}

/// The size of the queue cell for one encoded event: the static bound when
/// there is one, and otherwise the declared maximum encoded size.
pub fn event_queue_cell_size(size: SerializedSize, max_serialized_size: Option<usize>) -> (r: usize)
    requires
        cell_size_defined(size, max_serialized_size),
    ensures
        r == match size {
            SerializedSize::Static(s) => s,
            SerializedSize::Dynamic(_) => max_serialized_size->0,
        },
{
    match size {
        SerializedSize::Static(size) => size,
        SerializedSize::Dynamic(_) => match max_serialized_size {
            Some(max_serialized_size) => max_serialized_size,
            None => 0,
        },
    }
}

} // verus!
