//! Verified core of an event-streaming system and of a transaction-message framer.
pub mod event_filter;
pub mod event_schema;
pub mod event_system;
pub mod queue_cell;
pub mod queue_file;
pub mod subscriber_state;
pub mod stream_directory;
pub mod stream_name;
pub mod stream_policy;
pub mod stream_policy_manager;
pub mod subscriber;
pub mod text;
pub mod timestamp;
pub mod transaction;

use vstd::prelude::*;

verus! {

} // verus!
