//! The state of a subscriber: its receivers, one per stream, the streams,
//! where the next read starts, and a record of the polls of the current read.
//! The record grows only by polling a receiver, so it says which receivers a
//! read polled, in what order, and what each gave.
use crate::event_schema::event_index;
use crate::subscriber::{
    delivery, EventPayload, EventStreamInfo, ReceivedMetadata, ReceivedTracingEvent,
};
use vstd::prelude::*;

verus! {

/// A queue that events of one stream are read from.
pub trait EventReceiver {
    /// Takes the next unread event, if there is one: the thread id of the
    /// producer that emitted it and its encoded payload. What comes back
    /// depends on the producers, so nothing is promised of it.
    fn try_reserve_read(&mut self) -> Option<(u64, Vec<u8>)>;
}

/// What one poll of a stream gave: the stream's index and, if it had an
/// event, the producer's thread id and the encoded event.
pub type Poll = (int, Option<(u64, Seq<u8>)>);

/// `read` as a plain value.
pub open spec fn read_view(read: Option<(u64, Vec<u8>)>) -> Option<(u64, Seq<u8>)> {
    match read {
        Some((thread_id, payload)) => Some((thread_id, payload@)),
        None => None,
    }
}

/// The streams of a subscriber with a receiver for each, where its next read
/// starts, and the polls that its current read has made, in order.
pub struct SubscriberState<R: EventReceiver> {
    receivers: Vec<R>,
    streams: Vec<EventStreamInfo>,
    current_index: usize,
    polls: Ghost<Seq<Poll>>,
}

impl<R: EventReceiver> SubscriberState<R> {
    /// There is a receiver for each stream, and the next read starts at one
    /// of them (at 0 when there are none).
    #[verifier::type_invariant]
    closed spec fn wf(&self) -> bool {
        &&& self.receivers@.len() == self.streams@.len()
        &&& (self.streams@.len() == 0 ==> self.current_index == 0)
        &&& (self.streams@.len() > 0 ==> self.current_index < self.streams@.len())
    }

    /// The streams, in the order they are read.
    pub closed spec fn streams_view(&self) -> Seq<EventStreamInfo> {
        self.streams@
    }

    /// Where the next read starts.
    pub closed spec fn next_index(&self) -> usize {
        self.current_index
    }

    /// The polls that the last read made, in order.
    pub closed spec fn last_polls(&self) -> Seq<Poll> {
        self.polls@
    }

    /// The state that reads `streams` with `receivers`, where receiver `i`
    /// reads stream `i`; reading starts with the first stream.
    pub(crate) fn new(receivers: Vec<R>, streams: Vec<EventStreamInfo>) -> (r: Self)
        requires
            receivers@.len() == streams@.len(),
        ensures
            r.streams_view() == streams@,
            r.next_index() == 0,
            r.last_polls().len() == 0,
    {
        SubscriberState { receivers, streams, current_index: 0, polls: Ghost(Seq::empty()) }
    }

    /// The number of streams.
    pub fn stream_count(&self) -> (r: usize)
        ensures
            r == self.streams_view().len(),
    {
        self.streams.len()
    }

    /// Where the next read starts: one of the streams, or 0 when there are
    /// none.
    pub fn start_index(&self) -> (r: usize)
        ensures
            r == self.next_index(),
            self.streams_view().len() == 0 ==> r == 0,
            self.streams_view().len() > 0 ==> r < self.streams_view().len(),
    {
        proof {
            use_type_invariant(self);
        }
        self.current_index
    }

    /// Begins a read: no poll of it has been made yet.
    pub(crate) fn begin_read(&mut self)
        ensures
            final(self).streams_view() == old(self).streams_view(),
            final(self).next_index() == old(self).next_index(),
            final(self).last_polls().len() == 0,
    {
        proof {
            use_type_invariant(&*self);
            self.polls@ = Seq::empty();
        }
    }

    /// Polls the receiver of stream `idx` once, and records the poll and what
    /// it gave.
    pub(crate) fn poll(&mut self, idx: usize) -> (r: Option<(u64, Vec<u8>)>)
        requires
            idx < old(self).streams_view().len(),
        ensures
            final(self).streams_view() == old(self).streams_view(),
            final(self).next_index() == old(self).next_index(),
            final(self).last_polls() == old(self).last_polls().push((idx as int, read_view(r))),
    {
        proof {
            use_type_invariant(&*self);
        }
        let read = self.receivers[idx].try_reserve_read();
        proof {
            self.polls@ = self.polls@.push((idx as int, read_view(read)));
        }
        read
    }

    /// Delivers an event read from stream `idx`: the event that `payload`
    /// holds under the stream's schema, with the names of its stream and of
    /// its event and the thread id of its producer; the next read then starts
    /// after stream `idx`. A payload that names no event of the stream is
    /// dropped: nothing is delivered and the next read starts where it did.
    pub fn deliver(&mut self, idx: usize, thread_id: u64, payload: Vec<u8>) -> (r: Option<
        ReceivedTracingEvent<'_>,
    >)
        requires
            idx < old(self).streams_view().len(),
        ensures
            final(self).streams_view() == old(self).streams_view(),
            final(self).last_polls() == old(self).last_polls(),
            final(self).streams_view().len() > 0 ==> final(self).next_index()
                < final(self).streams_view().len(),
            delivery(
                old(self).streams_view(),
                old(self).next_index(),
                idx as int,
                thread_id,
                payload@,
                r,
                final(self).next_index(),
            ),
    {
        proof {
            use_type_invariant(&*self);
        }
        let n = self.streams.len();
        let stream = &self.streams[idx];
        let event_index = match event_index(&stream.schema, payload.as_slice()) {
            Some(e) => e,
            None => return None,
        };
        if event_index >= stream.event_names.len() {
            return None;
        }
        self.current_index = if idx + 1 == n {
            0
        } else {
            idx + 1
        };
        let stream = &self.streams[idx];
        Some(ReceivedTracingEvent {
            metadata: ReceivedMetadata::new(
                stream.event_stream_name.as_str(),
                stream.event_names[event_index].as_str(),
                thread_id,
            ),
            message: EventPayload { schema: &stream.schema, payload },
        })
    }
}

} // verus!
