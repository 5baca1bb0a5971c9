//! A subscriber that receives events from all event streams in turn.
use crate::event_schema::{
    integer_tag_at, lemma_tag_encoding_reads_its_primitive, tag_width_at,
    decode_schema, decoded_schema, event_index, event_index_of, tag_encoding_at,
    tag_encoding_from_index, SchemaLayout,
};
pub use crate::subscriber_state::{EventReceiver, Poll, SubscriberState};
use vstd::prelude::*;

verus! {

/// The payload of a received event.
#[derive(Debug, Clone)]
pub struct EventPayload<'a> {
    /// The schema of the stream that the event came from.
    pub schema: &'a SchemaLayout,
    /// The encoded event.
    pub payload: Vec<u8>,
}

/// An event received from one of the streams.
#[derive(Debug, Clone)]
pub struct ReceivedTracingEvent<'a> {
    pub message: EventPayload<'a>,
    pub metadata: ReceivedMetadata<'a>,
}

/// Where a received event came from.
#[derive(Debug, Clone)]
pub struct ReceivedMetadata<'a> {
    event_stream_name: &'a str,
    event_name: &'a str,
    /// The thread id of the thread that emitted the event.
    pub thread_id: u64,
}

impl<'a> ReceivedMetadata<'a> {
    /// The metadata of an event named `event_name` of the stream named
    /// `event_stream_name`, emitted by thread `thread_id`.
    pub fn new(event_stream_name: &'a str, event_name: &'a str, thread_id: u64) -> (r: Self)
        ensures
            r.stream_name_view() == event_stream_name@,
            r.event_name_view() == event_name@,
            r.thread_id_view() == thread_id,
    {
        ReceivedMetadata { event_stream_name, event_name, thread_id }
    }

    /// The name of the stream that the event came from.
    pub closed spec fn stream_name_view(&self) -> Seq<char> {
        self.event_stream_name@
    }

    /// The name of the event.
    pub closed spec fn event_name_view(&self) -> Seq<char> {
        self.event_name@
    }

    /// The thread id of the thread that emitted the event.
    pub closed spec fn thread_id_view(&self) -> u64 {
        self.thread_id
    }

    /// The name of the stream that the event came from.
    pub fn event_stream_name(&self) -> (r: &str)
        ensures
            r@ == self.stream_name_view(),
    {
        self.event_stream_name
    }

    /// The name of the event.
    pub fn event_name(&self) -> (r: &str)
        ensures
            r@ == self.event_name_view(),
    {
        self.event_name
    }
}

/// A stream that the subscriber reads: its name, the names of its events
/// (the struct, or each variant of the enum) and its schema.
pub struct EventStreamInfo {
    pub event_stream_name: String,
    pub event_names: Vec<String>,
    pub schema: SchemaLayout,
}

/// The stream information for the stream named `name` whose schema decoded
/// to `decoded`: its name, its event names (the struct's name, or the enum's
/// variant names) and the layout of its schema. A tag encoding that names no
/// primitive type gives none.
pub open spec fn stream_info_of(name: Seq<char>, decoded: Option<(Option<u8>, Seq<Seq<char>>)>) -> Option<
    (Seq<char>, Seq<Seq<char>>, SchemaLayout),
> {
    match decoded {
        None => None,
        Some((None, names)) => Some((name, names, SchemaLayout::Struct)),
        Some((Some(tag), names)) => match tag_encoding_at(tag) {
            None => None,
            Some(encoding) => Some(
                (
                    name,
                    names,
                    SchemaLayout::Enum { variant_count: names.len() as usize, tag_encoding: encoding },
                ),
            ),
        },
    }
}

/// `info` as plain values: its name, its event names and its layout.
pub open spec fn stream_info_view(info: EventStreamInfo) -> (Seq<char>, Seq<Seq<char>>, SchemaLayout) {
    (info.event_stream_name@, info.event_names@.map_values(|n: String| n@), info.schema)
}

/// `decoded` with its names as character sequences.
pub open spec fn decoded_view(decoded: Option<(Option<u8>, Vec<String>)>) -> Option<
    (Option<u8>, Seq<Seq<char>>),
> {
    match decoded {
        None => None,
        Some((tag, names)) => Some((tag, names@.map_values(|n: String| n@))),
    }
}

/// The information on the stream named `name` whose schema decoded to
/// `decoded` (see `stream_info_of`).
pub fn stream_info_from(name: &str, decoded: Option<(Option<u8>, Vec<String>)>) -> (r: Option<
    EventStreamInfo,
>)
    ensures
        match r {
            None => stream_info_of(name@, decoded_view(decoded)) is None,
            Some(info) => stream_info_of(name@, decoded_view(decoded)) == Some(stream_info_view(info)),
        },
{
    let (tag, names) = match decoded {
        None => return None,
        Some(d) => d,
    };
    let schema = match tag {
        None => SchemaLayout::Struct,
        Some(t) => match tag_encoding_from_index(t) {
            None => return None,
            Some(encoding) => SchemaLayout::Enum { variant_count: names.len(), tag_encoding: encoding },
        },
    };
    let info = EventStreamInfo { event_stream_name: name.to_owned(), event_names: names, schema };
    Some(info)
}

/// The information on the stream named `name` whose encoded schema is
/// `encoded_schema`: `None` when the schema does not decode.
pub fn stream_info(name: &str, encoded_schema: &[u8]) -> (r: Option<EventStreamInfo>)
    ensures
        match r {
            None => stream_info_of(name@, decoded_schema(encoded_schema@)) is None,
            Some(info) => stream_info_of(name@, decoded_schema(encoded_schema@)) == Some(
                stream_info_view(info),
            ),
        },
{
    let decoded = match decode_schema(encoded_schema) {
        Some((_, tag, names)) => Some((tag, names)),
        None => None,
    };
    proof {
        assert(decoded_view(decoded) == decoded_schema(encoded_schema@));
    }
    stream_info_from(name, decoded)
}

/// A stream whose enum schema names the tag type at position `i` of the
/// primitive types reads the events of its payloads in that type: the stream
/// exists exactly when `i` names a primitive type, it has one event per
/// variant, and the event of a payload is the tag that the payload starts
/// with read as that type (`tag_width_at(i)` little-endian bytes, signed from
/// position 4 on) when it names a variant; the `f32`, `f64` and `bool`
/// positions name no event.
pub proof fn lemma_stream_events_follow_the_schema_tag(
    name: Seq<char>,
    i: u8,
    names: Seq<Seq<char>>,
    payload: Seq<u8>,
)
    requires
        names.len() <= usize::MAX,
    ensures
        stream_info_of(name, Some((Some(i), names))) is Some <==> i <= 10,
        stream_info_of(name, Some((Some(i), names))) matches Some((n, ns, layout)) ==> {
            &&& n == name
            &&& ns == names
            &&& layout matches SchemaLayout::Enum { variant_count, .. } && variant_count == names.len()
            &&& event_index_of(layout, payload) == (if i >= 8 || payload.len() < tag_width_at(i) {
                None
            } else if 0 <= integer_tag_at(i, payload) < names.len() {
                Some(integer_tag_at(i, payload))
            } else {
                None
            })
        },
{
    lemma_tag_encoding_reads_its_primitive(i, payload);
}

/// A subscriber listening to a set of event streams.
pub struct EventSubscriber<R: EventReceiver> {
    state: SubscriberState<R>,
}

/// The position `k` steps after `start` among `n` streams, going round.
pub open spec fn rotate(start: int, k: int, n: int) -> int {
    if start + k < n {
        start + k
    } else {
        start + k - n
    }
}

/// What delivering the event `payload`, read from stream `idx` with
/// producer thread `thread_id`, gives: `r` and the next start `next`. The
/// event that the payload holds under the stream's schema is returned with
/// the names of its stream and event, and reading then starts after `idx`;
/// a payload that names no event of the stream is dropped, and reading
/// starts where it did (`old_next`).
pub open spec fn delivery(
    streams: Seq<EventStreamInfo>,
    old_next: usize,
    idx: int,
    thread_id: u64,
    payload: Seq<u8>,
    r: Option<ReceivedTracingEvent>,
    next: usize,
) -> bool {
    match event_index_of(streams[idx].schema, payload) {
        Some(e) if 0 <= e < streams[idx].event_names@.len() => {
            &&& next == rotate(idx, 1, streams.len() as int)
            &&& r matches Some(ev) && ev.metadata.stream_name_view()
                == streams[idx].event_stream_name@ && ev.metadata.event_name_view()
                == streams[idx].event_names@[e]@ && ev.metadata.thread_id_view() == thread_id
                && ev.message.payload@ == payload && *ev.message.schema == streams[idx].schema
        },
        _ => r is None && next == old_next,
    }
}

/// What a read of `streams`, starting at stream `start`, did: `polls` are
/// the streams that it polled and what each gave, `r` what it returned and
/// `next` where the following read starts. It polls the streams in turn
/// from `start`, going round at most once, up to the first that has an
/// event, and delivers that event; when none has one it returns nothing and
/// the next read starts at `start` again.
pub open spec fn read_outcome(
    streams: Seq<EventStreamInfo>,
    start: usize,
    polls: Seq<Poll>,
    r: Option<ReceivedTracingEvent>,
    next: usize,
) -> bool {
    let n = streams.len() as int;
    if n == 0 {
        r is None && polls.len() == 0 && next == start
    } else {
        &&& 0 < polls.len() <= n
        &&& forall|k: int| 0 <= k < polls.len() ==> (#[trigger] polls[k]).0 == rotate(start as int, k, n)
        &&& forall|k: int| 0 <= k < polls.len() - 1 ==> (#[trigger] polls[k]).1 is None
        &&& match polls.last().1 {
            None => polls.len() == n && r is None && next == start,
            Some((thread_id, payload)) => delivery(
                streams,
                start,
                polls.last().0,
                thread_id,
                payload,
                r,
                next,
            ),
        }
    }
}

/// How many steps round the `n` streams it takes from stream `from` to stream
/// `to`.
pub open spec fn distance(from: int, to: int, n: int) -> int {
    if from <= to {
        to - from
    } else {
        to - from + n
    }
}

/// Whether the payload `payload` names an event of `stream`.
pub open spec fn names_event(stream: EventStreamInfo, payload: Seq<u8>) -> bool {
    event_index_of(stream.schema, payload) matches Some(e) && 0 <= e < stream.event_names@.len()
}

/// Whether `reads` consecutive reads of `streams` went as reads do: read `j`
/// started at `starts[j]`, polled `polls[j]`, returned `results[j]`, and the
/// next read started at `starts[j + 1]`.
pub open spec fn consecutive_reads<'a>(
    streams: Seq<EventStreamInfo>,
    starts: Seq<usize>,
    polls: Seq<Seq<Poll>>,
    results: Seq<Option<ReceivedTracingEvent<'a>>>,
) -> bool {
    &&& starts.len() == polls.len() + 1
    &&& results.len() == polls.len()
    &&& forall|j: int|
        0 <= j < polls.len() ==> read_outcome(
            streams,
            #[trigger] starts[j],
            polls[j],
            results[j],
            starts[j + 1],
        )
}

/// Whether, in those reads, every poll of stream `i` found an event, and
/// every event found names an event of its stream.
pub open spec fn busy_with_valid_events(
    streams: Seq<EventStreamInfo>,
    i: int,
    polls: Seq<Seq<Poll>>,
) -> bool {
    forall|j: int, k: int|
        0 <= j < polls.len() && 0 <= k < polls[j].len() ==> {
            &&& (#[trigger] polls[j][k]).0 == i ==> polls[j][k].1 is Some
            &&& polls[j][k].1 matches Some((_, payload)) ==> names_event(
                streams[polls[j][k].0],
                payload,
            )
        }
}

proof fn lemma_busy_stream_served_from<'a>(
    streams: Seq<EventStreamInfo>,
    i: int,
    starts: Seq<usize>,
    polls: Seq<Seq<Poll>>,
    results: Seq<Option<ReceivedTracingEvent<'a>>>,
    j0: int,
)
    requires
        0 <= i < streams.len(),
        consecutive_reads(streams, starts, polls, results),
        busy_with_valid_events(streams, i, polls),
        0 <= j0 < polls.len(),
        starts[j0] < streams.len(),
        distance(starts[j0] as int, i, streams.len() as int) < polls.len() - j0,
    ensures
        exists|j: int|
            j0 <= j <= j0 + distance(starts[j0] as int, i, streams.len() as int) && polls[j].last().0
                == i && (#[trigger] results[j]) is Some,
    decreases distance(starts[j0] as int, i, streams.len() as int),
{
    let n = streams.len() as int;
    let s = starts[j0] as int;
    let d = distance(s, i, n);
    let ps = polls[j0];
    assert(read_outcome(streams, starts[j0], polls[j0], results[j0], starts[j0 + 1]));
    let l = ps.len() as int;
    assert(rotate(s, d, n) == i);
    if l > d {
        assert(ps[d].0 == i);
        assert(polls[j0][d].1 is Some);
        assert(d == l - 1);
        let (t, p) = ps.last().1->0;
        assert(names_event(streams[ps.last().0], p));
        assert(results[j0] is Some);
    } else {
        let q = ps.last().0;
        assert(polls[j0][l - 1].1 is Some);
        let (t, p) = ps.last().1->0;
        assert(names_event(streams[q], p));
        assert(starts[j0 + 1] == rotate(q, 1, n));
        assert(distance(starts[j0 + 1] as int, i, n) == d - l);
        lemma_busy_stream_served_from(streams, i, starts, polls, results, j0 + 1);
    }
}

/// No busy stream is starved: over consecutive reads that start at one of
/// the `n` streams, if stream `i` has an event whenever it is polled and
/// every event found names an event of its stream, one of the first `n`
/// reads returns an event of stream `i`; more exactly, the read that is as
/// many reads away as stream `i` is steps round from where the reads start,
/// or an earlier one.
pub proof fn lemma_busy_stream_is_served<'a>(
    streams: Seq<EventStreamInfo>,
    i: int,
    starts: Seq<usize>,
    polls: Seq<Seq<Poll>>,
    results: Seq<Option<ReceivedTracingEvent<'a>>>,
)
    requires
        0 <= i < streams.len(),
        consecutive_reads(streams, starts, polls, results),
        busy_with_valid_events(streams, i, polls),
        starts.len() > 0,
        starts[0] < streams.len(),
        polls.len() >= streams.len(),
    ensures
        exists|j: int|
            0 <= j <= distance(starts[0] as int, i, streams.len() as int) && polls[j].last().0 == i
                && (#[trigger] results[j]) is Some,
{
    lemma_busy_stream_served_from(streams, i, starts, polls, results, 0);
}

impl<R: EventReceiver> EventSubscriber<R> {
    /// A subscriber reading from `receivers`, where receiver `i` reads the
    /// stream `streams[i]`; reading starts with the first stream.
    pub fn from_receivers(receivers: Vec<R>, streams: Vec<EventStreamInfo>) -> (r: Option<Self>)
        ensures
            r is Some <==> receivers@.len() == streams@.len(),
            r matches Some(s) ==> s.state().streams_view() == streams@ && s.state().next_index()
                == 0 && s.state().last_polls().len() == 0,
    {
        if receivers.len() != streams.len() {
            return None;
        }
        Some(EventSubscriber { state: SubscriberState::new(receivers, streams) })
    }

    /// The state of the subscriber.
    pub closed spec fn state(&self) -> SubscriberState<R> {
        self.state
    }

    /// Receives the next event, trying the streams in turn from where the
    /// last successful read left off (see `SubscriberState::try_recv`).
    pub fn try_recv(&mut self) -> (r: Option<ReceivedTracingEvent<'_>>)
        ensures
            final(self).state().streams_view() == old(self).state().streams_view(),
            final(self).state().streams_view().len() > 0 ==> final(self).state().next_index()
                < final(self).state().streams_view().len(),
            read_outcome(
                old(self).state().streams_view(),
                old(self).state().next_index(),
                final(self).state().last_polls(),
                r,
                final(self).state().next_index(),
            ),
    {
        self.state.try_recv()
    }
}

impl<R: EventReceiver> SubscriberState<R> {
    /// Receives the next event. The streams are tried in turn, starting at
    /// the stream after the one that gave the last event and going round
    /// once; a stream with nothing to read is passed over. The first event
    /// read is returned with the name of its stream and of its event, and the
    /// next read starts after its stream. If that event does not name an
    /// event of its stream's schema, it is dropped and nothing is returned.
    /// Nothing is returned when no stream has an event; the next read then
    /// starts where this one did.
    pub fn try_recv(&mut self) -> (r: Option<ReceivedTracingEvent<'_>>)
        ensures
            final(self).streams_view() == old(self).streams_view(),
            final(self).streams_view().len() > 0 ==> final(self).next_index()
                < final(self).streams_view().len(),
            read_outcome(
                old(self).streams_view(),
                old(self).next_index(),
                final(self).last_polls(),
                r,
                final(self).next_index(),
            ),
    {
        let n = self.stream_count();
        self.begin_read();
        if n == 0 {
            return None;
        }
        let start = self.start_index();
        let mut k: usize = 0;
        while k < n
            invariant
                n == self.streams_view().len(),
                self.streams_view() == old(self).streams_view(),
                self.next_index() == start,
                start == old(self).next_index(),
                start < n,
                0 <= k <= n,
                self.last_polls().len() == k,
                forall|j: int| 0 <= j < k ==> (#[trigger] self.last_polls()[j]).0 == rotate(
                    start as int,
                    j,
                    n as int,
                ),
                forall|j: int| 0 <= j < k ==> (#[trigger] self.last_polls()[j]).1 is None,
            decreases n - k,
        {
            let idx = if k < n - start {
                start + k
            } else {
                k - (n - start)
            };
            let read = self.poll(idx);
            if let Some((thread_id, payload)) = read {
                return self.deliver(idx, thread_id, payload);
            }
            k = k + 1;
        }
        None
    }
}

} // verus!
