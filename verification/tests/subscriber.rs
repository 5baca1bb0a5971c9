use agave_events::event_schema::{tag_encoding_from_index, SchemaLayout, TagEncoding};
use agave_events::subscriber::{EventReceiver, EventStreamInfo, EventSubscriber};
use std::collections::VecDeque;

struct FakeReceiver {
    queue: VecDeque<(u64, Vec<u8>)>,
}

impl EventReceiver for FakeReceiver {
    fn try_reserve_read(&mut self) -> Option<(u64, Vec<u8>)> {
        self.queue.pop_front()
    }
}

fn receiver(events: &[(u64, Vec<u8>)]) -> FakeReceiver {
    FakeReceiver { queue: events.iter().cloned().collect() }
}

fn struct_stream(name: &str, event: &str) -> EventStreamInfo {
    EventStreamInfo {
        event_stream_name: name.to_string(),
        event_names: vec![event.to_string()],
        schema: SchemaLayout::Struct,
    }
}

fn enum_stream(name: &str, events: &[&str]) -> EventStreamInfo {
    EventStreamInfo {
        event_stream_name: name.to_string(),
        event_names: events.iter().map(|e| e.to_string()).collect(),
        schema: SchemaLayout::Enum { variant_count: events.len(), tag_encoding: TagEncoding::U8 },
    }
}

#[test]
fn subscriber_reads_streams_in_turn() {
    let receivers = vec![
        receiver(&[(1, vec![10]), (1, vec![11])]),
        receiver(&[(2, vec![0, 5])]),
    ];
    let streams = vec![struct_stream("shreds", "ShredReceivedEvent"), enum_stream("slots", &["Completed"])];
    let mut subscriber = EventSubscriber::from_receivers(receivers, streams).unwrap();

    let got: Vec<(String, String, u64, Vec<u8>)> = (0..3)
        .map(|_| {
            let event = subscriber.try_recv().unwrap();
            (
                event.metadata.event_stream_name().to_string(),
                event.metadata.event_name().to_string(),
                event.metadata.thread_id,
                event.message.payload.clone(),
            )
        })
        .collect();
    assert_eq!(
        got,
        vec![
            ("shreds".to_string(), "ShredReceivedEvent".to_string(), 1, vec![10]),
            ("slots".to_string(), "Completed".to_string(), 2, vec![0, 5]),
            ("shreds".to_string(), "ShredReceivedEvent".to_string(), 1, vec![11]),
        ]
    );
    assert!(subscriber.try_recv().is_none());
}

#[test]
fn subscriber_without_streams_receives_nothing() {
    let mut subscriber = EventSubscriber::<FakeReceiver>::from_receivers(vec![], vec![]).unwrap();
    assert!(subscriber.try_recv().is_none());
}

#[test]
fn subscriber_needs_a_receiver_per_stream() {
    let result = EventSubscriber::from_receivers(vec![receiver(&[])], vec![]);
    assert!(result.is_none());
}

#[test]
fn event_outside_the_schema_is_dropped() {
    let receivers = vec![receiver(&[(3, vec![7]), (3, vec![1])])];
    let streams = vec![enum_stream("slots", &["First", "Second"])];
    let mut subscriber = EventSubscriber::from_receivers(receivers, streams).unwrap();
    assert!(subscriber.try_recv().is_none());
    let event = subscriber.try_recv().unwrap();
    assert_eq!(event.metadata.event_name(), "Second");
}

fn no_fields() -> Box<[wincode_dynamic::FieldDef]> {
    Vec::new().into_boxed_slice()
}

#[test]
fn stream_info_reads_an_encoded_enum_schema() {
    let schema = wincode_dynamic::RootSchema::Enum {
        variants: vec![
            wincode_dynamic::Schema::new("Completed", no_fields(), Some(0)),
            wincode_dynamic::Schema::new("Dropped", no_fields(), Some(0)),
        ]
        .into_boxed_slice(),
        size: Some(2),
        name: "SlotEvents".to_string(),
        tag_encoding: wincode_dynamic::PrimitiveTy::U16,
    };
    let encoded = wincode::serialize(&schema).unwrap();
    let info = agave_events::subscriber::stream_info("slots", &encoded).unwrap();
    assert_eq!(info.event_stream_name, "slots");
    assert_eq!(info.event_names, vec!["Completed".to_string(), "Dropped".to_string()]);
    assert_eq!(info.schema, SchemaLayout::Enum { variant_count: 2, tag_encoding: TagEncoding::U16 });
}

#[test]
fn stream_info_reads_an_encoded_struct_schema() {
    let schema = wincode_dynamic::RootSchema::Struct(wincode_dynamic::Schema::new(
        "ShredReceivedEvent",
        no_fields(),
        Some(0),
    ));
    let encoded = wincode::serialize(&schema).unwrap();
    let info = agave_events::subscriber::stream_info("shreds", &encoded).unwrap();
    assert_eq!(info.event_names, vec!["ShredReceivedEvent".to_string()]);
    assert_eq!(info.schema, SchemaLayout::Struct);
}

#[test]
fn stream_info_refuses_bytes_that_are_no_schema() {
    assert!(agave_events::subscriber::stream_info("x", &[9, 9, 9]).is_none());
    assert!(agave_events::subscriber::stream_info("x", &[]).is_none());
}

#[test]
fn tag_encoding_positions_follow_the_primitive_types() {

    assert_eq!(tag_encoding_from_index(wincode_dynamic::PrimitiveTy::U8 as u8), Some(TagEncoding::U8));
    assert_eq!(tag_encoding_from_index(wincode_dynamic::PrimitiveTy::I32 as u8), Some(TagEncoding::I32));
    assert_eq!(tag_encoding_from_index(wincode_dynamic::PrimitiveTy::Bool as u8), Some(TagEncoding::Bool));
    assert_eq!(tag_encoding_from_index(11), None);
}

#[test]
fn busy_stream_does_not_starve_the_next() {
    let receivers = vec![
        receiver(&[(1, vec![1]), (1, vec![2]), (1, vec![3])]),
        receiver(&[(2, vec![9])]),
    ];
    let streams = vec![struct_stream("busy", "A"), struct_stream("quiet", "B")];
    let mut subscriber = EventSubscriber::from_receivers(receivers, streams).unwrap();
    assert_eq!(subscriber.try_recv().unwrap().metadata.event_stream_name(), "busy");
    assert_eq!(subscriber.try_recv().unwrap().metadata.event_stream_name(), "quiet");
    assert_eq!(subscriber.try_recv().unwrap().metadata.event_stream_name(), "busy");
}
