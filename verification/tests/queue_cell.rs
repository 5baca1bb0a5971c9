use agave_events::queue_cell::{event_queue_cell_size, SerializedSize};

#[test]
fn static_size_uses_wincode_upper_bound() {
    assert_eq!(event_queue_cell_size(SerializedSize::Static(8), None), 8);
    assert_eq!(event_queue_cell_size(SerializedSize::Static(8), Some(16)), 8);
}

#[test]
fn dynamic_size_uses_explicit_upper_bound() {
    assert_eq!(event_queue_cell_size(SerializedSize::Dynamic(8), Some(16)), 16);
}

#[test]
fn dynamic_size_takes_any_bound_above_the_lower_bound() {
    assert_eq!(event_queue_cell_size(SerializedSize::Dynamic(8), Some(9)), 9);
    assert_eq!(event_queue_cell_size(SerializedSize::Dynamic(0), Some(64)), 64);
}
