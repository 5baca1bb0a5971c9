use agave_events::queue_file::{
    check_published_queue, first_queue_file, parse_u64_decimal, queue_file_name,
    queue_identifier_from_file_name, required_seals, verify_seals, QueueCheckError, SealCheckError,
};
use libc::{F_SEAL_GROW, F_SEAL_SEAL, F_SEAL_SHRINK};

#[test]
fn queue_file_name_writes_the_identifier_in_decimal() {
    assert_eq!(queue_file_name(0), "queue-0");
    assert_eq!(queue_file_name(42), "queue-42");
    assert_eq!(queue_file_name(1000), "queue-1000");
    assert_eq!(queue_file_name(u64::MAX), format!("queue-{}", u64::MAX));
}

#[test]
fn queue_file_name_round_trips_through_the_identifier_parser() {
    for id in [0u64, 7, 10, 99, 123_456, 1 << 40, u64::MAX - 1, u64::MAX] {
        assert_eq!(queue_identifier_from_file_name(&queue_file_name(id)), Some(id));
    }
}

#[test]
fn identifier_parser_follows_u64_from_str() {
    let cases = ["0", "+5", "007", "18446744073709551615", "18446744073709551616", "", "+", "12a", "-1", " 1"];
    for case in cases {
        let chars: Vec<char> = case.chars().collect();
        assert_eq!(parse_u64_decimal(&chars), case.parse::<u64>().ok(), "{case:?}");
    }
}

#[test]
fn identifier_needs_the_queue_prefix() {
    assert_eq!(queue_identifier_from_file_name("queue-12"), Some(12));
    assert_eq!(queue_identifier_from_file_name("queue-"), None);
    assert_eq!(queue_identifier_from_file_name("queues-1"), None);
    assert_eq!(queue_identifier_from_file_name("schema"), None);
    assert_eq!(queue_identifier_from_file_name("queue-1x"), None);
}

#[test]
fn required_seals_are_shrink_grow_and_seal() {
    assert_eq!(required_seals(), F_SEAL_SHRINK | F_SEAL_GROW | F_SEAL_SEAL);
    assert_eq!(required_seals(), 7);
}

#[test]
fn published_queue_checks() {
    assert_eq!(check_published_queue("queue-5", required_seals(), 5), Ok(5));
    assert_eq!(check_published_queue("queue-5", required_seals() | 8, 5), Ok(5));
    assert_eq!(
        check_published_queue("queue-5", required_seals(), 6),
        Err(QueueCheckError::QueueIdentifierMismatch { expected: 5, actual: 6 })
    );
    assert_eq!(
        check_published_queue("queue-5", F_SEAL_SHRINK | F_SEAL_GROW, 5),
        Err(QueueCheckError::QueueIsNotSealed)
    );
    assert_eq!(check_published_queue("queue-5", -1, 5), Err(QueueCheckError::QueueIsNotSealed));
    assert_eq!(
        check_published_queue("queue-five", required_seals(), 5),
        Err(QueueCheckError::InvalidQueueIdentifier)
    );
}

#[test]
fn seal_checks() {
    assert_eq!(verify_seals(required_seals()), Ok(()));
    assert_eq!(verify_seals(-1), Err(SealCheckError::QueryFailed));
    assert_eq!(verify_seals(F_SEAL_SEAL), Err(SealCheckError::NotSealed));
    assert_eq!(verify_seals(0), Err(SealCheckError::NotSealed));
}

#[test]
fn first_queue_file_picks_the_first_queue_entry() {
    let names: Vec<String> = ["schema", "queue-1", "queue-2"].iter().map(|s| s.to_string()).collect();
    assert_eq!(first_queue_file(&names), Some(1));
    let names: Vec<String> = ["schema", "queue"].iter().map(|s| s.to_string()).collect();
    assert_eq!(first_queue_file(&names), None);
    assert_eq!(first_queue_file(&[]), None);
}
