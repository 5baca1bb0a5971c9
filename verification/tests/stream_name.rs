use agave_events::stream_name::{stream_name, StreamName, StreamNameValidationError};

#[test]
fn try_new_rejects_invalid_names() {
    for invalid_name in [
        "stream\0name",
        "nested/stream",
        "../stream",
        "./stream",
        "stream/../other",
        "..\\stream",
        "/absolute",
        "trailing/",
        "trailing//",
        "trailing/.",
        "stream name",
        "stream\tname",
        "stream\nname",
        "stream,other",
        "stream=on",
        "stream\\name",
        "stream_/name",
        "🦀",
        "界",
    ] {
        assert_eq!(
            StreamName::try_new(invalid_name),
            Err(StreamNameValidationError::InvalidCharacter),
            "{invalid_name:?}"
        );
    }
}

#[test]
fn try_new_rejects_invalid_directory_names() {
    for (invalid_name, expected_error) in [
        ("", StreamNameValidationError::Empty),
        (".", StreamNameValidationError::ReservedDirectoryName),
        ("..", StreamNameValidationError::ReservedDirectoryName),
    ] {
        assert_eq!(StreamName::try_new(invalid_name), Err(expected_error));
    }
}

#[test]
fn sucessful_macro_evaluates_to_same_result_as_constructor() {
    for name in [
        "stream_a",
        "_",
        "_stream_a_",
        "solana_core",
        "solana_core::replay_stage",
        "solana_core::replay_stage::slot_events",
        "slot.events:v1",
        ".hidden",
        ".test",
        "..tests",
        "test.stream-events",
        "trailing.",
        "...",
    ] {
        let constant = stream_name(name);
        assert_eq!(constant.as_str(), name);
        assert_eq!(StreamName::try_new(name), Ok(constant));
    }
}

#[test]
fn error_messages_describe_the_rule() {
    assert_eq!(StreamNameValidationError::Empty.message(), "stream name must not be empty");
    assert_eq!(
        StreamNameValidationError::ReservedDirectoryName.message(),
        "stream name must not be `.` or `..`"
    );
}
