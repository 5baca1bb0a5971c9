use agave_events::stream_directory::is_valid_event_stream_name;
use agave_events::stream_name::StreamName;
use std::path::{Component, Path};

#[test]
fn single_components_name_event_streams() {
    for name in ["slot_events", ".hidden", "...", "a/", "a//", "a/.", "a/./", "a/./."] {
        assert!(is_valid_event_stream_name(name), "{name:?}");
    }
}

#[test]
fn other_paths_do_not_name_event_streams() {
    for name in ["", ".", "..", "./a", "../a", "/a", "a/b", "a/..", "a/./b", "a/.b", "a/b/"] {
        assert!(!is_valid_event_stream_name(name), "{name:?}");
    }
}

#[test]
fn stream_directory_check_matches_path_components() {
    for name in ["x", "x/", "./x", "x/.", "x/./y", "x//", "..", ".x", "/", "x/..", "x/.y", "x/./"] {
        let mut components = Path::new(name).components();
        let single = matches!(components.next(), Some(Component::Normal(_))) && components.next().is_none();
        assert_eq!(is_valid_event_stream_name(name), single, "{name:?}");
    }
}

#[test]
fn valid_stream_names_are_valid_directory_names() {
    for name in ["slot.events:v1", "..tests", "_", "a-b"] {
        let stream_name = StreamName::try_new(name).unwrap();
        assert!(is_valid_event_stream_name(stream_name.as_str()));
    }
}
