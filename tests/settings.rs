use game_persistence::game_event::GameEventType;
use game_persistence::settings::{ReadFailureKind, Settings, SettingsError};

#[test]
fn missing_file_and_malformed_text_give_distinct_errors() {
    let missing = std::io::Error::new(std::io::ErrorKind::NotFound, "no file");
    assert!(matches!(SettingsError::from_read_error(missing), SettingsError::FileNotFound));
    let bad = serde_json::from_str::<serde_json::Value>("{{ not: valid: json }}").unwrap_err();
    assert!(matches!(SettingsError::from_parse_error(bad), SettingsError::Parse(_)));
}

#[test]
fn read_errors_are_sorted_by_kind() {
    let denied = std::io::Error::new(std::io::ErrorKind::PermissionDenied, "denied");
    assert!(matches!(SettingsError::from_read_error(denied), SettingsError::PermissionDenied));
    let other = std::io::Error::new(std::io::ErrorKind::Other, "other");
    assert!(matches!(SettingsError::from_read_error(other), SettingsError::Io(_)));
    let odd = std::io::Error::new(std::io::ErrorKind::Interrupted, "odd");
    assert!(matches!(SettingsError::from_read_error(odd), SettingsError::Unknown));
    let cause = std::io::Error::new(std::io::ErrorKind::Other, "x");
    assert!(matches!(
        SettingsError::from_read_failure(ReadFailureKind::Unrecognized, cause),
        SettingsError::Unknown
    ));
}

#[test]
fn increment_adds_one_connection() {
    let mut s = Settings {
        project_name: "EscapeRoom".into(),
        version: "1.0.0".into(),
        debug: true,
        max_connections: 42,
    };
    s.increment_max_connections();
    assert_eq!(s.max_connections, 43);
    assert_eq!(s.project_name, "EscapeRoom");
    assert_eq!(s.version, "1.0.0");
    assert!(s.debug);
}

#[test]
fn event_type_codes_follow_declaration_order() {
    let all = [GameEventType::Start, GameEventType::Attempt, GameEventType::Solve, GameEventType::LevelUp];
    for (i, t) in all.iter().enumerate() {
        assert_eq!(t.code(), i as u32);
        assert_eq!(GameEventType::from_code(i as u32), Some(*t));
    }
    assert_eq!(GameEventType::from_code(4), None);
    assert_eq!(GameEventType::from_code(u32::MAX), None);
}
