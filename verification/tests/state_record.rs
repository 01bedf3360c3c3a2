use claude_buddy_changer::state::{
    current_timestamp, get_recorded_original_salt, record_original_salt, BinaryStateEntry, StateFile,
};

#[test]
fn empty_state_is_version_one() {
    let state = StateFile::default();
    assert_eq!(state.version, 1);
    assert!(state.binaries.is_empty());
    assert_eq!(get_recorded_original_salt(&state, "/bin/acme"), None);
}

#[test]
fn first_recording_wins() {
    let mut state = StateFile::default();
    assert!(record_original_salt(&mut state, "/bin/acme", "friend-2026-401", "100".to_string()));
    assert_eq!(
        get_recorded_original_salt(&state, "/bin/acme"),
        Some("friend-2026-401".to_string())
    );
    assert!(!record_original_salt(&mut state, "/bin/acme", "friend-2026-999", "200".to_string()));
    assert_eq!(
        get_recorded_original_salt(&state, "/bin/acme"),
        Some("friend-2026-401".to_string())
    );
    assert_eq!(
        state.binaries,
        vec![(
            "/bin/acme".to_string(),
            BinaryStateEntry { original_salt: "friend-2026-401".to_string(), recorded_at: "100".to_string() }
        )]
    );
}

#[test]
fn recordings_are_kept_per_path() {
    let mut state = StateFile::default();
    assert!(record_original_salt(&mut state, "/a", "friend-2026-001", "1".to_string()));
    assert!(record_original_salt(&mut state, "/b", "friend-2026-002", "2".to_string()));
    assert_eq!(get_recorded_original_salt(&state, "/a"), Some("friend-2026-001".to_string()));
    assert_eq!(get_recorded_original_salt(&state, "/b"), Some("friend-2026-002".to_string()));
    assert_eq!(get_recorded_original_salt(&state, "/c"), None);
    assert_eq!(state.version, 1);
}

#[test]
fn timestamp_is_decimal_seconds() {
    assert_eq!(current_timestamp(Some(1_700_000_000)), "1700000000");
    assert_eq!(current_timestamp(Some(0)), "0");
    assert_eq!(current_timestamp(None), "0");
}

#[test]
fn distinct_paths_are_checked() {
    let mut state = StateFile::default();
    assert!(claude_buddy_changer::state::paths_distinct(&state));
    record_original_salt(&mut state, "/a", "s", "1".to_string());
    record_original_salt(&mut state, "/b", "s", "1".to_string());
    assert!(claude_buddy_changer::state::paths_distinct(&state));
    let entry = BinaryStateEntry { original_salt: "x".to_string(), recorded_at: "2".to_string() };
    state.binaries.push(("/a".to_string(), entry));
    assert!(!claude_buddy_changer::state::paths_distinct(&state));
}
