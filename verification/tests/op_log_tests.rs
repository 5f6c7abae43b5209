//! Tests for the operation history.

use adb_tool::{add_entry, clear_entries, get_entries, OpLogEntry, OpLogState};

fn entry(op_type: &str, device: &str, detail: &str) -> OpLogEntry {
    OpLogEntry {
        timestamp: "2024-01-15 12:00:00".to_string(),
        op_type: op_type.to_string(),
        device: device.to_string(),
        detail: detail.to_string(),
        success: true,
        error_message: None,
        raw_output: None,
    }
}

#[test]
fn test_add_and_get_entries() {
    let mut state = OpLogState::new();
    assert!(get_entries(&state, None, None).is_empty());
    add_entry(&mut state, entry("install", "dev-a", "one"));
    add_entry(&mut state, entry("uninstall", "dev-a", "two"));
    add_entry(&mut state, entry("install", "dev-b", "three"));
    let all = get_entries(&state, None, None);
    assert_eq!(all.len(), 3);
    assert_eq!(all[0].detail, "one");
    assert_eq!(all[2].detail, "three");
}

#[test]
fn test_filter_by_type_and_device() {
    let mut state = OpLogState::new();
    add_entry(&mut state, entry("install", "dev-a", "one"));
    add_entry(&mut state, entry("uninstall", "dev-a", "two"));
    add_entry(&mut state, entry("install", "dev-b", "three"));
    let installs = get_entries(&state, Some("install"), None);
    assert_eq!(installs.len(), 2);
    assert_eq!(installs[0].detail, "one");
    assert_eq!(installs[1].detail, "three");
    let on_a = get_entries(&state, None, Some("dev-a"));
    assert_eq!(on_a.len(), 2);
    let install_on_b = get_entries(&state, Some("install"), Some("dev-b"));
    assert_eq!(install_on_b.len(), 1);
    assert_eq!(install_on_b[0].detail, "three");
    assert!(get_entries(&state, Some("screenshot"), None).is_empty());
}

#[test]
fn test_from_entries_and_clear() {
    let loaded = vec![entry("upload", "dev-c", "pushed")];
    let mut state = OpLogState::from_entries(loaded);
    assert_eq!(get_entries(&state, None, None).len(), 1);
    clear_entries(&mut state);
    assert!(get_entries(&state, None, None).is_empty());
}
