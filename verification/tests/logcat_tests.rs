//! Tests for the logcat line parser and the stream registry.

use adb_tool::{log_expired, parse_logcat_line, LogcatState};

#[test]
fn test_parse_logcat_line_normal() {
    let line = "01-15 12:34:56.789  1234  5678 D MyTag   : hello world";
    let parsed = parse_logcat_line(line).expect("should parse");
    assert_eq!(parsed.timestamp, "01-15 12:34:56.789");
    assert_eq!(parsed.pid, "1234");
    assert_eq!(parsed.tid, "5678");
    assert_eq!(parsed.level, "D");
    assert_eq!(parsed.tag, "MyTag");
    assert_eq!(parsed.message, "hello world");
}

#[test]
fn test_parse_logcat_line_error_level() {
    let line = "12-25 08:00:00.000  9999    42 E SomeTag : error msg";
    let parsed = parse_logcat_line(line).expect("should parse");
    assert_eq!(parsed.level, "E");
    assert_eq!(parsed.tag, "SomeTag");
    assert_eq!(parsed.message, "error msg");
}

#[test]
fn test_parse_logcat_line_invalid() {
    assert!(parse_logcat_line("").is_none());
    assert!(parse_logcat_line("not a logcat line").is_none());
    assert!(parse_logcat_line("--------- beginning of main").is_none());
}

#[test]
fn test_parse_logcat_line_with_spaces_in_message() {
    let line = "03-10 14:22:33.456  1000  2000 I ActivityManager: Start proc 1234:com.example/u0a12 for activity";
    let parsed = parse_logcat_line(line).expect("should parse");
    assert_eq!(parsed.tag, "ActivityManager");
    assert!(parsed.message.contains("Start proc"));
}

#[test]
fn test_parse_logcat_line_keeps_raw() {
    let line = "01-15 12:34:56.789  1234  5678 D MyTag   : hello world";
    let parsed = parse_logcat_line(line).expect("should parse");
    assert_eq!(parsed.raw, line);
}

#[test]
fn test_parse_logcat_line_tag_without_message() {
    let line = "01-15 12:34:56.789  1234  5678 W Lonely:";
    let parsed = parse_logcat_line(line).expect("should parse");
    assert_eq!(parsed.tag, "Lonely");
    assert_eq!(parsed.message, "");
}

#[test]
fn test_stream_registry() {
    let mut state = LogcatState::new();
    assert_eq!(state.active_pid("serial-1"), None);
    assert!(state.register_stream("serial-1", 100));
    // A second stream for the same device is refused.
    assert!(!state.register_stream("serial-1", 200));
    assert_eq!(state.active_pid("serial-1"), Some(100));
    assert!(state.register_stream("serial-2", 300));
    assert_eq!(state.remove_stream("serial-1"), Some(100));
    assert_eq!(state.remove_stream("serial-1"), None);
    assert_eq!(state.active_pid("serial-2"), Some(300));
}

#[test]
fn test_log_retention() {
    assert!(!log_expired(0));
    assert!(!log_expired(7 * 24 * 60 * 60));
    assert!(log_expired(7 * 24 * 60 * 60 + 1));
}
