//! Tests for the installer error translation table.

use adb_tool::translate_error;

#[test]
fn test_known_error_code() {
    let (msg, _suggestion, auto_fix) = translate_error("INSTALL_FAILED_UPDATE_INCOMPATIBLE");
    assert!(msg.contains("签名冲突"));
    assert_eq!(auto_fix, Some("uninstall_reinstall".to_string()));
}

#[test]
fn test_unknown_error_code() {
    let (msg, _suggestion, auto_fix) = translate_error("UNKNOWN_ERROR");
    assert!(msg.contains("UNKNOWN_ERROR"));
    assert_eq!(auto_fix, None);
}

#[test]
fn test_every_auto_fix_action() {
    let (_, _, fix) = translate_error("INSTALL_FAILED_VERSION_DOWNGRADE");
    assert_eq!(fix, Some("force_downgrade".to_string()));
    let (_, _, fix) = translate_error("INSTALL_FAILED_ALREADY_EXISTS");
    assert_eq!(fix, Some("replace_install".to_string()));
    let (_, _, fix) = translate_error("INSTALL_FAILED_TEST_ONLY");
    assert_eq!(fix, Some("force_test_install".to_string()));
    let (_, _, fix) = translate_error("INSTALL_FAILED_INSUFFICIENT_STORAGE");
    assert_eq!(fix, None);
}

#[test]
fn test_translations_without_fix() {
    let (msg, suggestion, fix) = translate_error("INSTALL_FAILED_NO_MATCHING_ABIS");
    assert!(msg.contains("CPU"));
    assert!(!suggestion.is_empty());
    assert_eq!(fix, None);
    let (msg, _, _) = translate_error("INSTALL_PARSE_FAILED_NO_CERTIFICATES");
    assert!(msg.contains("未签名"));
    let (msg, _, _) = translate_error("INSTALL_FAILED_OLDER_SDK");
    assert!(msg.contains("系统版本过低"));
}

#[test]
fn test_unknown_code_keeps_code_in_message() {
    let (msg, suggestion, fix) = translate_error("SOME_NEW_FAILURE");
    assert_eq!(msg, "安装失败：SOME_NEW_FAILURE");
    assert_eq!(suggestion, "请查看错误码获取更多信息");
    assert_eq!(fix, None);
}
