//! Tests for the device-bridge output parsers.

use adb_tool::{
    classify_install_output, extract_error_code, parse_devices_output, parse_df_output,
    parse_file_list, parse_package_line, parse_packages_output, parse_version_output,
};

#[test]
fn test_parse_file_list() {
    let out = "total 8\r\ndrwxr-xr-x  2 root root 4096 Jan  1 00:00 .\n\n  file.txt  \n";
    let files = parse_file_list(out);
    assert_eq!(files.len(), 3);
    assert_eq!(files[0], "total 8");
    assert_eq!(files[1], "drwxr-xr-x  2 root root 4096 Jan  1 00:00 .");
    assert_eq!(files[2], "file.txt");
}

#[test]
fn test_extract_error_code_simple() {
    let output = "Performing Streamed Install\nFailure [INSTALL_FAILED_UPDATE_INCOMPATIBLE]";
    assert_eq!(
        extract_error_code(output),
        "INSTALL_FAILED_UPDATE_INCOMPATIBLE"
    );
}

#[test]
fn test_extract_error_code_with_detail() {
    let output = "Failure [INSTALL_FAILED_VERSION_DOWNGRADE: Package abc]";
    assert_eq!(
        extract_error_code(output),
        "INSTALL_FAILED_VERSION_DOWNGRADE"
    );
}

#[test]
fn test_extract_error_code_no_match() {
    let output = "Success";
    assert_eq!(extract_error_code(output), "UNKNOWN_ERROR");
}

#[test]
fn test_parse_df_output() {
    let df = "Filesystem     1K-blocks    Used Available Use% Mounted on\n/dev/block/dm-0 52428800 31457280 20971520  60% /data\n";
    let (total, free) = parse_df_output(df);
    assert_eq!(total, 52428800 / 1024);
    assert_eq!(free, 20971520 / 1024);
}

#[test]
fn test_parse_df_output_edge_cases() {
    assert_eq!(parse_df_output(""), (0, 0));
    assert_eq!(parse_df_output("header only"), (0, 0));
    // A column that is not a number parses as zero.
    let df = "h\n/dev x y z w\n";
    assert_eq!(parse_df_output(df), (0, 0));
    // A K suffix is removed before parsing.
    let df = "h\n/dev 2048K used 1024K 50% /data\n";
    assert_eq!(parse_df_output(df), (2, 1));
    // A value too large for sixty-four bits parses as zero.
    let df = "h\n/dev 99999999999999999999999 u 1024 50% /data\n";
    assert_eq!(parse_df_output(df), (0, 1));
}

#[test]
fn test_parse_devices_output() {
    let out = "List of devices attached\n\
               emulator-5554\tdevice product:sdk_gphone64 model:sdk_gphone64_x86_64\n\
               ABC123  unauthorized\n\
               \n";
    let devices = parse_devices_output(out);
    assert_eq!(devices.len(), 2);
    assert_eq!(devices[0].serial, "emulator-5554");
    assert_eq!(devices[0].state, "device");
    assert_eq!(devices[0].model, "sdk_gphone64_x86_64");
    assert_eq!(devices[0].product, "sdk_gphone64");
    assert_eq!(devices[1].serial, "ABC123");
    assert_eq!(devices[1].state, "unauthorized");
    assert_eq!(devices[1].model, "");
    assert_eq!(devices[1].product, "");
}

#[test]
fn test_parse_package_line() {
    let line = "package:/data/app/~~x==/com.example.app-1/base.apk=com.example.app";
    let (name, is_system) = parse_package_line(line).unwrap();
    assert_eq!(name, "com.example.app");
    assert!(!is_system);

    let line = "package:/system/app/Settings/Settings.apk=com.android.settings";
    let (name, is_system) = parse_package_line(line).unwrap();
    assert_eq!(name, "com.android.settings");
    assert!(is_system);

    assert!(parse_package_line("no prefix here").is_none());
    assert!(parse_package_line("package:no-equals-sign").is_none());
}

#[test]
fn test_parse_packages_output() {
    let out = "package:/system/a.apk=com.a\npackage:/data/b.apk=com.b\nnot a package line\n";
    let packages = parse_packages_output(out);
    assert_eq!(packages.len(), 2);
    assert_eq!(packages[0].0, "com.a");
    assert!(packages[0].1);
    assert_eq!(packages[1].0, "com.b");
    assert!(!packages[1].1);
}

#[test]
fn test_parse_version_output() {
    let out = "  somethingElse=1\n    versionCode=123 minSdk=24 targetSdk=33\n    versionName=1.2.3\n    versionName=ignored.after.both.set\n";
    let (name, code) = parse_version_output(out);
    assert_eq!(name, "1.2.3");
    assert_eq!(code, "123");
}

#[test]
fn test_parse_version_output_missing() {
    let (name, code) = parse_version_output("no versions here\n");
    assert_eq!(name, "");
    assert_eq!(code, "");
}

#[test]
fn test_classify_install_success() {
    let r = classify_install_output("Performing Streamed Install\nSuccess\n".to_string());
    assert!(r.success);
    assert_eq!(r.error_code, None);
    assert_eq!(r.error_message_cn, None);
    assert_eq!(r.suggestion, None);
    assert_eq!(r.auto_fix, None);
    assert_eq!(r.raw_output, "Performing Streamed Install\nSuccess\n");
}

#[test]
fn test_classify_install_failure() {
    let raw = "Failure [INSTALL_FAILED_UPDATE_INCOMPATIBLE]".to_string();
    let r = classify_install_output(raw.clone());
    assert!(!r.success);
    assert_eq!(
        r.error_code,
        Some("INSTALL_FAILED_UPDATE_INCOMPATIBLE".to_string())
    );
    assert!(r.error_message_cn.unwrap().contains("签名冲突"));
    assert_eq!(r.auto_fix, Some("uninstall_reinstall".to_string()));
    assert_eq!(r.raw_output, raw);
}
