//! Verified core of a desktop helper for Android devices: a decoder for the
//! binary `AndroidManifest.xml` format, parsers for the line-oriented output
//! of the platform tools, an install-error translation table, and the pure
//! state kept for log streaming and operation history.

pub mod adb;
pub mod axml;
pub mod error_codes;
pub mod logcat;
pub mod op_log;
pub mod text;

pub use adb::classify_install_output;
pub use adb::extract_error_code;
pub use adb::parse_devices_output;
pub use adb::parse_df_output;
pub use adb::parse_file_list;
pub use adb::parse_package_line;
pub use adb::parse_packages_output;
pub use adb::parse_version_output;
pub use adb::AdbDevice;
pub use adb::DeviceDetail;
pub use adb::InstallResult;
pub use adb::InstalledApp;
pub use axml::find_tag_attribute;
pub use axml::parse_package_name;
pub use axml::parse_string_pool;
pub use axml::read_u16;
pub use axml::read_u32;
pub use axml::AxmlError;
pub use error_codes::translate_error;
pub use logcat::log_expired;
pub use logcat::parse_logcat_line;
pub use logcat::LogcatLine;
pub use logcat::LogcatState;
pub use op_log::add_entry;
pub use op_log::clear_entries;
pub use op_log::get_entries;
pub use op_log::OpLogEntry;
pub use op_log::OpLogState;
pub use text::str_eq;
