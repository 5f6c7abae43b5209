//! Translation of installer error codes to user-facing Chinese messages,
//! with a suggestion and an optional automatic-fix action.

use vstd::prelude::*;
use vstd::string::StringExecFns;

use crate::text::str_eq;

verus! {

/// A translation triple with each string replaced by its view.
pub open spec fn triple_view(r: (String, String, Option<String>)) -> (
    Seq<char>,
    Seq<char>,
    Option<Seq<char>>,
) {
    (
        r.0@,
        r.1@,
        match r.2 {
            Some(s) => Some(s@),
            None => None,
        },
    )
}

/// The translation of an installer error code: message, suggestion, and
/// the automatic-fix action offered for it, if any. An unknown code keeps
/// its name inside a generic failure message.
pub open spec fn spec_translate(code: Seq<char>) -> (Seq<char>, Seq<char>, Option<Seq<char>>) {
    if code == "INSTALL_FAILED_UPDATE_INCOMPATIBLE"@ {
        (
            "签名冲突：已安装的版本与新包签名不同"@,
            "需要先卸载旧版本再安装新版本"@,
            Some("uninstall_reinstall"@),
        )
    } else if code == "INSTALL_FAILED_VERSION_DOWNGRADE"@ {
        (
            "版本降级：新包版本号低于已安装版本"@,
            "可以强制降级安装（会覆盖现有数据）"@,
            Some("force_downgrade"@),
        )
    } else if code == "INSTALL_FAILED_INSUFFICIENT_STORAGE"@ {
        ("存储空间不足"@, "请清理设备存储空间后重试"@, None)
    } else if code == "INSTALL_FAILED_ALREADY_EXISTS"@ {
        ("应用已存在"@, "可以覆盖安装（替换现有版本）"@, Some("replace_install"@))
    } else if code == "INSTALL_FAILED_INVALID_APK"@ {
        ("APK 文件损坏或格式无效"@, "请检查 APK 文件是否完整，尝试重新下载"@, None)
    } else if code == "INSTALL_FAILED_NO_MATCHING_ABIS"@ {
        (
            "CPU 架构不兼容"@,
            "该 APK 不支持当前设备的 CPU 架构，请使用对应架构的安装包"@,
            None,
        )
    } else if code == "INSTALL_FAILED_OLDER_SDK"@ {
        ("系统版本过低"@, "该应用要求更高的 Android 系统版本"@, None)
    } else if code == "INSTALL_FAILED_DUPLICATE_PERMISSION"@ {
        (
            "权限冲突"@,
            "该应用声明的权限与设备上已安装的其他应用冲突"@,
            None,
        )
    } else if code == "INSTALL_FAILED_TEST_ONLY"@ {
        ("仅测试包"@, "该 APK 标记为仅供测试，可以强制安装"@, Some("force_test_install"@))
    } else if code == "INSTALL_PARSE_FAILED_NO_CERTIFICATES"@ {
        ("APK 未签名"@, "该 APK 缺少有效签名，请使用已签名的安装包"@, None)
    } else if code == "INSTALL_FAILED_VERIFICATION_FAILURE"@ {
        (
            "安装验证失败"@,
            "设备安全策略阻止了安装，请检查设备安全设置"@,
            None,
        )
    } else if code == "INSTALL_FAILED_USER_RESTRICTED"@ {
        (
            "用户受限"@,
            "当前用户没有安装应用的权限，请检查设备管理设置"@,
            None,
        )
    } else {
        ("安装失败："@ + code, "请查看错误码获取更多信息"@, None)
    }
}

/// Translates an installer error code to a Chinese message, a suggestion,
/// and an optional automatic-fix action.
pub fn translate_error(error_code: &str) -> (r: (String, String, Option<String>))
    ensures
        triple_view(r) == spec_translate(error_code@),
{
    if str_eq(error_code, "INSTALL_FAILED_UPDATE_INCOMPATIBLE") {
        (
            String::from_str("签名冲突：已安装的版本与新包签名不同"),
            String::from_str("需要先卸载旧版本再安装新版本"),
            Some(String::from_str("uninstall_reinstall")),
        )
    } else if str_eq(error_code, "INSTALL_FAILED_VERSION_DOWNGRADE") {
        (
            String::from_str("版本降级：新包版本号低于已安装版本"),
            String::from_str("可以强制降级安装（会覆盖现有数据）"),
            Some(String::from_str("force_downgrade")),
        )
    } else if str_eq(error_code, "INSTALL_FAILED_INSUFFICIENT_STORAGE") {
        (
            String::from_str("存储空间不足"),
            String::from_str("请清理设备存储空间后重试"),
            None,
        )
    } else if str_eq(error_code, "INSTALL_FAILED_ALREADY_EXISTS") {
        (
            String::from_str("应用已存在"),
            String::from_str("可以覆盖安装（替换现有版本）"),
            Some(String::from_str("replace_install")),
        )
    } else if str_eq(error_code, "INSTALL_FAILED_INVALID_APK") {
        (
            String::from_str("APK 文件损坏或格式无效"),
            String::from_str("请检查 APK 文件是否完整，尝试重新下载"),
            None,
        )
    } else if str_eq(error_code, "INSTALL_FAILED_NO_MATCHING_ABIS") {
        (
            String::from_str("CPU 架构不兼容"),
            String::from_str("该 APK 不支持当前设备的 CPU 架构，请使用对应架构的安装包"),
            None,
        )
    } else if str_eq(error_code, "INSTALL_FAILED_OLDER_SDK") {
        (
            String::from_str("系统版本过低"),
            String::from_str("该应用要求更高的 Android 系统版本"),
            None,
        )
    } else if str_eq(error_code, "INSTALL_FAILED_DUPLICATE_PERMISSION") {
        (
            String::from_str("权限冲突"),
            String::from_str("该应用声明的权限与设备上已安装的其他应用冲突"),
            None,
        )
    } else if str_eq(error_code, "INSTALL_FAILED_TEST_ONLY") {
        (
            String::from_str("仅测试包"),
            String::from_str("该 APK 标记为仅供测试，可以强制安装"),
            Some(String::from_str("force_test_install")),
        )
    } else if str_eq(error_code, "INSTALL_PARSE_FAILED_NO_CERTIFICATES") {
        (
            String::from_str("APK 未签名"),
            String::from_str("该 APK 缺少有效签名，请使用已签名的安装包"),
            None,
        )
    } else if str_eq(error_code, "INSTALL_FAILED_VERIFICATION_FAILURE") {
        (
            String::from_str("安装验证失败"),
            String::from_str("设备安全策略阻止了安装，请检查设备安全设置"),
            None,
        )
    } else if str_eq(error_code, "INSTALL_FAILED_USER_RESTRICTED") {
        (
            String::from_str("用户受限"),
            String::from_str("当前用户没有安装应用的权限，请检查设备管理设置"),
            None,
        )
    } else {
        (
            String::from_str("安装失败：").concat(error_code),
            String::from_str("请查看错误码获取更多信息"),
            None,
        )
    }
}

} // verus!
