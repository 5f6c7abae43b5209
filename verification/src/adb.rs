//! Parsers for the line-oriented output of the device bridge: the device
//! list, storage figures, installed-package listings, version properties
//! and installer results. The commands themselves run outside this
//! library; these functions turn their captured output into values.

use vstd::prelude::*;
use vstd::string::StrSliceExecFns;
use vstd::string::StringExecFns;

use crate::error_codes::spec_translate;
use crate::error_codes::translate_error;
use crate::text::eq_pred;
use crate::text::find_char_at;
use crate::text::find_if;
use crate::text::find_sub;
use crate::text::find_sub_at;
use crate::text::parse_u64_or_zero;
use crate::text::remove_char;
use crate::text::has_prefix;
use crate::text::rfind_char;
use crate::text::rfind_char_at;
use crate::text::spec_has_prefix;
use crate::text::spec_lines;
use crate::text::spec_parse_u64_or_zero;
use crate::text::spec_remove_char;
use crate::text::spec_split_ws;
use crate::text::spec_trim;
use crate::text::split_lines;
use crate::text::split_ws;
use crate::text::strip_prefix_str;
use crate::text::trim_str;

verus! {

/// One connected device, as the device listing reports it.
#[derive(Debug, Clone)]
pub struct AdbDevice {
    pub serial: String,
    pub state: String,
    pub model: String,
    pub product: String,
}

impl View for AdbDevice {
    type V = (Seq<char>, Seq<char>, Seq<char>, Seq<char>);

    open spec fn view(&self) -> (Seq<char>, Seq<char>, Seq<char>, Seq<char>) {
        (self.serial@, self.state@, self.model@, self.product@)
    }
}

/// Details of one device: identity, system version and storage figures.
#[derive(Debug, Clone)]
pub struct DeviceDetail {
    pub serial: String,
    pub model: String,
    pub android_version: String,
    pub sdk_version: String,
    pub storage_total_mb: u64,
    pub storage_free_mb: u64,
}

/// One installed package.
#[derive(Debug, Clone)]
pub struct InstalledApp {
    pub package_name: String,
    pub version_name: String,
    pub version_code: String,
    pub is_system: bool,
}

/// The outcome of an install attempt, with the error translated when it
/// failed.
#[derive(Debug, Clone)]
pub struct InstallResult {
    pub success: bool,
    pub error_code: Option<String>,
    pub error_message_cn: Option<String>,
    pub suggestion: Option<String>,
    pub auto_fix: Option<String>,
    pub raw_output: String,
}

/// The installer error code inside `s`: the word between `Failure [` and
/// the next `]`, cut at the first colon and trimmed; `UNKNOWN_ERROR` when
/// no such pattern occurs.
pub open spec fn spec_extract_error_code(s: Seq<char>) -> Seq<char> {
    let i = find_sub(s, "Failure ["@, 0);
    if i < 0 {
        "UNKNOWN_ERROR"@
    } else {
        let after = s.subrange(i + "Failure ["@.len(), s.len() as int);
        let j = find_if(after, eq_pred(']'), 0);
        if j >= after.len() {
            "UNKNOWN_ERROR"@
        } else {
            let sect = after.subrange(0, j);
            let k = find_if(sect, eq_pred(':'), 0);
            spec_trim(sect.subrange(0, k))
        }
    }
}

/// Extracts the installer error code from install output.
pub fn extract_error_code(output: &str) -> (r: String)
    ensures
        r@ == spec_extract_error_code(output@),
{
    match find_sub_at(output, "Failure [", 0) {
        Some(i) => {
            let n = output.unicode_len();
            let m = "Failure [".unicode_len();
            let after = output.substring_char(i + m, n);
            let alen = after.unicode_len();
            let j = find_char_at(after, ']', 0);
            if j >= alen {
                String::from_str("UNKNOWN_ERROR")
            } else {
                let sect = after.substring_char(0, j);
                let k = find_char_at(sect, ':', 0);
                let code = sect.substring_char(0, k);
                String::from_str(trim_str(code))
            }
        },
        None => String::from_str("UNKNOWN_ERROR"),
    }
}

/// The storage figures one report line yields: when the line has at least
/// four whitespace-separated columns, the second and fourth parsed as
/// kilobytes (a `K` suffix removed) and converted to megabytes.
pub open spec fn spec_df_line(line: Seq<char>) -> Option<(u64, u64)> {
    let parts = spec_split_ws(line);
    if parts.len() >= 4 {
        Some(
            (
                spec_parse_u64_or_zero(spec_remove_char(parts[1], 'K')) / 1024,
                spec_parse_u64_or_zero(spec_remove_char(parts[3], 'K')) / 1024,
            ),
        )
    } else {
        None
    }
}

/// The figures of the first line from `i` on that has enough columns, or
/// zeroes.
pub open spec fn spec_df_scan(lines: Seq<Seq<char>>, i: int) -> (u64, u64)
    decreases lines.len() - i,
{
    if i < 0 || i >= lines.len() {
        (0u64, 0u64)
    } else {
        match spec_df_line(lines[i]) {
            Some(v) => v,
            None => spec_df_scan(lines, i + 1),
        }
    }
}

/// Total and free storage, in megabytes, taken from storage-report output:
/// the first line after the header with at least four columns.
pub open spec fn spec_parse_df(s: Seq<char>) -> (u64, u64) {
    spec_df_scan(spec_lines(s), 1)
}

/// Extracts total and free storage, in megabytes, from storage-report
/// output.
#[verifier::loop_isolation(false)]
pub fn parse_df_output(output: &str) -> (r: (u64, u64))
    ensures
        r == spec_parse_df(output@),
{
    let lines = split_lines(output);
    let mut i: usize = 1;
    while i < lines.len()
        invariant
            1 <= i,
            spec_df_scan(spec_lines(output@), 1) == spec_df_scan(spec_lines(output@), i as int),
        decreases lines@.len() - i,
    {
        let parts = split_ws(lines[i].as_str());
        if parts.len() >= 4 {
            let tk = remove_char(parts[1].as_str(), 'K');
            let fk = remove_char(parts[3].as_str(), 'K');
            let t = parse_u64_or_zero(tk.as_str());
            let f = parse_u64_or_zero(fk.as_str());
            return (t / 1024, f / 1024);
        }
        i += 1;
    }
    (0, 0)
}

/// Whether install output reports success.
pub open spec fn spec_install_success(raw: Seq<char>) -> bool {
    find_sub(raw, "Success"@, 0) >= 0
}

/// Turns raw install output into an install result: success when the
/// output reports it, otherwise the extracted error code with its
/// translation.
pub fn classify_install_output(raw_output: String) -> (r: InstallResult)
    ensures
        r.success == spec_install_success(raw_output@),
        r.raw_output@ == raw_output@,
        r.success ==> r.error_code is None && r.error_message_cn is None && r.suggestion is None
            && r.auto_fix is None,
        !r.success ==> ({
            let code = spec_extract_error_code(raw_output@);
            let tr = spec_translate(code);
            &&& r.error_code matches Some(c) && c@ == code
            &&& r.error_message_cn matches Some(m) && m@ == tr.0
            &&& r.suggestion matches Some(sg) && sg@ == tr.1
            &&& match (r.auto_fix, tr.2) {
                (Some(a), Some(b)) => a@ == b,
                (None, None) => true,
                _ => false,
            }
        }),
{
    let success = match find_sub_at(raw_output.as_str(), "Success", 0) {
        Some(_) => true,
        None => false,
    };
    if success {
        InstallResult {
            success: true,
            error_code: None,
            error_message_cn: None,
            suggestion: None,
            auto_fix: None,
            raw_output,
        }
    } else {
        let code = extract_error_code(raw_output.as_str());
        let (message_cn, suggestion, auto_fix) = translate_error(code.as_str());
        InstallResult {
            success: false,
            error_code: Some(code),
            error_message_cn: Some(message_cn),
            suggestion: Some(suggestion),
            auto_fix,
            raw_output,
        }
    }
}

/// The model and product values among the extra `key:value` columns of a
/// device line, scanned from column `k` on; a later occurrence overwrites
/// an earlier one.
pub open spec fn spec_scan_device_extras(
    parts: Seq<Seq<char>>,
    k: int,
    model: Seq<char>,
    product: Seq<char>,
) -> (Seq<char>, Seq<char>)
    decreases parts.len() - k,
{
    if k < 0 || k >= parts.len() {
        (model, product)
    } else {
        let p = parts[k];
        if spec_has_prefix(p, "model:"@) {
            spec_scan_device_extras(
                parts,
                k + 1,
                p.subrange("model:"@.len() as int, p.len() as int),
                product,
            )
        } else if spec_has_prefix(p, "product:"@) {
            spec_scan_device_extras(
                parts,
                k + 1,
                model,
                p.subrange("product:"@.len() as int, p.len() as int),
            )
        } else {
            spec_scan_device_extras(parts, k + 1, model, product)
        }
    }
}

/// The device one listing line yields: serial and state from the first two
/// columns, model and product from the remaining `key:value` columns. A
/// blank line or one with fewer than two columns yields nothing.
pub open spec fn spec_device_line(line: Seq<char>) -> Option<
    (Seq<char>, Seq<char>, Seq<char>, Seq<char>),
> {
    let t = spec_trim(line);
    if t.len() == 0 {
        None
    } else {
        let parts = spec_split_ws(t);
        if parts.len() < 2 {
            None
        } else {
            let mp = spec_scan_device_extras(parts, 2, Seq::empty(), Seq::empty());
            Some((parts[0], parts[1], mp.0, mp.1))
        }
    }
}

/// The devices the listing lines from `i` on yield.
pub open spec fn spec_devices_from(lines: Seq<Seq<char>>, i: int) -> Seq<
    (Seq<char>, Seq<char>, Seq<char>, Seq<char>),
>
    decreases lines.len() - i,
{
    if i < 0 || i >= lines.len() {
        Seq::empty()
    } else {
        match spec_device_line(lines[i]) {
            Some(d) => seq![d] + spec_devices_from(lines, i + 1),
            None => spec_devices_from(lines, i + 1),
        }
    }
}

/// The devices a whole listing yields, its header line skipped.
pub open spec fn spec_parse_devices(s: Seq<char>) -> Seq<
    (Seq<char>, Seq<char>, Seq<char>, Seq<char>),
> {
    spec_devices_from(spec_lines(s), 1)
}

/// The views of a sequence of devices.
pub open spec fn device_views(ds: Seq<AdbDevice>) -> Seq<(Seq<char>, Seq<char>, Seq<char>, Seq<char>)> {
    ds.map_values(|d: AdbDevice| d@)
}

/// Parses device-listing output into the devices it reports.
#[verifier::loop_isolation(false)]
pub fn parse_devices_output(output: &str) -> (r: Vec<AdbDevice>)
    ensures
        device_views(r@) == spec_parse_devices(output@),
{
    let lines = split_lines(output);
    let mut devices: Vec<AdbDevice> = Vec::new();
    proof {
        assert(device_views(devices@) + spec_devices_from(spec_lines(output@), 1)
            =~= spec_devices_from(spec_lines(output@), 1));
    }
    let mut i: usize = 1;
    while i < lines.len()
        invariant
            1 <= i,
            spec_parse_devices(output@) == device_views(devices@) + spec_devices_from(
                spec_lines(output@),
                i as int,
            ),
        decreases lines@.len() - i,
    {
        let line = trim_str(lines[i].as_str());
        if line.unicode_len() != 0 {
            let parts = split_ws(line);
            if parts.len() >= 2 {
                let mut model = String::new();
                let mut product = String::new();
                let mut k: usize = 2;
                while k < parts.len()
                    invariant
                        2 <= k <= parts@.len(),
                        spec_scan_device_extras(parts.deep_view(), 2, Seq::empty(), Seq::empty())
                            == spec_scan_device_extras(
                            parts.deep_view(),
                            k as int,
                            model@,
                            product@,
                        ),
                    decreases parts@.len() - k,
                {
                    if let Some(val) = strip_prefix_str(parts[k].as_str(), "model:") {
                        model = val;
                    } else if let Some(val) = strip_prefix_str(parts[k].as_str(), "product:") {
                        product = val;
                    }
                    k += 1;
                }
                let dev = AdbDevice {
                    serial: parts[0].clone(),
                    state: parts[1].clone(),
                    model,
                    product,
                };
                let ghost prev = devices@;
                let ghost dv = dev@;
                devices.push(dev);
                proof {
                    assert(device_views(devices@) =~= device_views(prev).push(dv));
                    assert(device_views(prev).push(dv) + spec_devices_from(
                        spec_lines(output@),
                        i + 1,
                    ) =~= device_views(prev) + (seq![dv] + spec_devices_from(
                        spec_lines(output@),
                        i + 1,
                    )));
                }
            }
        }
        i += 1;
    }
    devices
}

/// The package one listing line yields: after the `package:` prefix, the
/// archive path before the last `=` and the package name after it; a
/// system app when the path begins with `/system`.
pub open spec fn spec_package_line(line: Seq<char>) -> Option<(Seq<char>, bool)> {
    let t = spec_trim(line);
    if !spec_has_prefix(t, "package:"@) {
        None
    } else {
        let rest = t.subrange("package:"@.len() as int, t.len() as int);
        let e = rfind_char(rest, '=');
        if e < 0 {
            None
        } else {
            let name = rest.subrange(e + 1, rest.len() as int);
            let path = rest.subrange(0, e);
            Some((name, spec_has_prefix(path, "/system"@)))
        }
    }
}

/// Parses one package-listing line into the package name and whether it is
/// a system app.
pub fn parse_package_line(line: &str) -> (r: Option<(String, bool)>)
    ensures
        match r {
            Some(p) => spec_package_line(line@) matches Some(q) && p.0@ == q.0 && p.1 == q.1,
            None => spec_package_line(line@) is None,
        },
{
    let t = trim_str(line);
    match strip_prefix_str(t, "package:") {
        Some(rest) => {
            match rfind_char_at(rest.as_str(), '=') {
                Some(e) => {
                    let n = rest.as_str().unicode_len();
                    let name = String::from_str(rest.as_str().substring_char(e + 1, n));
                    let path = rest.as_str().substring_char(0, e);
                    let sys = has_prefix(path, "/system");
                    Some((name, sys))
                },
                None => None,
            }
        },
        None => None,
    }
}

/// The packages the listing lines from `i` on yield.
pub open spec fn spec_packages_from(lines: Seq<Seq<char>>, i: int) -> Seq<(Seq<char>, bool)>
    decreases lines.len() - i,
{
    if i < 0 || i >= lines.len() {
        Seq::empty()
    } else {
        match spec_package_line(lines[i]) {
            Some(p) => seq![p] + spec_packages_from(lines, i + 1),
            None => spec_packages_from(lines, i + 1),
        }
    }
}

/// The packages a whole listing yields.
pub open spec fn spec_parse_packages(s: Seq<char>) -> Seq<(Seq<char>, bool)> {
    spec_packages_from(spec_lines(s), 0)
}

/// The views of a sequence of package entries.
pub open spec fn package_views(ps: Seq<(String, bool)>) -> Seq<(Seq<char>, bool)> {
    ps.map_values(|p: (String, bool)| (p.0@, p.1))
}

/// Parses package-listing output into package names, each with whether it
/// is a system app.
#[verifier::loop_isolation(false)]
pub fn parse_packages_output(output: &str) -> (r: Vec<(String, bool)>)
    ensures
        package_views(r@) == spec_parse_packages(output@),
{
    let lines = split_lines(output);
    let mut packages: Vec<(String, bool)> = Vec::new();
    proof {
        assert(package_views(packages@) + spec_packages_from(spec_lines(output@), 0)
            =~= spec_packages_from(spec_lines(output@), 0));
    }
    let mut i: usize = 0;
    while i < lines.len()
        invariant
            0 <= i,
            spec_parse_packages(output@) == package_views(packages@) + spec_packages_from(
                spec_lines(output@),
                i as int,
            ),
        decreases lines@.len() - i,
    {
        match parse_package_line(lines[i].as_str()) {
            Some(p) => {
                let ghost prev = packages@;
                let ghost pv = (p.0@, p.1);
                packages.push(p);
                proof {
                    assert(package_views(packages@) =~= package_views(prev).push(pv));
                    assert(package_views(prev).push(pv) + spec_packages_from(
                        spec_lines(output@),
                        i + 1,
                    ) =~= package_views(prev) + (seq![pv] + spec_packages_from(
                        spec_lines(output@),
                        i + 1,
                    )));
                }
            },
            None => {},
        }
        i += 1;
    }
    packages
}

/// The trimmed, non-empty lines from `i` on.
pub open spec fn spec_file_list_from(lines: Seq<Seq<char>>, i: int) -> Seq<Seq<char>>
    decreases lines.len() - i,
{
    if i < 0 || i >= lines.len() {
        Seq::empty()
    } else {
        let t = spec_trim(lines[i]);
        if t.len() == 0 {
            spec_file_list_from(lines, i + 1)
        } else {
            seq![t] + spec_file_list_from(lines, i + 1)
        }
    }
}

/// The entries a directory listing yields: each line trimmed, empty lines
/// dropped.
pub open spec fn spec_parse_file_list(s: Seq<char>) -> Seq<Seq<char>> {
    spec_file_list_from(spec_lines(s), 0)
}

/// Parses directory-listing output into its entries.
#[verifier::loop_isolation(false)]
pub fn parse_file_list(output: &str) -> (r: Vec<String>)
    ensures
        r.deep_view() == spec_parse_file_list(output@),
{
    let lines = split_lines(output);
    let mut files: Vec<String> = Vec::new();
    proof {
        assert(files.deep_view() + spec_file_list_from(spec_lines(output@), 0)
            =~= spec_file_list_from(spec_lines(output@), 0));
    }
    let mut i: usize = 0;
    while i < lines.len()
        invariant
            0 <= i,
            spec_parse_file_list(output@) == files.deep_view() + spec_file_list_from(
                spec_lines(output@),
                i as int,
            ),
        decreases lines@.len() - i,
    {
        let t = trim_str(lines[i].as_str());
        if t.unicode_len() != 0 {
            let ghost prev = files.deep_view();
            let ghost tv = t@;
            files.push(String::from_str(t));
            proof {
                assert(files.deep_view() =~= prev.push(tv));
                assert(prev.push(tv) + spec_file_list_from(spec_lines(output@), i + 1)
                    =~= prev + (seq![tv] + spec_file_list_from(spec_lines(output@), i + 1)));
            }
        }
        i += 1;
    }
    files
}

/// The first whitespace-separated token of `t`, or the empty string.
pub open spec fn spec_first_token(t: Seq<char>) -> Seq<char> {
    let toks = spec_split_ws(t);
    if toks.len() > 0 {
        toks[0]
    } else {
        Seq::empty()
    }
}

/// The version name and code the property lines from `i` on yield, given
/// what earlier lines already set: a `versionName=` line sets the name, a
/// `versionCode=` line sets the code to its first token, and the scan
/// stops once both are non-empty.
pub open spec fn spec_version_scan(
    lines: Seq<Seq<char>>,
    i: int,
    vn: Seq<char>,
    vc: Seq<char>,
) -> (Seq<char>, Seq<char>)
    decreases lines.len() - i,
{
    if i < 0 || i >= lines.len() {
        (vn, vc)
    } else {
        let t = spec_trim(lines[i]);
        let vn2 = if spec_has_prefix(t, "versionName="@) {
            t.subrange("versionName="@.len() as int, t.len() as int)
        } else {
            vn
        };
        let vc2 = if !spec_has_prefix(t, "versionName="@) && spec_has_prefix(
            t,
            "versionCode="@,
        ) {
            spec_first_token(t.subrange("versionCode="@.len() as int, t.len() as int))
        } else {
            vc
        };
        if vn2.len() > 0 && vc2.len() > 0 {
            (vn2, vc2)
        } else {
            spec_version_scan(lines, i + 1, vn2, vc2)
        }
    }
}

/// The version name and code package-property output yields.
pub open spec fn spec_parse_version(s: Seq<char>) -> (Seq<char>, Seq<char>) {
    spec_version_scan(spec_lines(s), 0, Seq::empty(), Seq::empty())
}

/// Extracts the version name and version code from package-property
/// output.
#[verifier::loop_isolation(false)]
pub fn parse_version_output(output: &str) -> (r: (String, String))
    ensures
        r.0@ == spec_parse_version(output@).0,
        r.1@ == spec_parse_version(output@).1,
{
    let lines = split_lines(output);
    let mut vn = String::new();
    let mut vc = String::new();
    let mut i: usize = 0;
    while i < lines.len()
        invariant
            0 <= i,
            spec_parse_version(output@) == spec_version_scan(
                spec_lines(output@),
                i as int,
                vn@,
                vc@,
            ),
        decreases lines@.len() - i,
    {
        let t = trim_str(lines[i].as_str());
        if let Some(rest) = strip_prefix_str(t, "versionName=") {
            vn = rest;
        } else if let Some(rest) = strip_prefix_str(t, "versionCode=") {
            let toks = split_ws(rest.as_str());
            if toks.len() > 0 {
                vc = toks[0].clone();
            } else {
                vc = String::new();
            }
        }
        if !vn.as_str().is_empty() && !vc.as_str().is_empty() {
            return (vn, vc);
        }
        i += 1;
    }
    (vn, vc)
}

} // verus!
