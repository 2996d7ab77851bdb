//! Dynamic risk scoring of a live process.
//!
//! The score adds points for each kind of evidence (static analysis, the
//! executable's location and name, its parent, its command line, its loaded
//! modules, its sockets and VirusTotal figures) and is capped at 100. Each
//! piece of evidence that counts also yields a human-readable indicator.

use vstd::prelude::*;
use vstd::string::*;
use crate::text::{
    chars_of, decimal, has_prefix, has_substring, join_strings, joined, lowercase, push_decimal,
    str_contains, str_eq, str_starts_with, to_lowercase, views,
};
use crate::types::{
    AnalysisReport, AnalysisReportView, LoadedModule, NetworkConnection, VtProcessReport,
};

verus! {

/// `x`, but no more than `c`.
pub open spec fn cap(x: int, c: int) -> int {
    if x < c { x } else { c }
}

/// The optional report as its content.
pub open spec fn report_view_of(st: Option<&AnalysisReport>) -> Option<AnalysisReportView> {
    match st {
        Some(a) => Some(a@),
        None => None,
    }
}

/// The optional string as its characters.
pub open spec fn opt_chars(s: Option<&str>) -> Option<Seq<char>> {
    match s {
        Some(x) => Some(x@),
        None => None,
    }
}

// ---------------------------------------------------------------------------
// Static analysis baseline

/// Indicator for a high static score.
pub open spec fn msg_high_static(score: u32) -> Seq<char> {
    "High static risk score ("@ + decimal(score as nat) + ")"@
}

/// `acc` extended by the items of `s` that are not already present, in order.
pub open spec fn with_unique(acc: Seq<Seq<char>>, s: Seq<Seq<char>>) -> Seq<Seq<char>>
    decreases s.len(),
{
    if s.len() == 0 {
        acc
    } else {
        let prev = with_unique(acc, s.drop_last());
        if prev.contains(s.last()) {
            prev
        } else {
            prev.push(s.last())
        }
    }
}

/// Points carried over from the static report: 40% of its score, rounded down.
pub open spec fn static_points(st: Option<AnalysisReportView>) -> int {
    match st {
        Some(a) => (2 * a.risk_score) / 5,
        None => 0,
    }
}

/// Indicators carried over from the static report.
pub open spec fn static_indicators(st: Option<AnalysisReportView>) -> Seq<Seq<char>> {
    match st {
        Some(a) => with_unique(
            if a.risk_score >= 70 { seq![msg_high_static(a.risk_score)] } else { seq![] },
            views(a.indicators),
        ),
        None => seq![],
    }
}

// ---------------------------------------------------------------------------
// Executable location, name and parent

/// A lowercased path lies in a temporary or user-writable directory.
pub open spec fn user_writable_location(lower: Seq<char>) -> bool {
    ||| has_substring(lower, "/tmp/"@)
    ||| has_substring(lower, "/var/tmp/"@)
    ||| has_substring(lower, "/dev/shm/"@)
    ||| has_substring(lower, "\\temp\\"@)
    ||| has_substring(lower, "\\appdata\\"@)
    ||| has_substring(lower, "\\users\\public\\"@)
}

/// A lowercased process name that belongs to a core Windows system process.
pub open spec fn system_process_name(lower_name: Seq<char>) -> bool {
    lower_name == "svchost.exe"@ || lower_name == "lsass.exe"@ || lower_name == "csrss.exe"@
}

/// A system process name running from outside System32.
pub open spec fn masquerading(lower_name: Seq<char>, lower_path: Seq<char>) -> bool {
    system_process_name(lower_name) && !has_substring(lower_path, "system32"@)
}

pub open spec fn msg_user_writable(path: Seq<char>) -> Seq<char> {
    "Process running from temporary/user-writable directory: "@ + path
}

pub open spec fn msg_masquerade(path: Seq<char>) -> Seq<char> {
    "System process masquerading outside System32: "@ + path
}

/// Points for the executable's location.
pub open spec fn path_points(lower_name: Seq<char>, lower_path: Option<Seq<char>>) -> int {
    match lower_path {
        Some(lp) => (if user_writable_location(lp) { 25int } else { 0int }) + (if masquerading(
            lower_name,
            lp,
        ) {
            35int
        } else {
            0int
        }),
        None => 0,
    }
}

/// Indicators for the executable's location.
pub open spec fn path_indicators(
    lower_name: Seq<char>,
    path: Option<Seq<char>>,
    lower_path: Option<Seq<char>>,
) -> Seq<Seq<char>> {
    match (path, lower_path) {
        (Some(p), Some(lp)) => (if user_writable_location(lp) {
            seq![msg_user_writable(p)]
        } else {
            seq![]
        }) + (if masquerading(lower_name, lp) {
            seq![msg_masquerade(p)]
        } else {
            seq![]
        }),
        _ => seq![],
    }
}

/// A lowercased name of a living-off-the-land binary.
pub open spec fn lolbin_name(lower_name: Seq<char>) -> bool {
    ||| lower_name == "powershell.exe"@
    ||| lower_name == "cmd.exe"@
    ||| lower_name == "wmic.exe"@
    ||| lower_name == "mshta.exe"@
    ||| lower_name == "rundll32.exe"@
    ||| lower_name == "regsvr32.exe"@
    ||| lower_name == "certutil.exe"@
    ||| lower_name == "bitsadmin.exe"@
    ||| lower_name == "bash"@
    ||| lower_name == "sh"@
}

/// A lowercased parent name of an office application or a web server.
pub open spec fn unexpected_parent(lower_parent: Seq<char>) -> bool {
    ||| has_substring(lower_parent, "winword"@)
    ||| has_substring(lower_parent, "excel"@)
    ||| has_substring(lower_parent, "outlook"@)
    ||| has_substring(lower_parent, "powerpnt"@)
    ||| has_substring(lower_parent, "httpd"@)
    ||| has_substring(lower_parent, "nginx"@)
}

/// A living-off-the-land binary spawned by an unexpected parent.
pub open spec fn lolbin_anomaly(lower_name: Seq<char>, lower_parent: Option<Seq<char>>) -> bool {
    lolbin_name(lower_name) && match lower_parent {
        Some(lp) => unexpected_parent(lp),
        None => false,
    }
}

pub open spec fn msg_lolbin(name: Seq<char>, parent: Seq<char>) -> Seq<char> {
    "LOLBin process '"@ + name + "' spawned by unexpected parent '"@ + parent + "'"@
}

pub open spec fn lolbin_points(lower_name: Seq<char>, lower_parent: Option<Seq<char>>) -> int {
    if lolbin_anomaly(lower_name, lower_parent) { 30 } else { 0 }
}

pub open spec fn lolbin_indicators(
    name: Seq<char>,
    lower_name: Seq<char>,
    parent: Option<Seq<char>>,
    lower_parent: Option<Seq<char>>,
) -> Seq<Seq<char>> {
    match parent {
        Some(p) => if lolbin_anomaly(lower_name, lower_parent) {
            seq![msg_lolbin(name, p)]
        } else {
            seq![]
        },
        None => seq![],
    }
}

// ---------------------------------------------------------------------------
// Command line

/// A lowercased command line that downloads or decodes a payload.
pub open spec fn suspicious_cmdline(lower_cmd: Seq<char>) -> bool {
    ||| has_substring(lower_cmd, "-enc"@)
    ||| has_substring(lower_cmd, "-encodedcommand"@)
    ||| has_substring(lower_cmd, "downloadstring"@)
    ||| has_substring(lower_cmd, "curl "@)
    ||| has_substring(lower_cmd, "wget "@)
    ||| has_substring(lower_cmd, "base64"@)
}

pub open spec fn msg_cmdline() -> Seq<char> {
    "Suspicious command-line arguments (download/encoded payload)"@
}

pub open spec fn cmdline_points(lower_cmd: Seq<char>) -> int {
    if suspicious_cmdline(lower_cmd) { 15 } else { 0 }
}

pub open spec fn cmdline_indicators(lower_cmd: Seq<char>) -> Seq<Seq<char>> {
    if suspicious_cmdline(lower_cmd) { seq![msg_cmdline()] } else { seq![] }
}

// ---------------------------------------------------------------------------
// Loaded modules

/// Number of modules loaded from a suspicious location.
pub open spec fn count_suspicious_modules(d: Seq<LoadedModule>) -> nat
    decreases d.len(),
{
    if d.len() == 0 {
        0
    } else {
        count_suspicious_modules(d.drop_last()) + if d.last().is_suspicious_location {
            1nat
        } else {
            0nat
        }
    }
}

/// Number of unsigned modules loaded from a system directory.
pub open spec fn count_unsigned_system_modules(d: Seq<LoadedModule>) -> nat
    decreases d.len(),
{
    if d.len() == 0 {
        0
    } else {
        count_unsigned_system_modules(d.drop_last()) + if d.last().is_unsigned_in_system_dir {
            1nat
        } else {
            0nat
        }
    }
}

pub open spec fn msg_unsigned_module(name: Seq<char>) -> Seq<char> {
    "Un-signed DLL loaded in system directory: "@ + name
}

pub open spec fn msg_suspicious_modules(n: nat) -> Seq<char> {
    decimal(n) + " loaded module(s) from suspicious directory"@
}

/// One indicator per unsigned system module, in load order.
pub open spec fn unsigned_module_indicators(d: Seq<LoadedModule>) -> Seq<Seq<char>>
    decreases d.len(),
{
    if d.len() == 0 {
        seq![]
    } else {
        unsigned_module_indicators(d.drop_last()) + if d.last().is_unsigned_in_system_dir {
            seq![msg_unsigned_module(d.last().name@)]
        } else {
            seq![]
        }
    }
}

/// Points for loaded modules: 15 per suspicious one (at most 30) and 20 per
/// unsigned system one (at most 40).
pub open spec fn module_points(d: Seq<LoadedModule>) -> int {
    cap(15 * count_suspicious_modules(d) as int, 30) + cap(20 * count_unsigned_system_modules(d) as int, 40)
}

pub open spec fn module_indicators(d: Seq<LoadedModule>) -> Seq<Seq<char>> {
    unsigned_module_indicators(d) + if count_suspicious_modules(d) > 0 {
        seq![msg_suspicious_modules(count_suspicious_modules(d))]
    } else {
        seq![]
    }
}

// ---------------------------------------------------------------------------
// Network

/// A remote IP that is neither unset, loopback nor the unspecified address.
pub open spec fn external_ip(ip: Seq<char>) -> bool {
    ip != "-"@ && !has_prefix(ip, "127."@) && ip != "0.0.0.0"@
}

/// Ports commonly used by backdoors and command-and-control servers.
pub open spec fn suspicious_port(p: u16) -> bool {
    p == 4444 || p == 1337 || p == 6667 || p == 8088 || p == 31337 || p == 5555 || p == 8443
        || p == 9001
}

/// VirusTotal flags the remote IP as malicious.
pub open spec fn flagged_ip(c: NetworkConnection) -> bool {
    match c.vt_reputation {
        Some(rep) => rep.malicious_votes > 0,
        None => false,
    }
}

pub open spec fn msg_suspicious_port(ip: Seq<char>, port: u16) -> Seq<char> {
    "Active connection to suspicious port: "@ + ip + ":"@ + decimal(port as nat)
}

pub open spec fn msg_flagged_ip(ip: Seq<char>, votes: u32) -> Seq<char> {
    "Connection to VirusTotal malicious IP: "@ + ip + " ("@ + decimal(votes as nat) + " flags)"@
}

pub open spec fn connection_points(c: NetworkConnection) -> int {
    if external_ip(c.remote_ip@) {
        (if suspicious_port(c.remote_port) { 20int } else { 0int }) + (if flagged_ip(c) {
            30int
        } else {
            0int
        })
    } else {
        0
    }
}

pub open spec fn connection_indicators(c: NetworkConnection) -> Seq<Seq<char>> {
    if external_ip(c.remote_ip@) {
        (if suspicious_port(c.remote_port) {
            seq![msg_suspicious_port(c.remote_ip@, c.remote_port)]
        } else {
            seq![]
        }) + match c.vt_reputation {
            Some(rep) => if rep.malicious_votes > 0 {
                seq![msg_flagged_ip(c.remote_ip@, rep.malicious_votes)]
            } else {
                seq![]
            },
            None => seq![],
        }
    } else {
        seq![]
    }
}

pub open spec fn count_external(cs: Seq<NetworkConnection>) -> nat
    decreases cs.len(),
{
    if cs.len() == 0 {
        0
    } else {
        count_external(cs.drop_last()) + if external_ip(cs.last().remote_ip@) {
            1nat
        } else {
            0nat
        }
    }
}

pub open spec fn sum_connection_points(cs: Seq<NetworkConnection>) -> int
    decreases cs.len(),
{
    if cs.len() == 0 {
        0
    } else {
        sum_connection_points(cs.drop_last()) + connection_points(cs.last())
    }
}

pub open spec fn network_indicators(cs: Seq<NetworkConnection>) -> Seq<Seq<char>>
    decreases cs.len(),
{
    if cs.len() == 0 {
        seq![]
    } else {
        network_indicators(cs.drop_last()) + connection_indicators(cs.last())
    }
}

/// Points for sockets: per-connection points plus 3 per external connection
/// (at most 15).
pub open spec fn network_points(cs: Seq<NetworkConnection>) -> int {
    sum_connection_points(cs) + cap(3 * count_external(cs) as int, 15)
}

// ---------------------------------------------------------------------------
// VirusTotal

pub open spec fn msg_vt_exe(pos: u32, total: u32) -> Seq<char> {
    "Executable flagged by VirusTotal: "@ + decimal(pos as nat) + "/"@ + decimal(total as nat)
        + " engines"@
}

pub open spec fn msg_vt_dlls(n: u32) -> Seq<char> {
    decimal(n as nat) + " loaded DLL(s) flagged by VirusTotal"@
}

pub open spec fn vt_points(vt: Option<VtProcessReport>) -> int {
    match vt {
        Some(v) => (if v.exe_positives > 0 {
            cap(5 * v.exe_positives, 50)
        } else {
            0
        }) + (if v.malicious_dll_count > 0 {
            cap(20 * v.malicious_dll_count, 40)
        } else {
            0
        }),
        None => 0,
    }
}

pub open spec fn vt_indicators(vt: Option<VtProcessReport>) -> Seq<Seq<char>> {
    match vt {
        Some(v) => (if v.exe_positives > 0 {
            seq![msg_vt_exe(v.exe_positives, v.exe_total)]
        } else {
            seq![]
        }) + (if v.malicious_dll_count > 0 {
            seq![msg_vt_dlls(v.malicious_dll_count)]
        } else {
            seq![]
        }),
        None => seq![],
    }
}

// ---------------------------------------------------------------------------
// The whole assessment, over already-lowercased text

/// The evidence of one process, with the lowercased forms of its name, path,
/// command line and parent name.
pub struct RiskEvidence {
    pub name: Seq<char>,
    pub lower_name: Seq<char>,
    pub path: Option<Seq<char>>,
    pub lower_path: Option<Seq<char>>,
    pub lower_cmdline: Seq<char>,
    pub parent: Option<Seq<char>>,
    pub lower_parent: Option<Seq<char>>,
    pub modules: Seq<LoadedModule>,
    pub connections: Seq<NetworkConnection>,
    pub static_report: Option<AnalysisReportView>,
    pub vt: Option<VtProcessReport>,
}

/// All points before the cap.
pub open spec fn raw_points(e: RiskEvidence) -> int {
    static_points(e.static_report) + path_points(e.lower_name, e.lower_path) + lolbin_points(
        e.lower_name,
        e.lower_parent,
    ) + cmdline_points(e.lower_cmdline) + module_points(e.modules) + network_points(
        e.connections,
    ) + vt_points(e.vt)
}

/// The risk score: all points, capped at 100.
pub open spec fn risk_score_of(e: RiskEvidence) -> int {
    cap(raw_points(e), 100)
}

/// The risk level that a score falls in.
pub open spec fn risk_level_text(score: int) -> Seq<char> {
    if score >= 75 {
        "HIGH RISK"@
    } else if score >= 45 {
        "NEEDS REVIEW"@
    } else {
        "LOW"@
    }
}

/// All indicators, in the order in which the evidence is examined.
pub open spec fn risk_indicators(e: RiskEvidence) -> Seq<Seq<char>> {
    static_indicators(e.static_report) + path_indicators(e.lower_name, e.path, e.lower_path)
        + lolbin_indicators(e.name, e.lower_name, e.parent, e.lower_parent) + cmdline_indicators(
        e.lower_cmdline,
    ) + module_indicators(e.modules) + network_indicators(e.connections) + vt_indicators(e.vt)
}

// ---------------------------------------------------------------------------
// Executable parts

/// A string made of the characters of `s`.
fn owned(s: &str) -> (r: String)
    ensures
        r@ == s@,
{
    String::from_str(s)
}

/// Whether `v` holds a string with the same characters as `s`.
fn holds_text(v: &Vec<String>, s: &str) -> (r: bool)
    ensures
        r == views(v@).contains(s@),
{
    let mut i: usize = 0;
    while i < v.len()
        invariant
            i <= v@.len(),
            forall|k: int| 0 <= k < i ==> v@[k]@ != s@,
        decreases v@.len() - i,
    {
        if str_eq(v[i].as_str(), s) {
            assert(views(v@)[i as int] == s@);
            return true;
        }
        i += 1;
    }
    assert forall|k: int| 0 <= k < views(v@).len() implies views(v@)[k] != s@ by {
        assert(views(v@)[k] == v@[k]@);
    }
    false
}

/// Points and indicators carried over from a static report.
fn static_section(st: Option<&AnalysisReport>) -> (r: (u64, Vec<String>))
    ensures
        r.0 == static_points(report_view_of(st)),
        views(r.1@) == static_indicators(report_view_of(st)),
{
    let mut out: Vec<String> = Vec::new();
    match st {
        None => {
            assert(views(out@) =~= seq![]);
            (0, out)
        },
        Some(a) => {
            let pts = (2 * (a.risk_score as u64)) / 5;
            if a.risk_score >= 70 {
                let mut m = owned("High static risk score (");
                push_decimal(&mut m, a.risk_score as u64);
                m.append(")");
                out.push(m);
            }
            let ghost init = views(out@);
            assert(init =~= if a.risk_score >= 70 {
                seq![msg_high_static(a.risk_score)]
            } else {
                seq![]
            });
            let ghost src = views(a.indicators@);
            let mut i: usize = 0;
            while i < a.indicators.len()
                invariant
                    i <= a.indicators@.len(),
                    src == views(a.indicators@),
                    views(out@) == with_unique(init, src.take(i as int)),
                decreases a.indicators@.len() - i,
            {
                assert(src.take(i + 1).drop_last() =~= src.take(i as int));
                assert(src.take(i + 1).last() == a.indicators@[i as int]@);
                let ind = &a.indicators[i];
                let ghost prev = views(out@);
                if !holds_text(&out, ind.as_str()) {
                    out.push(ind.clone());
                    assert(views(out@) =~= prev.push(ind@));
                }
                i += 1;
            }
            assert(src.take(a.indicators@.len() as int) =~= src);
            (pts, out)
        },
    }
}

/// Whether a lowercased path lies in a temporary or user-writable directory.
pub fn in_user_writable_location(lower: &str) -> (r: bool)
    ensures
        r == user_writable_location(lower@),
{
    str_contains(lower, "/tmp/") || str_contains(lower, "/var/tmp/") || str_contains(
        lower,
        "/dev/shm/",
    ) || str_contains(lower, "\\temp\\") || str_contains(lower, "\\appdata\\") || str_contains(
        lower,
        "\\users\\public\\",
    )
}

fn is_system_process_name(lower_name: &str) -> (r: bool)
    ensures
        r == system_process_name(lower_name@),
{
    str_eq(lower_name, "svchost.exe") || str_eq(lower_name, "lsass.exe") || str_eq(
        lower_name,
        "csrss.exe",
    )
}

/// Points and indicators for the executable's location.
fn path_section(lower_name: &str, path: Option<&str>, lower_path: Option<&str>) -> (r: (
    u64,
    Vec<String>,
))
    requires
        path.is_some() == lower_path.is_some(),
    ensures
        r.0 == path_points(lower_name@, opt_chars(lower_path)),
        views(r.1@) == path_indicators(lower_name@, opt_chars(path), opt_chars(lower_path)),
{
    let mut out: Vec<String> = Vec::new();
    let mut pts: u64 = 0;
    match (path, lower_path) {
        (Some(p), Some(lp)) => {
            let writable = in_user_writable_location(lp);
            if writable {
                pts = pts + 25;
                let mut m = owned("Process running from temporary/user-writable directory: ");
                m.append(p);
                out.push(m);
            }
            let masq = is_system_process_name(lower_name) && !str_contains(lp, "system32");
            if masq {
                pts = pts + 35;
                let mut m = owned("System process masquerading outside System32: ");
                m.append(p);
                out.push(m);
            }
            assert(views(out@) =~= path_indicators(lower_name@, opt_chars(path), opt_chars(lower_path)));
        },
        _ => {
            assert(views(out@) =~= seq![]);
        },
    }
    (pts, out)
}

fn is_lolbin_name(lower_name: &str) -> (r: bool)
    ensures
        r == lolbin_name(lower_name@),
{
    str_eq(lower_name, "powershell.exe") || str_eq(lower_name, "cmd.exe") || str_eq(
        lower_name,
        "wmic.exe",
    ) || str_eq(lower_name, "mshta.exe") || str_eq(lower_name, "rundll32.exe") || str_eq(
        lower_name,
        "regsvr32.exe",
    ) || str_eq(lower_name, "certutil.exe") || str_eq(lower_name, "bitsadmin.exe") || str_eq(
        lower_name,
        "bash",
    ) || str_eq(lower_name, "sh")
}

fn is_unexpected_parent(lower_parent: &str) -> (r: bool)
    ensures
        r == unexpected_parent(lower_parent@),
{
    str_contains(lower_parent, "winword") || str_contains(lower_parent, "excel") || str_contains(
        lower_parent,
        "outlook",
    ) || str_contains(lower_parent, "powerpnt") || str_contains(lower_parent, "httpd")
        || str_contains(lower_parent, "nginx")
}

/// Points and indicators for a living-off-the-land binary and its parent.
fn lolbin_section(
    name: &str,
    lower_name: &str,
    parent: Option<&str>,
    lower_parent: Option<&str>,
) -> (r: (u64, Vec<String>))
    requires
        parent.is_some() == lower_parent.is_some(),
    ensures
        r.0 == lolbin_points(lower_name@, opt_chars(lower_parent)),
        views(r.1@) == lolbin_indicators(
            name@,
            lower_name@,
            opt_chars(parent),
            opt_chars(lower_parent),
        ),
{
    let mut out: Vec<String> = Vec::new();
    let mut pts: u64 = 0;
    if is_lolbin_name(lower_name) {
        match (parent, lower_parent) {
            (Some(p), Some(lp)) => {
                if is_unexpected_parent(lp) {
                    pts = 30;
                    let mut m = owned("LOLBin process '");
                    m.append(name);
                    m.append("' spawned by unexpected parent '");
                    m.append(p);
                    m.append("'");
                    out.push(m);
                }
            },
            _ => {},
        }
    }
    assert(views(out@) =~= lolbin_indicators(
        name@,
        lower_name@,
        opt_chars(parent),
        opt_chars(lower_parent),
    ));
    (pts, out)
}

/// Points and indicators for the command line.
fn cmdline_section(lower_cmd: &str) -> (r: (u64, Vec<String>))
    ensures
        r.0 == cmdline_points(lower_cmd@),
        views(r.1@) == cmdline_indicators(lower_cmd@),
{
    let mut out: Vec<String> = Vec::new();
    let hit = str_contains(lower_cmd, "-enc") || str_contains(lower_cmd, "-encodedcommand")
        || str_contains(lower_cmd, "downloadstring") || str_contains(lower_cmd, "curl ")
        || str_contains(lower_cmd, "wget ") || str_contains(lower_cmd, "base64");
    if hit {
        out.push(owned("Suspicious command-line arguments (download/encoded payload)"));
        assert(views(out@) =~= cmdline_indicators(lower_cmd@));
        (15, out)
    } else {
        assert(views(out@) =~= cmdline_indicators(lower_cmd@));
        (0, out)
    }
}

/// Points and indicators for the loaded modules.
fn module_section(dlls: &[LoadedModule]) -> (r: (u64, Vec<String>))
    ensures
        r.0 == module_points(dlls@),
        views(r.1@) == module_indicators(dlls@),
{
    let mut out: Vec<String> = Vec::new();
    let mut susp: u64 = 0;
    let mut unsigned: u64 = 0;
    let mut i: usize = 0;
    while i < dlls.len()
        invariant
            i <= dlls@.len(),
            susp == count_suspicious_modules(dlls@.take(i as int)),
            unsigned == count_unsigned_system_modules(dlls@.take(i as int)),
            susp <= i,
            unsigned <= i,
            views(out@) == unsigned_module_indicators(dlls@.take(i as int)),
        decreases dlls@.len() - i,
    {
        assert(dlls@.take(i + 1).drop_last() =~= dlls@.take(i as int));
        let d = &dlls[i];
        if d.is_suspicious_location {
            susp = susp + 1;
        }
        if d.is_unsigned_in_system_dir {
            unsigned = unsigned + 1;
            let ghost prev = views(out@);
            let mut m = owned("Un-signed DLL loaded in system directory: ");
            m.append(d.name.as_str());
            out.push(m);
            assert(views(out@) =~= prev.push(msg_unsigned_module(d.name@)));
        }
        assert(views(out@) =~= unsigned_module_indicators(dlls@.take(i + 1)));
        i += 1;
    }
    assert(dlls@.take(dlls@.len() as int) =~= dlls@);
    let mut pts: u64 = 0;
    if susp > 0 {
        pts = if susp >= 2 { 30 } else { 15 };
        let ghost prev = views(out@);
        let mut m = String::new();
        push_decimal(&mut m, susp);
        m.append(" loaded module(s) from suspicious directory");
        out.push(m);
        assert(views(out@) =~= prev.push(msg_suspicious_modules(susp as nat)));
    }
    if unsigned > 0 {
        pts = pts + if unsigned >= 2 { 40 } else { 20 };
    }
    assert(views(out@) =~= module_indicators(dlls@));
    (pts, out)
}

fn is_suspicious_port(p: u16) -> (r: bool)
    ensures
        r == suspicious_port(p),
{
    p == 4444 || p == 1337 || p == 6667 || p == 8088 || p == 31337 || p == 5555 || p == 8443 || p
        == 9001
}

/// Whether a remote IP is neither unset, loopback nor the unspecified address.
pub fn is_external_ip(ip: &str) -> (r: bool)
    ensures
        r == external_ip(ip@),
{
    !str_eq(ip, "-") && !str_starts_with(ip, "127.") && !str_eq(ip, "0.0.0.0")
}

/// Points and indicators for the sockets.
fn network_section(conns: &[NetworkConnection]) -> (r: (u128, Vec<String>))
    ensures
        r.0 == network_points(conns@),
        r.0 <= 50 * conns@.len() + 15,
        views(r.1@) == network_indicators(conns@),
{
    let mut out: Vec<String> = Vec::new();
    let mut pts: u128 = 0;
    let mut external: u64 = 0;
    let mut i: usize = 0;
    while i < conns.len()
        invariant
            i <= conns@.len(),
            pts == sum_connection_points(conns@.take(i as int)),
            external == count_external(conns@.take(i as int)),
            pts <= 50 * i,
            external <= i,
            views(out@) == network_indicators(conns@.take(i as int)),
        decreases conns@.len() - i,
    {
        assert(conns@.take(i + 1).drop_last() =~= conns@.take(i as int));
        let c = &conns[i];
        let ghost prev = views(out@);
        if is_external_ip(c.remote_ip.as_str()) {
            external = external + 1;
            if is_suspicious_port(c.remote_port) {
                pts = pts + 20;
                let mut m = owned("Active connection to suspicious port: ");
                m.append(c.remote_ip.as_str());
                m.append(":");
                push_decimal(&mut m, c.remote_port as u64);
                out.push(m);
            }
            match &c.vt_reputation {
                Some(rep) => {
                    if rep.malicious_votes > 0 {
                        pts = pts + 30;
                        let mut m = owned("Connection to VirusTotal malicious IP: ");
                        m.append(c.remote_ip.as_str());
                        m.append(" (");
                        push_decimal(&mut m, rep.malicious_votes as u64);
                        m.append(" flags)");
                        out.push(m);
                    }
                },
                None => {},
            }
        }
        assert(views(out@) =~= prev + connection_indicators(conns@[i as int]));
        i += 1;
    }
    assert(conns@.take(conns@.len() as int) =~= conns@);
    let extra: u128 = if external >= 5 { 15 } else { 3 * (external as u128) };
    (pts + extra, out)
}

/// Points and indicators for VirusTotal figures.
fn vt_section(vt: Option<&VtProcessReport>) -> (r: (u64, Vec<String>))
    ensures
        r.0 == vt_points(match vt { Some(v) => Some(*v), None => None }),
        views(r.1@) == vt_indicators(match vt { Some(v) => Some(*v), None => None }),
{
    let mut out: Vec<String> = Vec::new();
    let mut pts: u64 = 0;
    match vt {
        Some(v) => {
            if v.exe_positives > 0 {
                pts = if v.exe_positives >= 10 { 50 } else { 5 * (v.exe_positives as u64) };
                let mut m = owned("Executable flagged by VirusTotal: ");
                push_decimal(&mut m, v.exe_positives as u64);
                m.append("/");
                push_decimal(&mut m, v.exe_total as u64);
                m.append(" engines");
                out.push(m);
            }
            if v.malicious_dll_count > 0 {
                pts = pts + if v.malicious_dll_count >= 2 { 40 } else { 20 };
                let mut m = String::new();
                push_decimal(&mut m, v.malicious_dll_count as u64);
                m.append(" loaded DLL(s) flagged by VirusTotal");
                out.push(m);
            }
        },
        None => {},
    }
    assert(views(out@) =~= vt_indicators(match vt { Some(v) => Some(*v), None => None }));
    (pts, out)
}

/// The evidence of a process, given its lowercased name, path, command line
/// and parent name.
pub open spec fn evidence_of(
    name: &str,
    lower_name: &str,
    exe_path: Option<&str>,
    lower_exe_path: Option<&str>,
    lower_cmdline: &str,
    parent_name: Option<&str>,
    lower_parent_name: Option<&str>,
    loaded_dlls: &[LoadedModule],
    network_connections: &[NetworkConnection],
    static_report: Option<&AnalysisReport>,
    vt_report: Option<&VtProcessReport>,
) -> RiskEvidence {
    RiskEvidence {
        name: name@,
        lower_name: lower_name@,
        path: opt_chars(exe_path),
        lower_path: opt_chars(lower_exe_path),
        lower_cmdline: lower_cmdline@,
        parent: opt_chars(parent_name),
        lower_parent: opt_chars(lower_parent_name),
        modules: loaded_dlls@,
        connections: network_connections@,
        static_report: report_view_of(static_report),
        vt: match vt_report {
            Some(v) => Some(*v),
            None => None,
        },
    }
}

/// The risk level that a score falls in.
pub fn risk_level_for(score: u32) -> (r: String)
    ensures
        r@ == risk_level_text(score as int),
{
    if score >= 75 {
        owned("HIGH RISK")
    } else if score >= 45 {
        owned("NEEDS REVIEW")
    } else {
        owned("LOW")
    }
}

proof fn lemma_views_append(a: Seq<String>, b: Seq<String>)
    ensures
        views(a + b) == views(a) + views(b),
{
    assert(views(a + b) =~= views(a) + views(b));
}

/// Scores a process whose name, path, command line and parent name have
/// already been lowercased; returns the score, its risk level and the
/// indicators.
pub fn assess_lowercased(
    name: &str,
    lower_name: &str,
    exe_path: Option<&str>,
    lower_exe_path: Option<&str>,
    lower_cmdline: &str,
    parent_name: Option<&str>,
    lower_parent_name: Option<&str>,
    loaded_dlls: &[LoadedModule],
    network_connections: &[NetworkConnection],
    static_report: Option<&AnalysisReport>,
    vt_report: Option<&VtProcessReport>,
) -> (r: (u32, String, Vec<String>))
    requires
        exe_path.is_some() == lower_exe_path.is_some(),
        parent_name.is_some() == lower_parent_name.is_some(),
    ensures
        ({
            let e = evidence_of(
                name,
                lower_name,
                exe_path,
                lower_exe_path,
                lower_cmdline,
                parent_name,
                lower_parent_name,
                loaded_dlls,
                network_connections,
                static_report,
                vt_report,
            );
            &&& r.0 == risk_score_of(e)
            &&& r.1@ == risk_level_text(r.0 as int)
            &&& views(r.2@) == risk_indicators(e)
        }),
{
    let (p1, mut v1) = static_section(static_report);
    let (p2, mut v2) = path_section(lower_name, exe_path, lower_exe_path);
    let (p3, mut v3) = lolbin_section(name, lower_name, parent_name, lower_parent_name);
    let (p4, mut v4) = cmdline_section(lower_cmdline);
    let (p5, mut v5) = module_section(loaded_dlls);
    let (p6, mut v6) = network_section(network_connections);
    let (p7, mut v7) = vt_section(vt_report);
    let ghost (w1, w2, w3, w4, w5, w6, w7) = (v1@, v2@, v3@, v4@, v5@, v6@, v7@);
    let n_conns = network_connections.len();
    assert(p6 <= 50 * (n_conns as u128) + 15);
    let total: u128 = p1 as u128 + p2 as u128 + p3 as u128 + p4 as u128 + p5 as u128 + p6
        + p7 as u128;
    let score: u32 = if total > 100 { 100 } else { total as u32 };
    let mut out = v1;
    out.append(&mut v2);
    out.append(&mut v3);
    out.append(&mut v4);
    out.append(&mut v5);
    out.append(&mut v6);
    out.append(&mut v7);
    proof {
        lemma_views_append(w1, w2);
        lemma_views_append(w1 + w2, w3);
        lemma_views_append(w1 + w2 + w3, w4);
        lemma_views_append(w1 + w2 + w3 + w4, w5);
        lemma_views_append(w1 + w2 + w3 + w4 + w5, w6);
        lemma_views_append(w1 + w2 + w3 + w4 + w5 + w6, w7);
        assert(out@ =~= w1 + w2 + w3 + w4 + w5 + w6 + w7);
    }
    let level = risk_level_for(score);
    (score, level, out)
}

fn lowercase_opt(s: Option<&str>) -> (r: Option<String>)
    ensures
        r.is_some() == s.is_some(),
        s matches Some(x) ==> r.unwrap()@ == lowercase(x@),
{
    match s {
        Some(x) => Some(to_lowercase(x)),
        None => None,
    }
}

fn as_str_opt(s: &Option<String>) -> (r: Option<&str>)
    ensures
        r.is_some() == s.is_some(),
        s.is_some() ==> r.unwrap()@ == s.unwrap()@,
{
    match s {
        Some(x) => Some(x.as_str()),
        None => None,
    }
}

/// The lowercased form of an optional string.
pub open spec fn opt_lowercase(s: Option<&str>) -> Option<Seq<char>> {
    match s {
        Some(x) => Some(lowercase(x@)),
        None => None,
    }
}

/// The evidence of a process as the scorer sees it: its name, path and
/// parent name lowercased, and its command line joined with spaces and
/// lowercased.
pub open spec fn live_evidence(
    name: Seq<char>,
    exe_path: Option<Seq<char>>,
    cmdline: Seq<String>,
    parent_name: Option<Seq<char>>,
    loaded_dlls: Seq<LoadedModule>,
    network_connections: Seq<NetworkConnection>,
    static_report: Option<AnalysisReportView>,
    vt_report: Option<VtProcessReport>,
) -> RiskEvidence {
    RiskEvidence {
        name,
        lower_name: lowercase(name),
        path: exe_path,
        lower_path: match exe_path {
            Some(p) => Some(lowercase(p)),
            None => None,
        },
        lower_cmdline: lowercase(joined(views(cmdline), " "@)),
        parent: parent_name,
        lower_parent: match parent_name {
            Some(p) => Some(lowercase(p)),
            None => None,
        },
        modules: loaded_dlls,
        connections: network_connections,
        static_report,
        vt: vt_report,
    }
}

/// Scores a live process from everything the scan learned about it; returns
/// the score (0 to 100), its risk level and the indicators that explain it.
pub fn calculate_live_risk_score(
    name: &str,
    exe_path: Option<&str>,
    cmdline: &[String],
    parent_name: Option<&str>,
    loaded_dlls: &[LoadedModule],
    network_connections: &[NetworkConnection],
    static_report: Option<&AnalysisReport>,
    vt_report: Option<&VtProcessReport>,
) -> (r: (u32, String, Vec<String>))
    ensures
        ({
            let e = live_evidence(
                name@,
                opt_chars(exe_path),
                cmdline@,
                opt_chars(parent_name),
                loaded_dlls@,
                network_connections@,
                report_view_of(static_report),
                match vt_report {
                    Some(v) => Some(*v),
                    None => None,
                },
            );
            &&& r.0 == risk_score_of(e)
            &&& r.1@ == risk_level_text(r.0 as int)
            &&& views(r.2@) == risk_indicators(e)
        }),
{
    let lower_name = to_lowercase(name);
    let lower_path = lowercase_opt(exe_path);
    let full_cmd = join_strings(cmdline, " ");
    let lower_cmd = to_lowercase(full_cmd.as_str());
    let lower_parent = lowercase_opt(parent_name);
    let lp = as_str_opt(&lower_path);
    let lpar = as_str_opt(&lower_parent);
    let r = assess_lowercased(
        name,
        lower_name.as_str(),
        exe_path,
        lp,
        lower_cmd.as_str(),
        parent_name,
        lpar,
        loaded_dlls,
        network_connections,
        static_report,
        vt_report,
    );
    assert(opt_chars(lp) == opt_lowercase(exe_path));
    assert(opt_chars(lpar) == opt_lowercase(parent_name));
    r
}

// ---------------------------------------------------------------------------
// Laws

proof fn lemma_connection_points_nonneg(cs: Seq<NetworkConnection>)
    ensures
        sum_connection_points(cs) >= 0,
    decreases cs.len(),
{
    if cs.len() > 0 {
        lemma_connection_points_nonneg(cs.drop_last());
    }
}

/// The risk score of any evidence lies between 0 and 100.
pub proof fn lemma_risk_score_in_range(e: RiskEvidence)
    ensures
        0 <= risk_score_of(e) <= 100,
{
    lemma_connection_points_nonneg(e.connections);
}

/// The static report's indicators are carried over without repetition: each
/// one appears in the live indicators, and none appears twice.
pub proof fn lemma_static_indicators_unique(acc: Seq<Seq<char>>, s: Seq<Seq<char>>)
    requires
        acc.no_duplicates(),
    ensures
        with_unique(acc, s).no_duplicates(),
        forall|x: Seq<char>| s.contains(x) ==> #[trigger] with_unique(acc, s).contains(x),
        forall|x: Seq<char>| acc.contains(x) ==> #[trigger] with_unique(acc, s).contains(x),
    decreases s.len(),
{
    if s.len() > 0 {
        lemma_static_indicators_unique(acc, s.drop_last());
        let prev = with_unique(acc, s.drop_last());
        let cur = with_unique(acc, s);
        if !prev.contains(s.last()) {
            assert forall|p: int, q: int| 0 <= p < cur.len() && 0 <= q < cur.len() && p != q
                implies cur[p] != cur[q] by {
                if p == prev.len() as int {
                    assert(prev.contains(cur[q]));
                } else if q == prev.len() as int {
                    assert(prev.contains(cur[p]));
                }
            }
        }
        assert forall|x: Seq<char>| s.contains(x) implies #[trigger] cur.contains(x) by {
            let k = choose|k: int| 0 <= k < s.len() && s[k] == x;
            if k < s.len() - 1 {
                assert(s.drop_last()[k] == x);
                assert(prev.contains(x));
                if !prev.contains(s.last()) {
                    let j = choose|j: int| 0 <= j < prev.len() && prev[j] == x;
                    assert(cur[j] == x);
                }
            } else {
                if !prev.contains(s.last()) {
                    assert(cur[prev.len() as int] == x);
                }
            }
        }
        assert forall|x: Seq<char>| acc.contains(x) implies #[trigger] cur.contains(x) by {
            assert(prev.contains(x));
            if !prev.contains(s.last()) {
                let j = choose|j: int| 0 <= j < prev.len() && prev[j] == x;
                assert(cur[j] == x);
            }
        }
    }
}

/// An optional text, lowercased.
pub open spec fn lowered(s: Option<Seq<char>>) -> Option<Seq<char>> {
    match s {
        Some(p) => Some(lowercase(p)),
        None => None,
    }
}

/// Lowercasing a second time leaves the text as it is.
pub open spec fn lowercase_settled(s: Seq<char>) -> bool {
    lowercase(lowercase(s)) == lowercase(s)
}

/// The score and the level do not depend on the letter case of the name,
/// the path or the parent name: scoring their lowercased forms gives the same
/// score and level, for texts that a second lowercasing leaves unchanged.
pub proof fn lemma_score_ignores_letter_case(
    name: Seq<char>,
    exe_path: Option<Seq<char>>,
    cmdline: Seq<String>,
    parent_name: Option<Seq<char>>,
    loaded_dlls: Seq<LoadedModule>,
    network_connections: Seq<NetworkConnection>,
    static_report: Option<AnalysisReportView>,
    vt_report: Option<VtProcessReport>,
)
    ensures
        ({
            let settled = lowercase_settled(name) && (exe_path matches Some(p) ==> lowercase_settled(p))
                && (parent_name matches Some(p) ==> lowercase_settled(p));
            let e = live_evidence(
                name,
                exe_path,
                cmdline,
                parent_name,
                loaded_dlls,
                network_connections,
                static_report,
                vt_report,
            );
            let l = live_evidence(
                lowercase(name),
                lowered(exe_path),
                cmdline,
                lowered(parent_name),
                loaded_dlls,
                network_connections,
                static_report,
                vt_report,
            );
            settled ==> risk_score_of(l) == risk_score_of(e) && risk_level_text(risk_score_of(l))
                == risk_level_text(risk_score_of(e))
        }),
{
}

/// The score and the level depend on the name, the path and the parent name
/// only through their lowercased forms: two processes whose names, paths and
/// parent names lowercase alike, and whose other evidence is the same, get
/// the same score and level.
pub proof fn lemma_score_sees_only_lowercase(
    name: Seq<char>,
    other_name: Seq<char>,
    exe_path: Option<Seq<char>>,
    other_exe_path: Option<Seq<char>>,
    cmdline: Seq<String>,
    parent_name: Option<Seq<char>>,
    other_parent_name: Option<Seq<char>>,
    loaded_dlls: Seq<LoadedModule>,
    network_connections: Seq<NetworkConnection>,
    static_report: Option<AnalysisReportView>,
    vt_report: Option<VtProcessReport>,
)
    ensures
        ({
            let e = live_evidence(
                name,
                exe_path,
                cmdline,
                parent_name,
                loaded_dlls,
                network_connections,
                static_report,
                vt_report,
            );
            let o = live_evidence(
                other_name,
                other_exe_path,
                cmdline,
                other_parent_name,
                loaded_dlls,
                network_connections,
                static_report,
                vt_report,
            );
            (lowercase(name) == lowercase(other_name) && lowered(exe_path) == lowered(other_exe_path)
                && lowered(parent_name) == lowered(other_parent_name)) ==> risk_score_of(o)
                == risk_score_of(e) && risk_level_text(risk_score_of(o)) == risk_level_text(
                risk_score_of(e),
            )
        }),
{
}

/// The lowercased name of one of the living-off-the-land binaries:
/// powershell.exe, cmd.exe, wmic.exe, mshta.exe, rundll32.exe, regsvr32.exe,
/// certutil.exe, bitsadmin.exe, bash or sh.
pub open spec fn known_lolbin(n: Seq<char>) -> bool {
    n == "powershell.exe"@ || n == "cmd.exe"@ || n == "wmic.exe"@ || n == "mshta.exe"@ || n
        == "rundll32.exe"@ || n == "regsvr32.exe"@ || n == "certutil.exe"@ || n == "bitsadmin.exe"@
        || n == "bash"@ || n == "sh"@
}

/// A lowercased parent name that names an office application or a web
/// server: it contains winword, excel, outlook, powerpnt, httpd or nginx.
pub open spec fn office_or_web_parent(p: Seq<char>) -> bool {
    has_substring(p, "winword"@) || has_substring(p, "excel"@) || has_substring(p, "outlook"@)
        || has_substring(p, "powerpnt"@) || has_substring(p, "httpd"@) || has_substring(p, "nginx"@)
}

/// The same evidence with no parent process.
pub open spec fn without_parent(e: RiskEvidence) -> RiskEvidence {
    RiskEvidence { parent: None, lower_parent: None, ..e }
}

/// A living-off-the-land binary spawned by an office application or a web
/// server scores 30 points more than the same process without a parent (up
/// to the cap of 100) and carries the LOLBin indicator naming both.
pub proof fn lemma_lolbin_under_office_parent(e: RiskEvidence, parent: Seq<char>, lower_parent: Seq<char>)
    requires
        known_lolbin(e.lower_name),
        e.parent == Some(parent),
        e.lower_parent == Some(lower_parent),
        office_or_web_parent(lower_parent),
    ensures
        raw_points(e) == raw_points(without_parent(e)) + 30,
        risk_score_of(e) == cap(risk_score_of(without_parent(e)) + 30, 100),
        risk_indicators(e).contains(msg_lolbin(e.name, parent)),
{
    lemma_connection_points_nonneg(e.connections);
    let a = static_indicators(e.static_report) + path_indicators(e.lower_name, e.path, e.lower_path);
    let k = a.len() as int;
    assert(lolbin_indicators(e.name, e.lower_name, e.parent, e.lower_parent) == seq![msg_lolbin(e.name, parent)]);
    assert(risk_indicators(e)[k] == msg_lolbin(e.name, parent));
}

/// A parent whose lowercased name names no office application or web server
/// adds nothing: the score and the indicators are those of the same process
/// without a parent.
pub proof fn lemma_other_parent_adds_nothing(e: RiskEvidence, lower_parent: Seq<char>)
    requires
        e.lower_parent == Some(lower_parent),
        !office_or_web_parent(lower_parent),
    ensures
        raw_points(e) == raw_points(without_parent(e)),
        risk_score_of(e) == risk_score_of(without_parent(e)),
        risk_indicators(e) == risk_indicators(without_parent(e)),
{
    assert(lolbin_indicators(e.name, e.lower_name, e.parent, e.lower_parent) =~= Seq::<Seq<char>>::empty());
    assert(lolbin_indicators(e.name, e.lower_name, None, None) =~= Seq::<Seq<char>>::empty());
}

/// A process whose lowercased name is no living-off-the-land binary gets
/// nothing from its parent, whatever the parent is.
pub proof fn lemma_parent_of_other_process_adds_nothing(e: RiskEvidence)
    requires
        !known_lolbin(e.lower_name),
    ensures
        raw_points(e) == raw_points(without_parent(e)),
        risk_indicators(e) == risk_indicators(without_parent(e)),
{
    assert(lolbin_indicators(e.name, e.lower_name, e.parent, e.lower_parent) =~= Seq::<Seq<char>>::empty());
    assert(lolbin_indicators(e.name, e.lower_name, None, None) =~= Seq::<Seq<char>>::empty());
}

/// A lowercased path inside one of the temporary or user-writable
/// directories: /tmp/, /var/tmp/, /dev/shm/, \temp\, \appdata\ or
/// \users\public\.
pub open spec fn in_writable_dir(lp: Seq<char>) -> bool {
    has_substring(lp, "/tmp/"@) || has_substring(lp, "/var/tmp/"@) || has_substring(lp, "/dev/shm/"@)
        || has_substring(lp, "\\temp\\"@) || has_substring(lp, "\\appdata\\"@) || has_substring(
        lp,
        "\\users\\public\\"@,
    )
}

/// The lowercased name of a core Windows process: svchost.exe, lsass.exe or
/// csrss.exe.
pub open spec fn core_windows_name(n: Seq<char>) -> bool {
    n == "svchost.exe"@ || n == "lsass.exe"@ || n == "csrss.exe"@
}

/// The executable's location adds 25 points when it lies in a temporary or
/// user-writable directory, and 35 more when a core Windows process runs
/// from outside System32; nothing else.
pub proof fn lemma_location_points(e: RiskEvidence, lp: Seq<char>)
    requires
        e.lower_path == Some(lp),
    ensures
        raw_points(e) == raw_points(RiskEvidence { path: None, lower_path: None, ..e }) + (if in_writable_dir(
            lp,
        ) {
            25int
        } else {
            0int
        }) + (if core_windows_name(e.lower_name) && !has_substring(lp, "system32"@) {
            35int
        } else {
            0int
        }),
{
}

/// A lowercased command line that fetches or decodes a payload: it contains
/// -enc, -encodedcommand, downloadstring, "curl ", "wget " or base64.
pub open spec fn payload_command(c: Seq<char>) -> bool {
    has_substring(c, "-enc"@) || has_substring(c, "-encodedcommand"@) || has_substring(
        c,
        "downloadstring"@,
    ) || has_substring(c, "curl "@) || has_substring(c, "wget "@) || has_substring(c, "base64"@)
}

proof fn lemma_empty_has_no_substring(n: Seq<char>)
    requires
        n.len() > 0,
    ensures
        !has_substring(Seq::<char>::empty(), n),
{
}

/// The command line adds 15 points, over an empty one, exactly when it
/// fetches or decodes a payload.
pub proof fn lemma_command_line_points(e: RiskEvidence)
    ensures
        raw_points(e) == raw_points(RiskEvidence { lower_cmdline: seq![], ..e }) + (if payload_command(
            e.lower_cmdline,
        ) {
            15int
        } else {
            0int
        }),
{
    reveal_strlit("-enc");
    reveal_strlit("-encodedcommand");
    reveal_strlit("downloadstring");
    reveal_strlit("curl ");
    reveal_strlit("wget ");
    reveal_strlit("base64");
    lemma_empty_has_no_substring("-enc"@);
    lemma_empty_has_no_substring("-encodedcommand"@);
    lemma_empty_has_no_substring("downloadstring"@);
    lemma_empty_has_no_substring("curl "@);
    lemma_empty_has_no_substring("wget "@);
    lemma_empty_has_no_substring("base64"@);
}

/// A remote address that counts as external: not `-`, not loopback
/// (127.*) and not 0.0.0.0.
pub open spec fn outside_address(ip: Seq<char>) -> bool {
    ip != "-"@ && !has_prefix(ip, "127."@) && ip != "0.0.0.0"@
}

/// A remote port used by backdoors: 4444, 1337, 6667, 8088, 31337, 5555,
/// 8443 or 9001.
pub open spec fn backdoor_port(p: u16) -> bool {
    p == 4444 || p == 1337 || p == 6667 || p == 8088 || p == 31337 || p == 5555 || p == 8443 || p
        == 9001
}

/// One socket adds, over none: nothing unless its remote address is
/// external; then 3 points, 20 more for a backdoor port, and 30 more when
/// VirusTotal has malicious votes for the address.
pub proof fn lemma_single_socket_points(e: RiskEvidence, c: NetworkConnection)
    requires
        e.connections == seq![c],
    ensures
        raw_points(e) == raw_points(RiskEvidence { connections: seq![], ..e }) + (if outside_address(
            c.remote_ip@,
        ) {
            3 + (if backdoor_port(c.remote_port) {
                20int
            } else {
                0int
            }) + (match c.vt_reputation {
                Some(rep) => if rep.malicious_votes > 0 {
                    30int
                } else {
                    0int
                },
                None => 0int,
            })
        } else {
            0int
        }),
{
    assert(seq![c].drop_last() =~= Seq::<NetworkConnection>::empty());
}

/// VirusTotal figures add 5 points per engine flagging the executable (at
/// most 50) and 20 per flagged module (at most 40), over no figures.
pub proof fn lemma_virustotal_points(e: RiskEvidence, v: VtProcessReport)
    requires
        e.vt == Some(v),
    ensures
        raw_points(e) == raw_points(RiskEvidence { vt: None, ..e }) + (if 5 * v.exe_positives > 50 {
            50
        } else {
            5 * v.exe_positives
        }) + (if 20 * v.malicious_dll_count > 40 {
            40
        } else {
            20 * v.malicious_dll_count
        }),
{
}

/// Extending a list with new items keeps the items it began with in place.
proof fn lemma_with_unique_keeps_prefix(acc: Seq<Seq<char>>, s: Seq<Seq<char>>)
    ensures
        with_unique(acc, s).len() >= acc.len(),
        forall|i: int| 0 <= i < acc.len() ==> #[trigger] with_unique(acc, s)[i] == acc[i],
    decreases s.len(),
{
    if s.len() > 0 {
        lemma_with_unique_keeps_prefix(acc, s.drop_last());
    }
}

/// A static report adds 40% of its score, rounded down, over no static
/// report; a score of 70 or more puts the high static score indicator first.
pub proof fn lemma_static_report_points(e: RiskEvidence, a: AnalysisReportView)
    requires
        e.static_report == Some(a),
    ensures
        raw_points(e) == raw_points(RiskEvidence { static_report: None, ..e }) + (2 * a.risk_score) / 5,
        a.risk_score >= 70 ==> risk_indicators(e)[0] == "High static risk score ("@ + decimal(
            a.risk_score as nat,
        ) + ")"@,
{
    if a.risk_score >= 70 {
        let first = seq![msg_high_static(a.risk_score)];
        lemma_with_unique_keeps_prefix(first, views(a.indicators));
        let st = static_indicators(e.static_report);
        assert(st[0] == msg_high_static(a.risk_score));
        let rest = path_indicators(e.lower_name, e.path, e.lower_path) + lolbin_indicators(
            e.name,
            e.lower_name,
            e.parent,
            e.lower_parent,
        ) + cmdline_indicators(e.lower_cmdline) + module_indicators(e.modules) + network_indicators(
            e.connections,
        ) + vt_indicators(e.vt);
        assert(risk_indicators(e) =~= st + rest);
        assert((st + rest)[0] == st[0]);
    }
}

/// The number of modules loaded from a suspicious directory.
proof fn lemma_suspicious_module_count(d: Seq<LoadedModule>)
    ensures
        count_suspicious_modules(d) == d.filter(|m: LoadedModule| m.is_suspicious_location).len(),
    decreases d.len(),
{
    if d.len() == 0 {
        reveal(Seq::filter);
    } else {
        lemma_suspicious_module_count(d.drop_last());
        assert(d =~= d.drop_last().push(d.last()));
        d.drop_last().lemma_filter_len_push(|m: LoadedModule| m.is_suspicious_location, d.last());
    }
}

/// The number of unsigned modules loaded from a system directory.
proof fn lemma_unsigned_system_module_count(d: Seq<LoadedModule>)
    ensures
        count_unsigned_system_modules(d) == d.filter(|m: LoadedModule| m.is_unsigned_in_system_dir).len(),
    decreases d.len(),
{
    if d.len() == 0 {
        reveal(Seq::filter);
    } else {
        lemma_unsigned_system_module_count(d.drop_last());
        assert(d =~= d.drop_last().push(d.last()));
        d.drop_last().lemma_filter_len_push(|m: LoadedModule| m.is_unsigned_in_system_dir, d.last());
    }
}

/// Loaded modules add 15 points for each one from a suspicious directory (at
/// most 30) and 20 for each unsigned one in a system directory (at most 40),
/// over no modules.
pub proof fn lemma_module_points(e: RiskEvidence)
    ensures
        ({
            let suspicious = e.modules.filter(|m: LoadedModule| m.is_suspicious_location).len();
            let unsigned = e.modules.filter(|m: LoadedModule| m.is_unsigned_in_system_dir).len();
            raw_points(e) == raw_points(RiskEvidence { modules: seq![], ..e }) + (if 15 * suspicious > 30 {
                30
            } else {
                15 * suspicious
            }) + (if 20 * unsigned > 40 {
                40
            } else {
                20 * unsigned
            })
        }),
{
    lemma_suspicious_module_count(e.modules);
    lemma_unsigned_system_module_count(e.modules);
}

/// The number of connections to an address outside the machine's networks.
proof fn lemma_external_connection_count(cs: Seq<NetworkConnection>)
    ensures
        count_external(cs) == cs.filter(|c: NetworkConnection| outside_address(c.remote_ip@)).len(),
    decreases cs.len(),
{
    if cs.len() == 0 {
        reveal(Seq::filter);
    } else {
        lemma_external_connection_count(cs.drop_last());
        assert(cs =~= cs.drop_last().push(cs.last()));
        cs.drop_last().lemma_filter_len_push(|c: NetworkConnection| outside_address(c.remote_ip@), cs.last());
    }
}

/// Sockets add, over no sockets, each connection's own points and 3 more for
/// each connection to an outside address, those 3s at most 15 in all.
pub proof fn lemma_connection_count_points(e: RiskEvidence)
    ensures
        ({
            let outside = e.connections.filter(|c: NetworkConnection| outside_address(c.remote_ip@)).len();
            raw_points(e) == raw_points(RiskEvidence { connections: seq![], ..e }) + sum_connection_points(
                e.connections,
            ) + (if 3 * outside > 15 {
                15
            } else {
                3 * outside
            })
        }),
{
    lemma_external_connection_count(e.connections);
}

} // verus!
