//! Decisions of the live process scan: which processes to report, which
//! mapped files are modules, what a module record says, how a socket is
//! described, and how an executable's signature is judged.

use vstd::prelude::*;
use vstd::slice::slice_subrange;
use vstd::string::*;
use sha2::Digest;
use crate::risk::{in_user_writable_location, is_external_ip, user_writable_location, external_ip};
use crate::text::{
    chars_of, decimal, has_prefix, has_substring, lowercase, push_char, push_decimal,
    str_contains, str_starts_with, to_lowercase,
};
use crate::types::{
    AnalysisReport, LiveProcessReport, LiveProcessReportView, LoadedModule, NetworkConnection,
    VtProcessReport,
};
use crate::risk::{calculate_live_risk_score, live_evidence, risk_indicators, risk_level_text, risk_score_of};
use crate::ranking::{sort_by_rank, sort_by_risk, lemma_sort_by_rank_map, lemma_sort_by_rank_permutes};
use crate::text::views;
use crate::tree::{
    build_process_tree_hierarchy, lemma_tree_layout_unique_pids, lemma_tree_order_permutes, report_views,
    tree_indices, tree_layout, tree_order, unique_pids, unplaced,
};
use crate::cache::TextMap;

verus! {

// ---------------------------------------------------------------------------
// Process selection

/// A process passes the pid and name filters of a scan. The name filter is a
/// case-insensitive substring match.
pub open spec fn process_selected_spec(
    pid: u32,
    name: Seq<char>,
    target_pid: Option<u32>,
    target_name: Option<Seq<char>>,
) -> bool {
    &&& (target_pid matches Some(t) ==> pid == t)
    &&& (target_name matches Some(n) ==> has_substring(lowercase(name), lowercase(n)))
}

/// Whether a process passes the pid and name filters of a scan.
pub fn process_selected(
    pid: u32,
    name: &str,
    target_pid: Option<u32>,
    target_name: Option<&str>,
) -> (r: bool)
    ensures
        r == process_selected_spec(
            pid,
            name@,
            target_pid,
            match target_name {
                Some(n) => Some(n@),
                None => None,
            },
        ),
{
    match target_pid {
        Some(t) => {
            if pid != t {
                return false;
            }
        },
        None => {},
    }
    match target_name {
        Some(t) => {
            let ln = to_lowercase(name);
            let lt = to_lowercase(t);
            str_contains(ln.as_str(), lt.as_str())
        },
        None => true,
    }
}

// ---------------------------------------------------------------------------
// Library locations

/// A path inside a standard system library directory.
pub open spec fn standard_system_lib(path: Seq<char>) -> bool {
    ||| has_prefix(path, "/usr/lib/"@)
    ||| has_prefix(path, "/lib/"@)
    ||| has_prefix(path, "/lib64/"@)
    ||| has_substring(lowercase(path), "c:\\windows\\system32\\"@)
}

/// Whether `path` lies in a standard system library directory.
pub fn is_standard_system_lib(path: &str) -> (r: bool)
    ensures
        r == standard_system_lib(path@),
{
    if str_starts_with(path, "/usr/lib/") || str_starts_with(path, "/lib/") || str_starts_with(
        path,
        "/lib64/",
    ) {
        return true;
    }
    let lower = to_lowercase(path);
    str_contains(lower.as_str(), "c:\\windows\\system32\\")
}

/// A path that lies in a temporary or user-writable directory, compared
/// case-insensitively.
pub open spec fn suspicious_path(path: Seq<char>) -> bool {
    user_writable_location(lowercase(path))
}

/// Whether `path` lies in a temporary or user-writable directory (compared
/// case-insensitively).
pub fn is_path_suspicious(path: &str) -> (r: bool)
    ensures
        r == suspicious_path(path@),
{
    let lower = to_lowercase(path);
    in_user_writable_location(lower.as_str())
}

// ---------------------------------------------------------------------------
// The maps file of a process

/// The Unicode White_Space property (what `char::is_whitespace` decides):
/// the ASCII controls tab to carriage return, space, next line, no-break
/// space, ogham space mark, the spaces U+2000 to U+200A, the line and
/// paragraph separators, narrow no-break space, medium mathematical space and
/// ideographic space.
pub open spec fn unicode_whitespace(c: char) -> bool {
    let u = c as u32;
    ||| 0x09 <= u <= 0x0d
    ||| u == 0x20
    ||| u == 0x85
    ||| u == 0xa0
    ||| u == 0x1680
    ||| 0x2000 <= u <= 0x200a
    ||| u == 0x2028
    ||| u == 0x2029
    ||| u == 0x202f
    ||| u == 0x205f
    ||| u == 0x3000
}

/// Whether `c` is Unicode white space.
fn is_whitespace(c: char) -> (r: bool)
    ensures
        r == unicode_whitespace(c),
{
    let u = c as u32;
    (0x09 <= u && u <= 0x0d) || u == 0x20 || u == 0x85 || u == 0xa0 || u == 0x1680 || (0x2000 <= u
        && u <= 0x200a) || u == 0x2028 || u == 0x2029 || u == 0x202f || u == 0x205f || u == 0x3000
}

/// The maximal runs of non-whitespace characters of `s`, in order (what
/// `str::split_whitespace` yields).
pub open spec fn fields(s: Seq<char>) -> Seq<Seq<char>>
    decreases s.len(),
{
    if s.len() == 0 {
        seq![]
    } else {
        let prev = fields(s.drop_last());
        let c = s.last();
        if unicode_whitespace(c) {
            prev
        } else if s.len() >= 2 && !unicode_whitespace(s[s.len() - 2]) {
            prev.drop_last().push(prev.last().push(c))
        } else {
            prev.push(seq![c])
        }
    }
}

proof fn lemma_fields_nonempty_after_word(s: Seq<char>)
    requires
        s.len() > 0,
        !unicode_whitespace(s.last()),
    ensures
        fields(s).len() > 0,
    decreases s.len(),
{
    if s.len() >= 2 && !unicode_whitespace(s[s.len() - 2]) {
        assert(s.drop_last().last() == s[s.len() - 2]);
        lemma_fields_nonempty_after_word(s.drop_last());
    }
}

/// The whitespace-separated fields of a line.
pub fn split_fields(line: &str) -> (r: Vec<String>)
    ensures
        r@.map_values(|f: String| f@) == fields(line@),
{
    let cs = chars_of(line);
    let mut out: Vec<String> = Vec::new();
    let mut cur = String::new();
    let mut in_word = false;
    let mut i: usize = 0;
    while i < cs.len()
        invariant
            i <= cs@.len(),
            cs@ == line@,
            in_word == (i > 0 && !unicode_whitespace(cs@[i - 1])),
            in_word ==> out@.map_values(|f: String| f@).push(cur@) == fields(cs@.take(i as int)),
            !in_word ==> out@.map_values(|f: String| f@) == fields(cs@.take(i as int)),
            !in_word ==> cur@ == Seq::<char>::empty(),
        decreases cs@.len() - i,
    {
        let c = cs[i];
        let ghost t = cs@.take(i as int);
        assert(cs@.take(i + 1).drop_last() =~= t);
        if i > 0 {
            assert(cs@.take(i + 1)[i - 1] == cs@[i - 1]);
        }
        if is_whitespace(c) {
            if in_word {
                let done = cur;
                cur = String::new();
                out.push(done);
            }
            in_word = false;
        } else {
            if in_word {
                proof {
                    lemma_fields_nonempty_after_word(t);
                }
                let ghost before = out@.map_values(|f: String| f@);
                push_char(&mut cur, c);
                assert(before.push(cur@) =~= fields(t).drop_last().push(fields(t).last().push(c)));
            } else {
                push_char(&mut cur, c);
                assert(cur@ =~= seq![c]);
            }
            in_word = true;
        }
        i += 1;
    }
    assert(cs@.take(cs@.len() as int) =~= cs@);
    if in_word {
        let ghost before = out@.map_values(|f: String| f@);
        out.push(cur);
        assert(out@.map_values(|f: String| f@) =~= before.push(cur@));
    }
    out
}

/// The module path named by one line of a maps file: its sixth field, when
/// that is an absolute path of a shared object or DLL.
pub open spec fn maps_line_module(line: Seq<char>) -> Option<Seq<char>> {
    let parts = fields(line);
    if parts.len() >= 6 {
        let p = parts[5];
        if has_prefix(p, "/"@) && (has_substring(p, ".so"@) || has_substring(p, ".dll"@)) {
            Some(p)
        } else {
            None
        }
    } else {
        None
    }
}

/// The module path named by one line of a maps file, if any.
pub fn module_path_in_maps_line(line: &str) -> (r: Option<String>)
    ensures
        match r {
            Some(p) => maps_line_module(line@) == Some(p@),
            None => maps_line_module(line@) is None,
        },
{
    let parts = split_fields(line);
    proof {
        assert(parts@.len() == fields(line@).len());
    }
    if parts.len() >= 6 {
        let p = &parts[5];
        assert(p@ == fields(line@)[5]);
        if str_starts_with(p.as_str(), "/") && (str_contains(p.as_str(), ".so") || str_contains(
            p.as_str(),
            ".dll",
        )) {
            return Some(p.clone());
        }
    }
    None
}

/// `paths` without repetitions, each kept at its first occurrence.
pub open spec fn first_occurrences(paths: Seq<Seq<char>>) -> Seq<Seq<char>>
    decreases paths.len(),
{
    if paths.len() == 0 {
        seq![]
    } else {
        let prev = first_occurrences(paths.drop_last());
        if prev.contains(paths.last()) {
            prev
        } else {
            prev.push(paths.last())
        }
    }
}

fn holds_path(v: &Vec<String>, s: &String) -> (r: bool)
    ensures
        r == v@.map_values(|f: String| f@).contains(s@),
{
    let ghost vs = v@.map_values(|f: String| f@);
    let mut i: usize = 0;
    while i < v.len()
        invariant
            i <= v@.len(),
            vs == v@.map_values(|f: String| f@),
            forall|k: int| 0 <= k < i ==> vs[k] != s@,
        decreases v@.len() - i,
    {
        if crate::text::str_eq(v[i].as_str(), s.as_str()) {
            assert(vs[i as int] == s@);
            return true;
        }
        i += 1;
    }
    false
}

/// Drops repeated paths, keeping each at its first occurrence.
pub fn dedupe_paths(paths: &Vec<String>) -> (r: Vec<String>)
    ensures
        r@.map_values(|f: String| f@) == first_occurrences(paths@.map_values(|f: String| f@)),
{
    let ghost src = paths@.map_values(|f: String| f@);
    let mut out: Vec<String> = Vec::new();
    let mut i: usize = 0;
    while i < paths.len()
        invariant
            i <= paths@.len(),
            src == paths@.map_values(|f: String| f@),
            out@.map_values(|f: String| f@) == first_occurrences(src.take(i as int)),
        decreases paths@.len() - i,
    {
        assert(src.take(i + 1).drop_last() =~= src.take(i as int));
        let p = &paths[i];
        let ghost before = out@.map_values(|f: String| f@);
        if !holds_path(&out, p) {
            out.push(p.clone());
            assert(out@.map_values(|f: String| f@) =~= before.push(p@));
        }
        i += 1;
    }
    assert(src.take(paths@.len() as int) =~= src);
    out
}

// ---------------------------------------------------------------------------
// Files: names, hashes, signatures

/// The result of `Path::file_name` on a path, as text.
pub uninterp spec fn path_file_name(path: Seq<char>) -> Option<Seq<char>>;

/// Calls `Path::file_name` (converting the name with `to_string_lossy`).
/// Claimed: the answer depends on the path's characters alone (under the path
/// rules of the platform the program is built for); how the last component
/// is found is left unsaid.
#[verifier::external_body]
pub(crate) fn file_name_of(path: &str) -> (r: Option<String>)
    ensures
        match r {
            Some(n) => path_file_name(path@) == Some(n@),
            None => path_file_name(path@) is None,
        },
{
    std::path::Path::new(path).file_name().map(|s| s.to_string_lossy().to_string())
}

/// The name shown for a module: the path's last component, or the whole path.
pub open spec fn module_name(path: Seq<char>) -> Seq<char> {
    match path_file_name(path) {
        Some(n) => n,
        None => path,
    }
}

/// The result of SHA-256 on some bytes.
pub uninterp spec fn sha256_of(data: Seq<u8>) -> Seq<u8>;

/// Calls `sha2::Sha256::digest`. Claimed: the digest depends on the bytes
/// alone and is 32 bytes long.
#[verifier::external_body]
fn sha256_digest(data: &[u8]) -> (r: Vec<u8>)
    ensures
        r@ == sha256_of(data@),
        r@.len() == 32,
{
    sha2::Sha256::digest(data).to_vec()
}

/// A nibble as a lowercase hexadecimal digit.
pub open spec fn hex_digit(n: u8) -> char {
    if n < 10 {
        ('0' as u8 + n) as char
    } else {
        ('a' as u8 + (n - 10)) as char
    }
}

/// Bytes as lowercase hexadecimal text, two digits per byte.
pub open spec fn hex_lower(data: Seq<u8>) -> Seq<char>
    decreases data.len(),
{
    if data.len() == 0 {
        seq![]
    } else {
        hex_lower(data.drop_last()) + seq![hex_digit(data.last() / 16), hex_digit(data.last() % 16)]
    }
}

/// Calls `hex::encode`. Claimed: the result is the bytes in lowercase
/// hexadecimal, two digits per byte, as the crate's `HEX_CHARS_LOWER` table gives.
#[verifier::external_body]
fn hex_encode(data: &[u8]) -> (r: String)
    ensures
        r@ == hex_lower(data@),
{
    hex::encode(data)
}

/// The SHA-256 digest of a file's bytes, in lowercase hexadecimal.
pub fn sha256_hex(data: &[u8]) -> (r: String)
    ensures
        r@ == hex_lower(sha256_of(data@)),
        r@.len() == 64,
{
    let d = sha256_digest(data);
    proof {
        lemma_hex_len(d@);
    }
    hex_encode(d.as_slice())
}

proof fn lemma_hex_len(data: Seq<u8>)
    ensures
        hex_lower(data).len() == 2 * data.len(),
    decreases data.len(),
{
    if data.len() > 0 {
        lemma_hex_len(data.drop_last());
    }
}

/// The certificate table directory of a PE file, as (address, size), as
/// `goblin` reads it from the optional header (data directory 4).
pub uninterp spec fn pe_certificate_directory(data: Seq<u8>) -> Option<(u32, u32)>;

/// Calls `goblin::Object::parse` and, for a PE file with an optional header,
/// reads data directory 4. Claimed: the answer depends on the bytes alone; how
/// the headers are parsed is left unsaid. Only bytes that begin with the DOS
/// signature `MZ` (and hold the 16 bytes `goblin` peeks at) are handed over:
/// those are the only ones `goblin` parses as PE, and other formats' parsers
/// can panic on malformed input.
#[verifier::external_body]
fn pe_security_directory(data: &[u8]) -> (r: Option<(u32, u32)>)
    requires
        data@.len() >= 16,
        data@[0] == 0x4d,
        data@[1] == 0x5a,
    ensures
        r == pe_certificate_directory(data@),
{
    match goblin::Object::parse(data) {
        Ok(goblin::Object::PE(pe)) => match pe.header.optional_header {
            Some(opt) => match opt.data_directories.data_directories.get(4) {
                Some(Some((_, dir))) => Some((dir.virtual_address, dir.size)),
                _ => None,
            },
            None => None,
        },
        _ => None,
    }
}

/// The result of `String::from_utf8_lossy` on some bytes.
pub uninterp spec fn lossy_text(data: Seq<u8>) -> Seq<char>;

/// Calls `String::from_utf8_lossy`. Claimed: the text depends on the bytes
/// alone; the decoding and its replacement characters are left unsaid.
#[verifier::external_body]
fn utf8_lossy(data: &[u8]) -> (r: String)
    ensures
        r@ == lossy_text(data@),
{
    String::from_utf8_lossy(data).into_owned()
}

/// Bytes that can be a PE file: at least 16 of them, starting with `MZ`.
pub open spec fn pe_candidate(d: Seq<u8>) -> bool {
    d.len() >= 16 && d[0] == 0x4d && d[1] == 0x5a
}

/// The signature verdict for a file: whether it carries an Authenticode
/// certificate table and, if so, the publisher named in it. Bytes that are not
/// a PE candidate carry none.
pub open spec fn signature_verdict(data: Option<Seq<u8>>) -> (bool, Option<Seq<char>>) {
    match data {
        None => (false, None),
        Some(d) => if !pe_candidate(d) {
            (false, None)
        } else {
            match pe_certificate_directory(d) {
            Some((va, size)) => if va > 0 && size > 0 {
                if va + size <= d.len() {
                    let cert = lossy_text(d.subrange(va as int, va + size));
                    if has_substring(cert, "Microsoft Corporation"@) {
                        (true, Some("Microsoft Corporation"@))
                    } else if has_substring(cert, "Google LLC"@) {
                        (true, Some("Google LLC"@))
                    } else if has_substring(cert, "Apple Inc."@) {
                        (true, Some("Apple Inc."@))
                    } else {
                        (true, Some("Signed PE"@))
                    }
                } else {
                    (true, Some("Signed PE"@))
                }
            } else {
                (false, None)
            },
            None => (false, None),
            }
        },
    }
}

fn text(s: &str) -> (r: String)
    ensures
        r@ == s@,
{
    String::from_str(s)
}

/// Judges the signature of a file from its bytes (`None` when the file could
/// not be read).
pub fn check_authenticode_signature(data: Option<&[u8]>) -> (r: (bool, Option<String>))
    ensures
        ({
            let v = signature_verdict(
                match data {
                    Some(d) => Some(d@),
                    None => None,
                },
            );
            &&& r.0 == v.0
            &&& r.1.is_some() == v.1.is_some()
            &&& r.1 matches Some(p) ==> v.1 == Some(p@)
        }),
{
    match data {
        None => (false, None),
        Some(d) => if !(d.len() >= 16 && d[0] == 0x4d && d[1] == 0x5a) {
            (false, None)
        } else {
            match pe_security_directory(d) {
            Some((va, size)) => {
                if va > 0 && size > 0 {
                    let end: u64 = va as u64 + size as u64;
                    if end <= d.len() as u64 {
                        let cert = utf8_lossy(slice_subrange(d, va as usize, end as usize));
                        if str_contains(cert.as_str(), "Microsoft Corporation") {
                            return (true, Some(text("Microsoft Corporation")));
                        } else if str_contains(cert.as_str(), "Google LLC") {
                            return (true, Some(text("Google LLC")));
                        } else if str_contains(cert.as_str(), "Apple Inc.") {
                            return (true, Some(text("Apple Inc.")));
                        }
                    }
                    (true, Some(text("Signed PE")))
                } else {
                    (false, None)
                }
            },
            None => (false, None),
            }
        },
    }
}

// ---------------------------------------------------------------------------
// Module records

/// A module's hash is wanted when it sits in a suspicious place, is an
/// unsigned system library, or lies outside the standard library directories.
pub open spec fn module_hash_wanted(path: Seq<char>, is_signed: bool) -> bool {
    let suspicious = suspicious_path(path);
    let system = standard_system_lib(path);
    suspicious || (system && !is_signed) || !system
}

/// Whether the hash of the module at `path` is wanted.
pub fn needs_module_hash(path: &str, is_signed: bool) -> (r: bool)
    ensures
        r == module_hash_wanted(path@, is_signed),
{
    let suspicious = is_path_suspicious(path);
    let system = is_standard_system_lib(path);
    suspicious || (system && !is_signed) || !system
}

/// The record of a module mapped from `path`, given its signature verdict and
/// its hash (if one was taken).
pub fn module_record(
    path: &str,
    is_signed: bool,
    signature_publisher: Option<String>,
    sha256: Option<String>,
) -> (m: LoadedModule)
    ensures
        m.name@ == module_name(path@),
        m.path@ == path@,
        m.sha256 == sha256,
        m.is_suspicious_location == suspicious_path(path@),
        m.is_signed == is_signed,
        m.signature_publisher == signature_publisher,
        m.is_unsigned_in_system_dir == (standard_system_lib(path@) && !is_signed),
        m.vt_malicious_hits is None,
{
    let name = match file_name_of(path) {
        Some(n) => n,
        None => text(path),
    };
    let is_suspicious_location = is_path_suspicious(path);
    let is_sys_lib = is_standard_system_lib(path);
    LoadedModule {
        name,
        path: text(path),
        sha256,
        is_suspicious_location,
        is_signed,
        signature_publisher,
        is_unsigned_in_system_dir: is_sys_lib && !is_signed,
        vt_malicious_hits: None,
    }
}

// ---------------------------------------------------------------------------
// Sockets

/// What the socket table says about one socket, as plain values.
pub struct SocketFacts {
    pub is_tcp: bool,
    pub local_ip: String,
    pub local_port: u16,
    pub remote_ip: String,
    pub remote_port: u16,
    /// The TCP state as debug text (unused for UDP).
    pub state: String,
}

/// Whether a reverse lookup is wanted for a remote IP: not for unset,
/// loopback or unspecified addresses.
pub fn wants_reverse_lookup(ip: &str) -> (r: bool)
    ensures
        r == external_ip(ip@),
{
    is_external_ip(ip)
}

/// `ip:port`.
pub open spec fn endpoint(ip: Seq<char>, port: u16) -> Seq<char> {
    ip + ":"@ + decimal(port as nat)
}

fn make_endpoint(ip: &String, port: u16) -> (r: String)
    ensures
        r@ == endpoint(ip@, port),
{
    let mut s = ip.clone();
    s.append(":");
    push_decimal(&mut s, port as u64);
    s
}

/// The connection record of a socket: TCP sockets are described by both
/// endpoints and their state, UDP sockets by the local endpoint alone.
pub fn connection_record(f: &SocketFacts, remote_hostname: Option<String>) -> (c: NetworkConnection)
    ensures
        c.local_addr@ == endpoint(f.local_ip@, f.local_port),
        c.remote_hostname == remote_hostname,
        c.vt_reputation is None,
        f.is_tcp ==> {
            &&& c.protocol@ == "TCP"@
            &&& c.remote_addr@ == endpoint(f.remote_ip@, f.remote_port)
            &&& c.remote_ip@ == f.remote_ip@
            &&& c.remote_port == f.remote_port
            &&& c.state@ == f.state@
        },
        !f.is_tcp ==> {
            &&& c.protocol@ == "UDP"@
            &&& c.remote_addr@ == "-"@
            &&& c.remote_ip@ == "-"@
            &&& c.remote_port == 0
            &&& c.state@ == "ACTIVE"@
        },
{
    let local_addr = make_endpoint(&f.local_ip, f.local_port);
    if f.is_tcp {
        NetworkConnection {
            local_addr,
            remote_addr: make_endpoint(&f.remote_ip, f.remote_port),
            remote_ip: f.remote_ip.clone(),
            remote_port: f.remote_port,
            remote_hostname,
            protocol: text("TCP"),
            state: f.state.clone(),
            vt_reputation: None,
        }
    } else {
        NetworkConnection {
            local_addr,
            remote_addr: text("-"),
            remote_ip: text("-"),
            remote_port: 0,
            remote_hostname,
            protocol: text("UDP"),
            state: text("ACTIVE"),
            vt_reputation: None,
        }
    }
}

// ---------------------------------------------------------------------------
// Assembling the scan

/// The sockets of one process, in table order.
pub fn connections_of_pid(all: &[(u32, NetworkConnection)], pid: u32) -> (r: Vec<NetworkConnection>)
    ensures
        r@ == all@.filter(|e: (u32, NetworkConnection)| e.0 == pid).map_values(
            |e: (u32, NetworkConnection)| e.1,
        ),
{
    let ghost pred = |e: (u32, NetworkConnection)| e.0 == pid;
    let ghost second = |e: (u32, NetworkConnection)| e.1;
    let mut out: Vec<NetworkConnection> = Vec::new();
    let mut i: usize = 0;
    while i < all.len()
        invariant
            i <= all@.len(),
            pred == (|e: (u32, NetworkConnection)| e.0 == pid),
            second == (|e: (u32, NetworkConnection)| e.1),
            out@ == all@.take(i as int).filter(pred).map_values(second),
        decreases all@.len() - i,
    {
        assert(all@.take(i + 1) =~= all@.take(i as int).push(all@[i as int]));
        proof {
            all@.take(i as int).lemma_filter_push(all@[i as int], pred);
        }
        if all[i].0 == pid {
            let ghost before = out@;
            out.push(all[i].1.clone());
            assert(out@ =~= all@.take(i + 1).filter(pred).map_values(second));
        } else {
            assert(out@ =~= all@.take(i + 1).filter(pred).map_values(second));
        }
        i += 1;
    }
    assert(all@.take(all@.len() as int) =~= all@);
    out
}

/// The hashes of the modules that were hashed, in load order.
pub open spec fn module_hashes(dlls: Seq<LoadedModule>) -> Seq<Seq<char>>
    decreases dlls.len(),
{
    if dlls.len() == 0 {
        seq![]
    } else {
        module_hashes(dlls.drop_last()) + match dlls.last().sha256 {
            Some(h) => seq![h@],
            None => seq![],
        }
    }
}

/// What a process hands to VirusTotal: the hashes of its hashed modules and
/// the remote IPs of its sockets.
pub fn vt_lookup_inputs(dlls: &[LoadedModule], conns: &[NetworkConnection]) -> (r: (
    Vec<String>,
    Vec<String>,
))
    ensures
        views(r.0@) == module_hashes(dlls@),
        views(r.1@) == conns@.map_values(|c: NetworkConnection| c.remote_ip@),
{
    let mut hashes: Vec<String> = Vec::new();
    let mut i: usize = 0;
    while i < dlls.len()
        invariant
            i <= dlls@.len(),
            views(hashes@) == module_hashes(dlls@.take(i as int)),
        decreases dlls@.len() - i,
    {
        assert(dlls@.take(i + 1).drop_last() =~= dlls@.take(i as int));
        let ghost before = views(hashes@);
        match &dlls[i].sha256 {
            Some(h) => {
                hashes.push(h.clone());
                assert(views(hashes@) =~= before.push(h@));
            },
            None => {},
        }
        assert(views(hashes@) =~= module_hashes(dlls@.take(i + 1)));
        i += 1;
    }
    assert(dlls@.take(dlls@.len() as int) =~= dlls@);
    let mut ips: Vec<String> = Vec::new();
    let mut j: usize = 0;
    while j < conns.len()
        invariant
            j <= conns@.len(),
            views(ips@) == conns@.take(j as int).map_values(|c: NetworkConnection| c.remote_ip@),
        decreases conns@.len() - j,
    {
        let ghost before = views(ips@);
        ips.push(conns[j].remote_ip.clone());
        assert(views(ips@) =~= before.push(conns@[j as int].remote_ip@));
        assert(conns@.take(j + 1).map_values(|c: NetworkConnection| c.remote_ip@) =~= conns@.take(
            j as int,
        ).map_values(|c: NetworkConnection| c.remote_ip@).push(conns@[j as int].remote_ip@));
        j += 1;
    }
    assert(conns@.take(conns@.len() as int) =~= conns@);
    (hashes, ips)
}

/// The report of one process: what the scan learned, scored by
/// [`calculate_live_risk_score`], not yet placed in the tree.
pub fn build_live_report(
    pid: u32,
    name: String,
    exe_path: Option<String>,
    cmdline: Vec<String>,
    parent_pid: Option<u32>,
    parent_name: Option<String>,
    loaded_dlls: Vec<LoadedModule>,
    network_connections: Vec<NetworkConnection>,
    static_report: Option<AnalysisReport>,
    vt_report: Option<VtProcessReport>,
) -> (r: LiveProcessReport)
    ensures
        r.pid == pid,
        r.name == name,
        r.exe_path == exe_path,
        r.cmdline == cmdline,
        r.parent_pid == parent_pid,
        r.parent_name == parent_name,
        r.loaded_dlls == loaded_dlls,
        r.network_connections == network_connections,
        r.static_report == static_report,
        r.vt_report == vt_report,
        r.tree_prefix@ == Seq::<char>::empty(),
        r.depth == 0,
        ({
            let e = live_evidence(
                name@,
                match exe_path {
                    Some(p) => Some(p@),
                    None => None,
                },
                cmdline@,
                match parent_name {
                    Some(p) => Some(p@),
                    None => None,
                },
                loaded_dlls@,
                network_connections@,
                match static_report {
                    Some(a) => Some(a@),
                    None => None,
                },
                vt_report,
            );
            &&& r.risk_score == risk_score_of(e)
            &&& r.risk_level@ == risk_level_text(r.risk_score as int)
            &&& views(r.indicators@) == risk_indicators(e)
        }),
{
    let exe = match &exe_path {
        Some(p) => Some(p.as_str()),
        None => None,
    };
    let parent = match &parent_name {
        Some(p) => Some(p.as_str()),
        None => None,
    };
    let st = match &static_report {
        Some(a) => Some(a),
        None => None,
    };
    let vt = match &vt_report {
        Some(v) => Some(v),
        None => None,
    };
    let (risk_score, risk_level, indicators) = calculate_live_risk_score(
        name.as_str(),
        exe,
        cmdline.as_slice(),
        parent,
        loaded_dlls.as_slice(),
        network_connections.as_slice(),
        st,
        vt,
    );
    LiveProcessReport {
        pid,
        name,
        exe_path,
        cmdline,
        parent_pid,
        parent_name,
        loaded_dlls,
        network_connections,
        static_report,
        vt_report,
        risk_score,
        risk_level,
        indicators,
        tree_prefix: String::new(),
        depth: 0,
    }
}

/// The scanned reports in the order a scan returns them: laid out as the
/// process tree, then sorted by risk, highest first (stable, so equal scores
/// keep their tree order).
pub fn order_live_reports(reports: Vec<LiveProcessReport>) -> (r: Vec<LiveProcessReport>)
    ensures
        report_views(r@) == sort_by_rank(tree_layout(report_views(reports@))),
{
    let mut reports = reports;
    build_process_tree_hierarchy(&mut reports);
    let ghost laid = reports@;
    let sorted = sort_by_risk(reports);
    proof {
        lemma_sort_by_rank_map(laid, |r: LiveProcessReport| r@);
    }
    sorted
}

/// Reports with their tree placement cleared.
pub open spec fn unplaced_all(s: Seq<LiveProcessReportView>) -> Seq<LiveProcessReportView> {
    s.map_values(|v: LiveProcessReportView| unplaced(v))
}

/// `a` lists `b` again, rearranged: `a[k]` is `b[perm[k]]`, and `perm` names
/// every position of `b` once.
proof fn lemma_rearranged_multiset<A>(a: Seq<A>, b: Seq<A>, perm: Seq<usize>)
    requires
        b.len() <= usize::MAX,
        perm.len() == a.len(),
        perm.no_duplicates(),
        forall|k: int| 0 <= k < perm.len() ==> (#[trigger] perm[k]) < b.len() && a[k] == b[perm[k] as int],
        forall|x: usize| x < b.len() ==> #[trigger] perm.contains(x),
    ensures
        a.to_multiset() == b.to_multiset(),
    decreases b.len(),
{
    broadcast use vstd::seq_lib::group_to_multiset_ensures;

    if b.len() == 0 {
        if a.len() > 0 {
            assert(perm[0] < b.len());
        }
        assert(a =~= Seq::<A>::empty());
        assert(b =~= Seq::<A>::empty());
    } else {
        let last = (b.len() - 1) as usize;
        assert(perm.contains(last));
        let j = choose|j: int| 0 <= j < perm.len() && perm[j] == last;
        let a2 = a.remove(j);
        let p2 = perm.remove(j);
        let b2 = b.drop_last();
        assert forall|k: int| 0 <= k < p2.len() implies (#[trigger] p2[k]) < b2.len() && a2[k]
            == b2[p2[k] as int] by {
            let src = if k < j { k } else { k + 1 };
            assert(p2[k] == perm[src]);
            assert(a2[k] == a[src]);
            assert(perm[src] != perm[j]);
        }
        assert forall|x: usize| x < b2.len() implies #[trigger] p2.contains(x) by {
            assert(perm.contains(x));
            let i = choose|i: int| 0 <= i < perm.len() && perm[i] == x;
            assert(b2.len() == b.len() - 1);
            assert(x != last);
            assert(i != j);
            if i < j {
                assert(p2[i] == x);
            } else {
                assert(p2[i - 1] == x);
            }
        }
        assert(p2.no_duplicates()) by {
            assert forall|x: int, y: int| 0 <= x < p2.len() && 0 <= y < p2.len() && x != y implies p2[x]
                != p2[y] by {
                let sx = if x < j { x } else { x + 1 };
                let sy = if y < j { y } else { y + 1 };
                assert(p2[x] == perm[sx] && p2[y] == perm[sy]);
            }
        }
        lemma_rearranged_multiset(a2, b2, p2);
        vstd::seq_lib::to_multiset_remove(a, j);
        assert(b2.push(b.last()) =~= b);
        vstd::seq_lib::to_multiset_build(b2, b.last());
        assert(perm[j] < b.len() && a[j] == b[perm[j] as int]);
        assert(a[j] == b.last());
        assert(a.to_multiset() =~= a2.to_multiset().insert(a[j]));
    }
}

/// The live listing holds every scanned process exactly once: apart from the
/// tree placement each was given, the listed reports are the scanned ones
/// (for scans in which no two reports share a process id).
pub proof fn lemma_live_listing_keeps_every_process(s: Seq<LiveProcessReportView>)
    requires
        s.len() <= usize::MAX,
        unique_pids(s),
    ensures
        unplaced_all(sort_by_rank(tree_layout(s))).to_multiset() == unplaced_all(s).to_multiset(),
{
    lemma_tree_layout_unique_pids(s);
    let t = tree_order(s);
    lemma_tree_order_permutes(s);
    let perm = tree_indices(s);
    assert forall|k: int| 0 <= k < perm.len() implies (#[trigger] perm[k]) < unplaced_all(s).len()
        && unplaced_all(t)[k] == unplaced_all(s)[perm[k] as int] by {
        assert(unplaced(t[k]) == unplaced(s[perm[k] as int]));
    }
    lemma_rearranged_multiset(unplaced_all(t), unplaced_all(s), perm);
    let f = |v: LiveProcessReportView| unplaced(v);
    lemma_sort_by_rank_map(t, f);
    lemma_sort_by_rank_permutes(unplaced_all(t));
    assert(unplaced_all(sort_by_rank(t)) == sort_by_rank(t).map_values(f));
}

// ---------------------------------------------------------------------------
// Laws of selection and library locations

proof fn lemma_substring_of_itself(t: Seq<char>)
    ensures
        has_substring(t, t),
{
    assert(t.subrange(0, t.len() as int) =~= t);
    assert(crate::text::occurs_at(t, t, 0));
}

/// The name filter of a scan ignores letter case on both sides: names or
/// targets that lowercase alike are selected alike, and a process is always
/// selected by a target that is its own name in any letter case (when the
/// pid filter, if any, is its pid). Without a name filter only the pid
/// counts.
pub proof fn lemma_name_filter_ignores_case(
    pid: u32,
    name: Seq<char>,
    other_name: Seq<char>,
    target_pid: Option<u32>,
    target: Seq<char>,
    other_target: Seq<char>,
)
    ensures
        lowercase(target) == lowercase(other_target) ==> process_selected_spec(
            pid,
            name,
            target_pid,
            Some(target),
        ) == process_selected_spec(pid, name, target_pid, Some(other_target)),
        lowercase(name) == lowercase(other_name) ==> process_selected_spec(
            pid,
            name,
            target_pid,
            Some(target),
        ) == process_selected_spec(pid, other_name, target_pid, Some(target)),
        lowercase(target) == lowercase(name) && (target_pid matches Some(t) ==> t == pid)
            ==> process_selected_spec(pid, name, target_pid, Some(target)),
        process_selected_spec(pid, name, target_pid, None) == (target_pid matches Some(t) ==> t == pid),
        target_pid matches Some(t) && t != pid ==> !process_selected_spec(pid, name, target_pid, Some(target)),
{
    lemma_substring_of_itself(lowercase(name));
}

/// Every path under `/usr/lib/`, `/lib/` or `/lib64/` is a standard system
/// library path, and so is every path that contains
/// `c:\windows\system32\` in any letter case.
pub proof fn lemma_system_library_directories(rest: Seq<char>, path: Seq<char>)
    ensures
        standard_system_lib("/usr/lib/"@ + rest),
        standard_system_lib("/lib/"@ + rest),
        standard_system_lib("/lib64/"@ + rest),
        has_substring(lowercase(path), "c:\\windows\\system32\\"@) ==> standard_system_lib(path),
{
    assert(("/usr/lib/"@ + rest).subrange(0, "/usr/lib/"@.len() as int) =~= "/usr/lib/"@);
    assert(("/lib/"@ + rest).subrange(0, "/lib/"@.len() as int) =~= "/lib/"@);
    assert(("/lib64/"@ + rest).subrange(0, "/lib64/"@.len() as int) =~= "/lib64/"@);
}

/// A path that begins with none of `/usr/lib/`, `/lib/` and `/lib64/`, and
/// whose lowercased form does not contain `c:\windows\system32\`, is no
/// standard system library path.
pub proof fn lemma_other_directories_not_system(path: Seq<char>)
    requires
        !has_prefix(path, "/usr/lib/"@),
        !has_prefix(path, "/lib/"@),
        !has_prefix(path, "/lib64/"@),
        !has_substring(lowercase(path), "c:\\windows\\system32\\"@),
    ensures
        !standard_system_lib(path),
{
}

/// Whether a path is suspicious does not depend on its letter case: it is
/// exactly when its lowercased form contains `/tmp/`, `/var/tmp/`,
/// `/dev/shm/`, `\temp\`, `\appdata\` or `\users\public\`.
pub proof fn lemma_suspicious_path_ignores_case(path: Seq<char>, other: Seq<char>)
    ensures
        lowercase(path) == lowercase(other) ==> suspicious_path(path) == suspicious_path(other),
        suspicious_path(path) == crate::risk::in_writable_dir(lowercase(path)),
{
}

/// A maps line names a module exactly when it has at least six fields and
/// its sixth field is an absolute path containing `.so` or `.dll`; the module
/// is then that field.
pub proof fn lemma_maps_line_module_selection(line: Seq<char>)
    ensures
        ({
            let f = fields(line);
            &&& (f.len() >= 6 && has_prefix(f[5], "/"@) && (has_substring(f[5], ".so"@)
                || has_substring(f[5], ".dll"@))) ==> maps_line_module(line) == Some(f[5])
            &&& !(f.len() >= 6 && has_prefix(f[5], "/"@) && (has_substring(f[5], ".so"@)
                || has_substring(f[5], ".dll"@))) ==> maps_line_module(line) is None
        }),
{
}

/// An unsigned module under a system library directory is flagged as an
/// unsigned system library; a signed one is not.
pub proof fn lemma_unsigned_system_module_flagged(rest: Seq<char>, m: LoadedModule, is_signed: bool)
    requires
        m.path@ == "/lib/"@ + rest || m.path@ == "/usr/lib/"@ + rest || m.path@ == "/lib64/"@ + rest,
        m.is_signed == is_signed,
        m.is_unsigned_in_system_dir == (standard_system_lib(m.path@) && !is_signed),
    ensures
        m.is_unsigned_in_system_dir == !is_signed,
{
    lemma_system_library_directories(rest, m.path@);
}

// ---------------------------------------------------------------------------
// Caches kept across scans

/// What the live scan remembers between scans: static reports and file
/// hashes by path, and reverse lookups by address.
pub struct ScanCaches {
    pub static_reports: TextMap<AnalysisReport>,
    pub hashes: TextMap<String>,
    pub hostnames: TextMap<Option<String>>,
}

impl ScanCaches {
    /// The three maps are well formed.
    pub open spec fn wf(&self) -> bool {
        self.static_reports.wf() && self.hashes.wf() && self.hostnames.wf()
    }

    /// Empty caches.
    pub fn new() -> (c: Self)
        ensures
            c.wf(),
            c.static_reports.contents() == Map::<Seq<char>, AnalysisReport>::empty(),
            c.hashes.contents() == Map::<Seq<char>, String>::empty(),
            c.hostnames.contents() == Map::<Seq<char>, Option<String>>::empty(),
    {
        ScanCaches { static_reports: TextMap::new(), hashes: TextMap::new(), hostnames: TextMap::new() }
    }
}

/// Executables larger than this many bytes are not analysed during a live scan.
pub const LIVE_STATIC_SIZE_LIMIT: u64 = 50_000_000;

/// Whether a live scan analyses an executable of `file_len` bytes (`None`
/// when its size could not be read, in which case the read is attempted).
pub fn static_analysis_wanted(file_len: Option<u64>) -> (r: bool)
    ensures
        r == match file_len {
            Some(n) => n <= LIVE_STATIC_SIZE_LIMIT,
            None => true,
        },
{
    match file_len {
        Some(n) => n <= LIVE_STATIC_SIZE_LIMIT,
        None => true,
    }
}

} // verus!
