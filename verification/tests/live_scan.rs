use mintaka::live::{
    build_live_report, check_authenticode_signature, connection_record, connections_of_pid, dedupe_paths,
    is_path_suspicious, is_standard_system_lib, module_path_in_maps_line, module_record,
    needs_module_hash, process_selected, sha256_hex, split_fields, static_analysis_wanted, vt_lookup_inputs,
    wants_reverse_lookup, ScanCaches, SocketFacts, LIVE_STATIC_SIZE_LIMIT,
};
use mintaka::types::{LoadedModule, NetworkConnection};

fn put_u16(b: &mut [u8], at: usize, v: u16) {
    b[at..at + 2].copy_from_slice(&v.to_le_bytes());
}

fn put_u32(b: &mut [u8], at: usize, v: u32) {
    b[at..at + 4].copy_from_slice(&v.to_le_bytes());
}

/// A minimal PE32+ image without sections whose certificate table holds
/// `payload` (whose length is a multiple of 8).
fn signed_pe(payload: &[u8]) -> Vec<u8> {
    let cert_at = 0x200usize;
    let length = 8 + payload.len();
    let mut b = vec![0u8; cert_at + length];
    b[0] = b'M';
    b[1] = b'Z';
    put_u32(&mut b, 0x3c, 0x80);
    b[0x80..0x84].copy_from_slice(b"PE\0\0");
    put_u16(&mut b, 0x84, 0x14c); // machine
    put_u16(&mut b, 0x86, 0); // sections
    put_u16(&mut b, 0x94, 240); // size of optional header
    put_u16(&mut b, 0x96, 0x0002); // characteristics
    let opt = 0x98;
    put_u16(&mut b, opt, 0x20b); // PE32+
    put_u32(&mut b, opt + 24 + 8 + 4, 0x200); // file alignment
    put_u32(&mut b, opt + 24 + 84, 16); // number of data directories
    let dirs = opt + 24 + 88;
    put_u32(&mut b, dirs + 4 * 8, cert_at as u32);
    put_u32(&mut b, dirs + 4 * 8 + 4, length as u32);
    put_u32(&mut b, cert_at, length as u32);
    put_u16(&mut b, cert_at + 4, 0x0200);
    put_u16(&mut b, cert_at + 6, 0x0002);
    b[cert_at + 8..].copy_from_slice(payload);
    b
}

fn padded(text: &str) -> Vec<u8> {
    let mut v = text.as_bytes().to_vec();
    while v.len() % 8 != 0 {
        v.push(0);
    }
    v
}

#[test]
fn signature_publisher_is_recognised() {
    let pe = signed_pe(&padded("0 ..Microsoft Corporation..."));
    assert_eq!(check_authenticode_signature(Some(&pe)), (true, Some("Microsoft Corporation".to_string())));
    let pe = signed_pe(&padded("issued to Apple Inc. root"));
    assert_eq!(check_authenticode_signature(Some(&pe)), (true, Some("Apple Inc.".to_string())));
    let pe = signed_pe(&padded("someone else entirely"));
    assert_eq!(check_authenticode_signature(Some(&pe)), (true, Some("Signed PE".to_string())));
}

#[test]
fn unsigned_or_unreadable_files() {
    assert_eq!(check_authenticode_signature(None), (false, None));
    assert_eq!(check_authenticode_signature(Some(b"\x7fELF not a pe file at all")), (false, None));
    assert_eq!(check_authenticode_signature(Some(&[])), (false, None));
}

#[test]
fn sha256_of_known_input() {
    assert_eq!(sha256_hex(b"abc"), "ba7816bf8f01cfea414140de5dae2223b00361a396177a9cb410ff61f20015ad");
    assert_eq!(sha256_hex(b""), "e3b0c44298fc1c149afbf4c8996fb92427ae41e4649b934ca495991b7852b855");
}

#[test]
fn system_library_and_suspicious_paths() {
    assert!(is_standard_system_lib("/usr/lib/x86_64-linux-gnu/libc.so.6"));
    assert!(is_standard_system_lib("/lib64/ld-linux-x86-64.so.2"));
    assert!(is_standard_system_lib("C:\\WINDOWS\\System32\\kernel32.dll"));
    assert!(!is_standard_system_lib("/opt/app/lib.so"));
    assert!(is_path_suspicious("/tmp/payload.so"));
    assert!(is_path_suspicious("C:\\Users\\Public\\x.dll"));
    assert!(is_path_suspicious("/DEV/SHM/x.so"));
    assert!(!is_path_suspicious("/usr/lib/libm.so.6"));
}

#[test]
fn scan_filters_by_pid_and_name() {
    assert!(process_selected(10, "PowerShell.exe", None, None));
    assert!(process_selected(10, "PowerShell.exe", Some(10), Some("shell")));
    assert!(!process_selected(11, "PowerShell.exe", Some(10), None));
    assert!(!process_selected(10, "bash", None, Some("shell")));
}

#[test]
fn maps_lines_name_mapped_libraries() {
    let line = "7f2a1c000000-7f2a1c022000 r--p 00000000 08:01 1835012   /usr/lib/x86_64-linux-gnu/libc.so.6";
    assert_eq!(split_fields(line).len(), 6);
    assert_eq!(module_path_in_maps_line(line), Some("/usr/lib/x86_64-linux-gnu/libc.so.6".to_string()));
    assert_eq!(module_path_in_maps_line("7f2a-7f2b rw-p 00000000 00:00 0   [heap]"), None);
    assert_eq!(module_path_in_maps_line("55d0-55d1 r-xp 00000000 08:01 42   /usr/bin/bash"), None);
    assert_eq!(module_path_in_maps_line("7f00-7f01 rw-p 00000000 00:00 0"), None);
}

#[test]
fn repeated_paths_are_dropped() {
    let paths = vec!["/a.so".to_string(), "/b.so".to_string(), "/a.so".to_string(), "/c.so".to_string(), "/b.so".to_string()];
    assert_eq!(dedupe_paths(&paths), vec!["/a.so".to_string(), "/b.so".to_string(), "/c.so".to_string()]);
}

#[test]
fn module_records_and_hashing_policy() {
    assert_eq!(module_record("/", false, None, None).name, "/");
    let m = module_record("/usr/lib/libc.so.6", false, None, None);
    assert_eq!(m.name, "libc.so.6");
    assert!(m.is_unsigned_in_system_dir);
    assert!(!m.is_suspicious_location);
    let t = module_record("/tmp/x.so", true, Some("Signed PE".to_string()), Some("ab".to_string()));
    assert!(t.is_suspicious_location);
    assert!(!t.is_unsigned_in_system_dir);
    assert_eq!(t.sha256, Some("ab".to_string()));
    assert!(needs_module_hash("/tmp/x.so", true));
    assert!(needs_module_hash("/usr/lib/libc.so.6", false));
    assert!(!needs_module_hash("/usr/lib/libc.so.6", true));
    assert!(needs_module_hash("/opt/app/lib.so", true));
}

#[test]
fn socket_records() {
    let tcp = SocketFacts {
        is_tcp: true,
        local_ip: "10.0.0.2".to_string(),
        local_port: 5000,
        remote_ip: "8.8.8.8".to_string(),
        remote_port: 443,
        state: "Established".to_string(),
    };
    let c = connection_record(&tcp, Some("dns.google".to_string()));
    assert_eq!(c.local_addr, "10.0.0.2:5000");
    assert_eq!(c.remote_addr, "8.8.8.8:443");
    assert_eq!(c.protocol, "TCP");
    assert_eq!(c.remote_hostname, Some("dns.google".to_string()));
    let udp = SocketFacts { is_tcp: false, ..tcp };
    let u = connection_record(&udp, None);
    assert_eq!((u.remote_addr.as_str(), u.remote_ip.as_str(), u.remote_port, u.state.as_str(), u.protocol.as_str()), ("-", "-", 0, "ACTIVE", "UDP"));
    assert!(wants_reverse_lookup("8.8.8.8"));
    assert!(!wants_reverse_lookup("127.0.0.1"));
    assert!(!wants_reverse_lookup("0.0.0.0"));
    assert!(!wants_reverse_lookup("-"));
}

fn sock(ip: &str) -> NetworkConnection {
    connection_record(
        &SocketFacts {
            is_tcp: true,
            local_ip: "10.0.0.2".to_string(),
            local_port: 1,
            remote_ip: ip.to_string(),
            remote_port: 80,
            state: "Established".to_string(),
        },
        None,
    )
}

#[test]
fn sockets_are_split_by_pid_in_order() {
    let all = vec![(1, sock("1.1.1.1")), (2, sock("2.2.2.2")), (1, sock("3.3.3.3"))];
    let mine: Vec<String> = connections_of_pid(&all, 1).iter().map(|c| c.remote_ip.clone()).collect();
    assert_eq!(mine, vec!["1.1.1.1".to_string(), "3.3.3.3".to_string()]);
    assert!(connections_of_pid(&all, 9).is_empty());
}

#[test]
fn lookups_take_hashed_modules_and_remote_addresses() {
    let dlls: Vec<LoadedModule> = vec![
        module_record("/tmp/a.so", false, None, Some("h1".to_string())),
        module_record("/usr/lib/b.so", true, None, None),
    ];
    let conns = vec![sock("8.8.8.8"), sock("9.9.9.9")];
    let (hashes, ips) = vt_lookup_inputs(&dlls, &conns);
    assert_eq!(hashes, vec!["h1".to_string()]);
    assert_eq!(ips, vec!["8.8.8.8".to_string(), "9.9.9.9".to_string()]);
}

#[test]
fn live_report_is_scored() {
    let r = build_live_report(
        77,
        "x".to_string(),
        Some("/tmp/x".to_string()),
        Vec::new(),
        Some(1),
        Some("init".to_string()),
        Vec::new(),
        Vec::new(),
        None,
        None,
    );
    assert_eq!(r.pid, 77);
    assert_eq!(r.risk_score, 25);
    assert_eq!(r.risk_level, "LOW");
    assert_eq!(r.indicators.len(), 1);
    assert_eq!(r.tree_prefix, "");
    assert_eq!(r.depth, 0);
}

#[test]
fn live_static_analysis_size_limit() {
    assert!(static_analysis_wanted(None));
    assert!(static_analysis_wanted(Some(LIVE_STATIC_SIZE_LIMIT)));
    assert!(!static_analysis_wanted(Some(LIVE_STATIC_SIZE_LIMIT + 1)));
    assert_eq!(LIVE_STATIC_SIZE_LIMIT, 50_000_000);
}

#[test]
fn scan_caches_remember_values() {
    let mut c = ScanCaches::new();
    assert!(c.hashes.get("/bin/ls").is_none());
    c.hashes.insert("/bin/ls".to_string(), "abcd".to_string());
    c.hostnames.insert("8.8.8.8".to_string(), None);
    c.hostnames.insert("1.1.1.1".to_string(), Some("one.one.one.one".to_string()));
    assert_eq!(c.hashes.get("/bin/ls"), Some(&"abcd".to_string()));
    assert_eq!(c.hostnames.get("8.8.8.8"), Some(&None));
    assert_eq!(c.hostnames.len(), 2);
    c.hashes.insert("/bin/ls".to_string(), "ef".to_string());
    assert_eq!(c.hashes.get("/bin/ls"), Some(&"ef".to_string()));
    assert_eq!(c.hashes.len(), 1);
}

fn archive_member(out: &mut Vec<u8>, data: &[u8]) {
    let mut header = format!("{:<16}{:<12}{:<6}{:<6}{:<8}{:<10}", "/", "0", "0", "0", "644", data.len()).into_bytes();
    header.extend_from_slice(b"`\n");
    assert_eq!(header.len(), 60);
    out.extend_from_slice(&header);
    out.extend_from_slice(data);
}

#[test]
fn archives_and_short_files_are_not_signed() {
    let mut ar = b"!<arch>\n".to_vec();
    archive_member(&mut ar, &[0, 0, 0, 0]);
    archive_member(&mut ar, &[0, 0, 0, 0, 1, 0, 0, 0, 0, 0]);
    assert_eq!(ar.len(), 142);
    assert_eq!(check_authenticode_signature(Some(&ar)), (false, None));
    assert_eq!(check_authenticode_signature(Some(b"MZ")), (false, None));
    assert_eq!(check_authenticode_signature(Some(&[0x4d, 0x5a, 0, 0, 0, 0, 0, 0, 0, 0, 0, 0, 0, 0, 0, 0])), (false, None));
}

#[test]
fn field_splitting_uses_the_unicode_white_space_set() {
    let spaces: Vec<char> = (0u32..=0x10ffff).filter_map(char::from_u32).filter(|c| c.is_whitespace()).collect();
    assert_eq!(spaces.len(), 25);
    for c in (0u32..=0x10ffff).filter_map(char::from_u32) {
        let line = format!("a{}b", c);
        let expected = if c.is_whitespace() { 2 } else { 1 };
        assert_eq!(split_fields(&line).len(), expected, "char {:?}", c);
    }
}
