use mintaka::risk::{calculate_live_risk_score, is_external_ip, in_user_writable_location, risk_level_for};
use mintaka::types::{AnalysisReport, LoadedModule, NetworkConnection, VtIpReputation, VtProcessReport};

fn module(name: &str, suspicious: bool, unsigned_system: bool) -> LoadedModule {
    LoadedModule {
        name: name.to_string(),
        path: format!("/lib/{}", name),
        sha256: None,
        is_suspicious_location: suspicious,
        is_signed: !unsigned_system,
        signature_publisher: None,
        is_unsigned_in_system_dir: unsigned_system,
        vt_malicious_hits: None,
    }
}

fn connection(ip: &str, port: u16, votes: Option<u32>) -> NetworkConnection {
    NetworkConnection {
        local_addr: "10.0.0.2:50000".to_string(),
        remote_addr: format!("{}:{}", ip, port),
        remote_ip: ip.to_string(),
        remote_port: port,
        remote_hostname: None,
        protocol: "TCP".to_string(),
        state: "Established".to_string(),
        vt_reputation: votes.map(|v| VtIpReputation {
            ip: ip.to_string(),
            malicious_votes: v,
            harmless_votes: 0,
            country: None,
            owner: None,
        }),
    }
}

fn static_report(score: u32, indicators: &[&str]) -> AnalysisReport {
    AnalysisReport {
        file: "/usr/bin/sample".to_string(),
        file_size: 1024,
        sha256: "ab".repeat(32),
        format: "ELF".to_string(),
        architecture: Some("x86_64".to_string()),
        is_rust: false,
        rustc_version: None,
        rustc_commit_hash: None,
        dependencies: Vec::new(),
        risk_score: score,
        risk_level: risk_level_for(score),
        indicators: indicators.iter().map(|s| s.to_string()).collect(),
        notes: Vec::new(),
        file_entropy_bits: 5.5f64.to_bits(),
        section_count: 3,
        compile_timestamp: None,
        entry_point: None,
        packer_hint: None,
        overlay_size: None,
        suspicious_imports: Vec::new(),
        sections: Vec::new(),
        iocs: Vec::new(),
        has_resources: false,
        resource_size: None,
        is_signed: false,
        signature_publisher: None,
    }
}

#[test]
fn clean_process_scores_zero() {
    let (score, level, inds) =
        calculate_live_risk_score("bash", Some("/usr/bin/bash"), &[], None, &[], &[], None, None);
    assert_eq!(score, 0);
    assert_eq!(level, "LOW");
    assert!(inds.is_empty());
}

#[test]
fn temporary_directory_adds_twenty_five() {
    let (score, level, inds) =
        calculate_live_risk_score("x", Some("/tmp/x"), &[], None, &[], &[], None, None);
    assert_eq!(score, 25);
    assert_eq!(level, "LOW");
    assert_eq!(inds, vec!["Process running from temporary/user-writable directory: /tmp/x".to_string()]);
}

#[test]
fn windows_temp_path_matches_case_insensitively() {
    let (score, _, _) = calculate_live_risk_score(
        "a.exe",
        Some("C:\\Users\\Bob\\AppData\\Local\\a.exe"),
        &[],
        None,
        &[],
        &[],
        None,
        None,
    );
    assert_eq!(score, 25);
}

#[test]
fn masquerading_system_process_adds_thirty_five() {
    let path = "C:\\ProgramData\\svchost.exe";
    let (score, level, inds) =
        calculate_live_risk_score("svchost.exe", Some(path), &[], None, &[], &[], None, None);
    assert_eq!(score, 35);
    assert_eq!(level, "LOW");
    assert_eq!(inds, vec![format!("System process masquerading outside System32: {}", path)]);
}

#[test]
fn system_process_in_system32_is_not_flagged() {
    let (score, _, inds) = calculate_live_risk_score(
        "svchost.exe",
        Some("C:\\Windows\\System32\\svchost.exe"),
        &[],
        None,
        &[],
        &[],
        None,
        None,
    );
    assert_eq!(score, 0);
    assert!(inds.is_empty());
}

#[test]
fn lolbin_under_office_parent_adds_thirty() {
    let (score, _, inds) = calculate_live_risk_score(
        "powershell.exe",
        None,
        &[],
        Some("WINWORD.EXE"),
        &[],
        &[],
        None,
        None,
    );
    assert_eq!(score, 30);
    assert_eq!(
        inds,
        vec!["LOLBin process 'powershell.exe' spawned by unexpected parent 'WINWORD.EXE'".to_string()]
    );
}

#[test]
fn lolbin_under_ordinary_parent_is_not_flagged() {
    let (score, _, _) =
        calculate_live_risk_score("bash", None, &[], Some("sshd"), &[], &[], None, None);
    assert_eq!(score, 0);
}

#[test]
fn encoded_command_line_adds_fifteen() {
    let cmd = vec!["powershell".to_string(), "-Enc".to_string(), "SQBFAFgA".to_string()];
    let (score, _, inds) = calculate_live_risk_score("p", None, &cmd, None, &[], &[], None, None);
    assert_eq!(score, 15);
    assert_eq!(inds, vec!["Suspicious command-line arguments (download/encoded payload)".to_string()]);
}

#[test]
fn module_points_are_capped() {
    let dlls = vec![
        module("a.so", true, false),
        module("b.so", true, false),
        module("c.so", true, false),
        module("libsys.so", false, true),
    ];
    let (score, _, inds) = calculate_live_risk_score("p", None, &[], None, &dlls, &[], None, None);
    // three suspicious modules: 45 capped at 30; one unsigned system module: 20
    assert_eq!(score, 50);
    assert_eq!(
        inds,
        vec![
            "Un-signed DLL loaded in system directory: libsys.so".to_string(),
            "3 loaded module(s) from suspicious directory".to_string(),
        ]
    );
}

#[test]
fn suspicious_port_and_flagged_address() {
    let conns = vec![connection("8.8.8.8", 4444, Some(2))];
    let (score, level, inds) =
        calculate_live_risk_score("p", None, &[], None, &[], &conns, None, None);
    assert_eq!(score, 53);
    assert_eq!(level, "NEEDS REVIEW");
    assert_eq!(
        inds,
        vec![
            "Active connection to suspicious port: 8.8.8.8:4444".to_string(),
            "Connection to VirusTotal malicious IP: 8.8.8.8 (2 flags)".to_string(),
        ]
    );
}

#[test]
fn loopback_and_unset_addresses_do_not_count() {
    let conns = vec![
        connection("127.0.0.1", 4444, Some(9)),
        connection("-", 0, None),
        connection("0.0.0.0", 4444, None),
    ];
    let (score, _, inds) = calculate_live_risk_score("p", None, &[], None, &[], &conns, None, None);
    assert_eq!(score, 0);
    assert!(inds.is_empty());
}

#[test]
fn external_connections_are_capped_at_fifteen() {
    let conns: Vec<NetworkConnection> =
        (1..=7).map(|i| connection(&format!("1.1.1.{}", i), 443, None)).collect();
    let (score, _, _) = calculate_live_risk_score("p", None, &[], None, &[], &conns, None, None);
    assert_eq!(score, 15);
}

#[test]
fn virustotal_figures_raise_the_score() {
    let vt = VtProcessReport { exe_positives: 12, exe_total: 70, malicious_dll_count: 3, malicious_ip_count: 0 };
    let (score, level, inds) =
        calculate_live_risk_score("p", None, &[], None, &[], &[], None, Some(&vt));
    assert_eq!(score, 90);
    assert_eq!(level, "HIGH RISK");
    assert_eq!(
        inds,
        vec![
            "Executable flagged by VirusTotal: 12/70 engines".to_string(),
            "3 loaded DLL(s) flagged by VirusTotal".to_string(),
        ]
    );
}

#[test]
fn static_report_contributes_forty_percent_and_unique_indicators() {
    let st = static_report(80, &["Packed", "Packed", "RWX section"]);
    let (score, _, inds) = calculate_live_risk_score("p", None, &[], None, &[], &[], Some(&st), None);
    assert_eq!(score, 32);
    assert_eq!(
        inds,
        vec!["High static risk score (80)".to_string(), "Packed".to_string(), "RWX section".to_string()]
    );
}

#[test]
fn static_contribution_rounds_down() {
    let st = static_report(99, &[]);
    let (score, _, _) = calculate_live_risk_score("p", None, &[], None, &[], &[], Some(&st), None);
    assert_eq!(score, (99.0f64 * 0.4) as u32);
    assert_eq!(score, 39);
}

#[test]
fn score_is_capped_at_one_hundred() {
    let vt = VtProcessReport { exe_positives: 40, exe_total: 70, malicious_dll_count: 5, malicious_ip_count: 0 };
    let conns = vec![connection("8.8.8.8", 4444, Some(3))];
    let (score, level, _) = calculate_live_risk_score(
        "svchost.exe",
        Some("/tmp/svchost.exe"),
        &[],
        None,
        &[],
        &conns,
        None,
        Some(&vt),
    );
    assert_eq!(score, 100);
    assert_eq!(level, "HIGH RISK");
}

#[test]
fn risk_level_boundaries() {
    assert_eq!(risk_level_for(44), "LOW");
    assert_eq!(risk_level_for(45), "NEEDS REVIEW");
    assert_eq!(risk_level_for(74), "NEEDS REVIEW");
    assert_eq!(risk_level_for(75), "HIGH RISK");
    assert_eq!(risk_level_for(100), "HIGH RISK");
}

#[test]
fn writable_locations_and_external_addresses() {
    assert!(in_user_writable_location("/var/tmp/x"));
    assert!(in_user_writable_location("/dev/shm/x"));
    assert!(!in_user_writable_location("/usr/bin/x"));
    assert!(is_external_ip("8.8.8.8"));
    assert!(!is_external_ip("127.0.0.53"));
    assert!(!is_external_ip("-"));
    assert!(!is_external_ip("0.0.0.0"));
}

#[test]
fn score_and_level_ignore_letter_case() {
    let cmd = vec!["PowerShell".to_string(), "-EncodedCommand".to_string()];
    let conns = vec![connection("8.8.8.8", 4444, None)];
    let mixed = calculate_live_risk_score(
        "PowerShell.EXE",
        Some("C:\\Users\\Public\\PowerShell.EXE"),
        &cmd,
        Some("WinWord.exe"),
        &[],
        &conns,
        None,
        None,
    );
    let lower = calculate_live_risk_score(
        "powershell.exe",
        Some("c:\\users\\public\\powershell.exe"),
        &cmd,
        Some("winword.exe"),
        &[],
        &conns,
        None,
        None,
    );
    assert_eq!((mixed.0, &mixed.1), (lower.0, &lower.1));
    assert_eq!(mixed.0, 25 + 30 + 15 + 20 + 3);
    assert_eq!(mixed.1, "HIGH RISK");
}
