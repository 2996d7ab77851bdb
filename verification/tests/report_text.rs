use mintaka::report::{
    connection_line, csv_field, flagged_votes, is_listed_connection, listed_vt_hits_label, live_csv,
    live_csv_row, resources_label, risk_class, short_process_name, signature_label, static_csv,
    static_csv_row, tally_risk_levels, vt_hits_label, RiskClass,
};
use mintaka::types::{AnalysisReport, LiveProcessReport, NetworkConnection, VtIpReputation, VtProcessReport};

fn static_report(file: &str) -> AnalysisReport {
    AnalysisReport {
        file: file.to_string(),
        file_size: 4096,
        sha256: "00ff".to_string(),
        format: "PE32+".to_string(),
        architecture: None,
        is_rust: true,
        rustc_version: None,
        rustc_commit_hash: None,
        dependencies: Vec::new(),
        risk_score: 57,
        risk_level: "NEEDS REVIEW".to_string(),
        indicators: Vec::new(),
        notes: Vec::new(),
        file_entropy_bits: 7.25f64.to_bits(),
        section_count: 5,
        compile_timestamp: None,
        entry_point: None,
        packer_hint: Some("UPX, v3".to_string()),
        overlay_size: None,
        suspicious_imports: Vec::new(),
        sections: Vec::new(),
        iocs: Vec::new(),
        has_resources: true,
        resource_size: Some(2048),
        is_signed: false,
        signature_publisher: None,
    }
}

fn live_report(pid: u32, name: &str, level: &str) -> LiveProcessReport {
    LiveProcessReport {
        pid,
        name: name.to_string(),
        exe_path: None,
        cmdline: Vec::new(),
        parent_pid: None,
        parent_name: None,
        loaded_dlls: Vec::new(),
        network_connections: Vec::new(),
        static_report: None,
        vt_report: None,
        risk_score: 0,
        risk_level: level.to_string(),
        indicators: Vec::new(),
        tree_prefix: String::new(),
        depth: 0,
    }
}

fn connection(ip: &str, votes: Option<u32>) -> NetworkConnection {
    NetworkConnection {
        local_addr: "10.0.0.2:5000".to_string(),
        remote_addr: format!("{}:443", ip),
        remote_ip: ip.to_string(),
        remote_port: 443,
        remote_hostname: None,
        protocol: "TCP".to_string(),
        state: "Established".to_string(),
        vt_reputation: votes.map(|v| VtIpReputation {
            ip: ip.to_string(),
            malicious_votes: v,
            harmless_votes: 1,
            country: None,
            owner: None,
        }),
    }
}

#[test]
fn csv_fields_are_quoted_only_when_needed() {
    assert_eq!(csv_field("plain"), "plain");
    assert_eq!(csv_field(""), "");
    assert_eq!(csv_field("a,b"), "\"a,b\"");
    assert_eq!(csv_field("say \"hi\""), "\"say \"\"hi\"\"\"");
    assert_eq!(csv_field("two\nlines"), "\"two\nlines\"");
}

#[test]
fn quoted_field_reads_back() {
    let written = "x,\"y\",z";
    let f = csv_field(written);
    assert!(f.starts_with('"') && f.ends_with('"'));
    let inner = &f[1..f.len() - 1];
    assert_eq!(inner.replace("\"\"", "\""), written);
}

#[test]
fn resources_and_signature_labels() {
    assert_eq!(resources_label(true, Some(2048)), "Yes (2048 bytes)");
    assert_eq!(resources_label(true, None), "Yes");
    assert_eq!(resources_label(false, Some(9)), "No");
    assert_eq!(signature_label(true, &Some("Google LLC".to_string())), "Google LLC");
    assert_eq!(signature_label(true, &None), "Valid");
    assert_eq!(signature_label(false, &Some("x".to_string())), "Un-signed");
}

#[test]
fn static_row_uses_file_name_and_quotes() {
    let r = static_report("/samples/dropper.exe");
    assert_eq!(
        static_csv_row(&r, "7.25"),
        "dropper.exe,4096,00ff,PE32+,-,57,NEEDS REVIEW,YES,\"UPX, v3\",Yes (2048 bytes),7.25,5"
    );
}

#[test]
fn static_file_has_header_and_one_line_per_report() {
    let a = static_report("/a/one");
    let b = static_report("/b/two");
    let text = static_csv(&[a, b], &["1.00".to_string(), "2.50".to_string()]);
    let lines: Vec<&str> = text.lines().collect();
    assert_eq!(
        lines[0],
        "file,size,sha256,format,architecture,risk_score,risk_level,is_rust,packer,resources,entropy,sections"
    );
    assert_eq!(lines.len(), 3);
    assert!(lines[1].starts_with("one,4096,"));
    assert!(lines[2].starts_with("two,4096,"));
    assert!(lines[2].ends_with(",2.50,5"));
    assert!(text.ends_with('\n'));
}

#[test]
fn live_row_joins_indicators_and_shows_vt() {
    let mut r = live_report(42, "evil, inc", "HIGH RISK");
    r.exe_path = Some("/tmp/evil".to_string());
    r.risk_score = 88;
    r.indicators = vec!["a".to_string(), "b".to_string()];
    r.vt_report = Some(VtProcessReport { exe_positives: 3, exe_total: 0, malicious_dll_count: 0, malicious_ip_count: 0 });
    r.network_connections = vec![connection("8.8.8.8", None)];
    assert_eq!(live_csv_row(&r), "42,\"evil, inc\",/tmp/evil,88,HIGH RISK,1,0,3/0,a | b");
}

#[test]
fn live_file_without_reports_is_the_header() {
    assert_eq!(
        live_csv(&[]),
        "pid,name,exe_path,risk_score,risk_level,network_connections,loaded_dlls,vt_exe_hits,indicators\n"
    );
}

#[test]
fn vt_columns_differ_between_listing_and_csv() {
    let zero_total = Some(VtProcessReport { exe_positives: 0, exe_total: 0, malicious_dll_count: 0, malicious_ip_count: 0 });
    let scanned = Some(VtProcessReport { exe_positives: 2, exe_total: 70, malicious_dll_count: 0, malicious_ip_count: 0 });
    assert_eq!(vt_hits_label(&zero_total), "0/0");
    assert_eq!(listed_vt_hits_label(&zero_total), "-");
    assert_eq!(listed_vt_hits_label(&scanned), "2/70");
    assert_eq!(vt_hits_label(&None), "-");
}

#[test]
fn risk_classes_and_tally() {
    assert_eq!(risk_class("HIGH RISK"), RiskClass::High);
    assert_eq!(risk_class("NEEDS REVIEW"), RiskClass::Review);
    assert_eq!(risk_class("LOW"), RiskClass::Low);
    assert_eq!(risk_class("high risk"), RiskClass::Low);
    let rs = vec![
        live_report(1, "a", "HIGH RISK"),
        live_report(2, "b", "LOW"),
        live_report(3, "c", "NEEDS REVIEW"),
        live_report(4, "d", "HIGH RISK"),
        live_report(5, "e", "other"),
    ];
    let t = tally_risk_levels(&rs);
    assert_eq!((t.high, t.review, t.low), (2, 1, 2));
    assert_eq!(t.high + t.review + t.low, rs.len());
}

#[test]
fn long_names_are_shortened() {
    assert_eq!(short_process_name("a_very_long_process_name_here"), "a_very_long_process...");
    assert_eq!(short_process_name("exactly_twenty_two_chr"), "exactly_twenty_two_chr");
    assert_eq!(short_process_name("sshd"), "sshd");
}

#[test]
fn listed_connections_skip_loopback_and_unset() {
    assert!(is_listed_connection(&connection("8.8.8.8", None)));
    assert!(!is_listed_connection(&connection("127.0.0.1", None)));
    assert!(!is_listed_connection(&connection("-", None)));
    assert_eq!(connection_line(&connection("8.8.8.8", None)), "10.0.0.2:5000 -> 8.8.8.8:443");
    assert_eq!(flagged_votes(&connection("8.8.8.8", Some(4))), Some(4));
    assert_eq!(flagged_votes(&connection("8.8.8.8", Some(0))), None);
    assert_eq!(flagged_votes(&connection("8.8.8.8", None)), None);
}
