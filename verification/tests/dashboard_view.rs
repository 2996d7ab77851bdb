use mintaka::dashboard::{
    command_line_text, filter_key_label, focus_label, hash_tag, inspector_signature, inspector_title,
    module_badge, module_branch, module_dir_of, module_groups, padded_left, parent_line, process_row,
    risk_badge, score_line, socket_route, table_title, view_toggle_label, ModuleBadgeKind,
};
use mintaka::types::{AnalysisReport, LiveProcessReport, LoadedModule, NetworkConnection, VtProcessReport};

fn module(path: &str, suspicious: bool) -> LoadedModule {
    LoadedModule {
        name: path.rsplit('/').next().unwrap().to_string(),
        path: path.to_string(),
        sha256: None,
        is_suspicious_location: suspicious,
        is_signed: false,
        signature_publisher: None,
        is_unsigned_in_system_dir: false,
        vt_malicious_hits: None,
    }
}

fn report() -> LiveProcessReport {
    LiveProcessReport {
        pid: 4812,
        name: "powershell.exe".to_string(),
        exe_path: Some("C:\\Windows\\powershell.exe".to_string()),
        cmdline: vec!["powershell".to_string(), "-nop".to_string()],
        parent_pid: Some(100),
        parent_name: Some("explorer.exe".to_string()),
        loaded_dlls: vec![module("/usr/lib/a.so", false)],
        network_connections: Vec::new(),
        static_report: None,
        vt_report: Some(VtProcessReport { exe_positives: 1, exe_total: 60, malicious_dll_count: 0, malicious_ip_count: 0 }),
        risk_score: 7,
        risk_level: "NEEDS REVIEW".to_string(),
        indicators: Vec::new(),
        tree_prefix: "├── ".to_string(),
        depth: 1,
    }
}

#[test]
fn modules_are_grouped_by_directory_in_order() {
    let dlls = vec![
        module("/usr/lib/libc.so.6", false),
        module("/tmp/evil.so", true),
        module("/usr/lib/libm.so.6", false),
        module("/opt/app/lib.so", false),
    ];
    let groups = module_groups(&dlls);
    let shape: Vec<(String, Vec<usize>, bool)> =
        groups.iter().map(|g| (g.dir.clone(), g.members.clone(), g.suspicious)).collect();
    assert_eq!(
        shape,
        vec![
            ("/opt/app".to_string(), vec![3], false),
            ("/tmp".to_string(), vec![1], true),
            ("/usr/lib".to_string(), vec![0, 2], false),
        ]
    );
}

#[test]
fn module_groups_of_no_modules_is_empty() {
    assert!(module_groups(&[]).is_empty());
}

#[test]
fn root_path_is_listed_under_slash() {
    assert_eq!(module_dir_of("/"), "/");
    assert_eq!(module_dir_of("/lib/x.so"), "/lib");
}

#[test]
fn table_row_cells() {
    let r = report();
    let flat = process_row(&r, false);
    assert_eq!(flat.pid, "4812");
    assert_eq!(flat.name, "powershell.exe");
    assert_eq!(flat.score, "  7");
    assert_eq!(flat.risk, "REVIEW");
    assert_eq!(flat.connections, "0");
    assert_eq!(flat.modules, "1");
    assert_eq!(flat.vt, "1/60");
    assert_eq!(flat.path, "C:\\Windows\\powershell.exe");
    let tree = process_row(&r, true);
    assert_eq!(tree.name, "├── powershell.exe");
}

#[test]
fn badges_and_padding() {
    assert_eq!(risk_badge("HIGH RISK"), "HIGH");
    assert_eq!(risk_badge("LOW"), "LOW");
    assert_eq!(risk_badge("anything"), "LOW");
    assert_eq!(padded_left("100", 3), "100");
    assert_eq!(padded_left("42", 3), " 42");
    assert_eq!(padded_left("12345", 3), "12345");
}

#[test]
fn titles_follow_the_view() {
    assert_eq!(table_title(12, true), " Process Execution Tree (12) ");
    assert_eq!(table_title(3, false), " Processes sorted by Risk (3) ");
    assert_eq!(inspector_title(0), " Process Inspector [Tab to switch focus] ");
    assert_eq!(inspector_title(4), " Process Inspector (Line 5) [Tab to switch focus] ");
    assert_eq!(inspector_title(u16::MAX), " Process Inspector (Line 65536) [Tab to switch focus] ");
}

#[test]
fn inspector_lines() {
    let mut r = report();
    assert_eq!(parent_line(&r), Some("explorer.exe (PID: 100)".to_string()));
    r.parent_pid = None;
    assert_eq!(parent_line(&r), Some("explorer.exe (PID: 0)".to_string()));
    r.parent_name = None;
    assert_eq!(parent_line(&r), None);
    assert_eq!(command_line_text(&r), "powershell -nop");
    assert_eq!(score_line(&r), "7/100 [NEEDS REVIEW]");
}

#[test]
fn inspector_signature_line() {
    let mut st = AnalysisReport {
        file: "x".to_string(),
        file_size: 1,
        sha256: String::new(),
        format: "PE".to_string(),
        architecture: None,
        is_rust: false,
        rustc_version: None,
        rustc_commit_hash: None,
        dependencies: Vec::new(),
        risk_score: 0,
        risk_level: "LOW".to_string(),
        indicators: Vec::new(),
        notes: Vec::new(),
        file_entropy_bits: 0,
        section_count: 0,
        compile_timestamp: None,
        entry_point: None,
        packer_hint: None,
        overlay_size: None,
        suspicious_imports: Vec::new(),
        sections: Vec::new(),
        iocs: Vec::new(),
        has_resources: false,
        resource_size: None,
        is_signed: true,
        signature_publisher: None,
    };
    assert_eq!(inspector_signature(&st), "Signed (Valid)");
    st.signature_publisher = Some("Microsoft Corporation".to_string());
    assert_eq!(inspector_signature(&st), "Signed (Microsoft Corporation)");
    st.is_signed = false;
    assert_eq!(inspector_signature(&st), "Un-signed / No Digital Signature");
}

#[test]
fn socket_route_text() {
    let c = NetworkConnection {
        local_addr: "10.0.0.2:5000".to_string(),
        remote_addr: "1.2.3.4:80".to_string(),
        remote_ip: "1.2.3.4".to_string(),
        remote_port: 80,
        remote_hostname: None,
        protocol: "TCP".to_string(),
        state: "Established".to_string(),
        vt_reputation: None,
    };
    assert_eq!(socket_route(&c), "10.0.0.2:5000 ──> 1.2.3.4:80");
}

#[test]
fn module_lines() {
    assert_eq!(module_branch(true), "    └── ");
    assert_eq!(module_branch(false), "    ├── ");
    let hash = "0123456789abcdef".repeat(4);
    assert_eq!(hash_tag(&Some(hash)), " [0123456789ab]");
    assert_eq!(hash_tag(&None), "");
    let mut m = module("/usr/lib/x.so", false);
    assert_eq!(module_badge(&m), (ModuleBadgeKind::Plain, String::new()));
    m.is_signed = true;
    assert_eq!(module_badge(&m), (ModuleBadgeKind::Signed, " [Signed]".to_string()));
    m.signature_publisher = Some("Apple Inc.".to_string());
    assert_eq!(module_badge(&m), (ModuleBadgeKind::Signed, " [Apple Inc.]".to_string()));
    m.is_unsigned_in_system_dir = true;
    assert_eq!(module_badge(&m), (ModuleBadgeKind::UnsignedSystem, " [UNSIGNED SYSTEM DLL]".to_string()));
}

#[test]
fn footer_labels() {
    assert_eq!(focus_label(0), "Table (Scroll Proc)");
    assert_eq!(focus_label(1), "Inspector (Scroll Info)");
    assert_eq!(view_toggle_label(true), "Flat View  ");
    assert_eq!(view_toggle_label(false), "Tree View  ");
    assert_eq!(filter_key_label(""), "Filter  ");
    assert_eq!(filter_key_label("ssh"), "Change Filter  ");
}
