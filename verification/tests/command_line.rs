use mintaka::cli::{order_static_reports, output_format, run_mode, scan_accepts_size, OutputFormat, RunMode, SCAN_MAX_BYTES, SCAN_MIN_BYTES};
use mintaka::types::AnalysisReport;

fn report(file: &str, score: u32) -> AnalysisReport {
    AnalysisReport {
        file: file.to_string(),
        file_size: 100,
        sha256: String::new(),
        format: "ELF".to_string(),
        architecture: None,
        is_rust: false,
        rustc_version: None,
        rustc_commit_hash: None,
        dependencies: Vec::new(),
        risk_score: score,
        risk_level: "LOW".to_string(),
        indicators: Vec::new(),
        notes: Vec::new(),
        file_entropy_bits: 0,
        section_count: 0,
        compile_timestamp: None,
        entry_point: None,
        packer_hint: None,
        overlay_size: None,
        suspicious_imports: Vec::new(),
        sections: Vec::new(),
        iocs: Vec::new(),
        has_resources: false,
        resource_size: None,
        is_signed: false,
        signature_publisher: None,
    }
}

#[test]
fn dashboard_wins_over_other_modes() {
    assert_eq!(run_mode(true, true, true, true, true, true), RunMode::Dashboard);
    assert_eq!(run_mode(false, true, false, false, false, false), RunMode::Dashboard);
}

#[test]
fn watching_with_machine_output_streams() {
    assert_eq!(run_mode(false, true, true, true, false, false), RunMode::Stream);
    assert_eq!(run_mode(false, true, false, false, true, false), RunMode::Stream);
}

#[test]
fn live_then_path_then_nothing() {
    assert_eq!(run_mode(false, false, true, false, false, true), RunMode::Snapshot);
    assert_eq!(run_mode(false, false, false, false, true, true), RunMode::StaticScan);
    assert_eq!(run_mode(false, false, false, true, false, false), RunMode::NoTarget);
}

#[test]
fn json_wins_over_csv() {
    assert_eq!(output_format(true, true), OutputFormat::Json);
    assert_eq!(output_format(false, true), OutputFormat::Csv);
    assert_eq!(output_format(false, false), OutputFormat::Text);
}

#[test]
fn directory_scan_size_window() {
    assert!(!scan_accepts_size(SCAN_MIN_BYTES - 1));
    assert!(scan_accepts_size(SCAN_MIN_BYTES));
    assert!(scan_accepts_size(SCAN_MAX_BYTES));
    assert!(!scan_accepts_size(SCAN_MAX_BYTES + 1));
    assert!(!scan_accepts_size(0));
}

#[test]
fn static_reports_are_ordered_by_score_stably() {
    let ordered = order_static_reports(vec![report("a", 10), report("b", 90), report("c", 10), report("d", 50)]);
    let files: Vec<&str> = ordered.iter().map(|r| r.file.as_str()).collect();
    assert_eq!(files, vec!["b", "d", "a", "c"]);
}
