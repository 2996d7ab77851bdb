use mintaka::live::order_live_reports;
use mintaka::tree::build_process_tree_hierarchy;
use mintaka::types::LiveProcessReport;

fn process(pid: u32, parent: Option<u32>, score: u32) -> LiveProcessReport {
    LiveProcessReport {
        pid,
        name: format!("proc{}", pid),
        exe_path: None,
        cmdline: Vec::new(),
        parent_pid: parent,
        parent_name: None,
        loaded_dlls: Vec::new(),
        network_connections: Vec::new(),
        static_report: None,
        vt_report: None,
        risk_score: score,
        risk_level: "LOW".to_string(),
        indicators: Vec::new(),
        tree_prefix: String::new(),
        depth: 0,
    }
}

fn layout(v: &[LiveProcessReport]) -> Vec<(u32, String, usize)> {
    v.iter().map(|r| (r.pid, r.tree_prefix.clone(), r.depth)).collect()
}

#[test]
fn tree_is_walked_depth_first_with_prefixes() {
    let mut reports = vec![process(1, None, 0), process(2, Some(1), 0), process(3, Some(1), 0), process(4, Some(2), 0)];
    build_process_tree_hierarchy(&mut reports);
    assert_eq!(
        layout(&reports),
        vec![
            (1, "".to_string(), 0),
            (2, "├── ".to_string(), 1),
            (4, "│   └── ".to_string(), 2),
            (3, "└── ".to_string(), 1),
        ]
    );
}

#[test]
fn deeper_levels_extend_the_prefix() {
    let mut reports = vec![
        process(10, None, 0),
        process(11, Some(10), 0),
        process(12, Some(11), 0),
        process(13, Some(12), 0),
    ];
    build_process_tree_hierarchy(&mut reports);
    assert_eq!(
        layout(&reports),
        vec![
            (10, "".to_string(), 0),
            (11, "└── ".to_string(), 1),
            (12, "    └── ".to_string(), 2),
            (13, "        └── ".to_string(), 3),
        ]
    );
}

#[test]
fn parents_outside_the_scan_make_roots() {
    let mut reports = vec![process(5, Some(999), 0), process(6, None, 0), process(7, Some(5), 0)];
    build_process_tree_hierarchy(&mut reports);
    assert_eq!(
        layout(&reports),
        vec![(5, "".to_string(), 0), (7, "└── ".to_string(), 1), (6, "".to_string(), 0)]
    );
}

#[test]
fn processes_on_a_parent_cycle_follow_unchanged() {
    let mut reports = vec![process(1, Some(2), 0), process(2, Some(1), 0), process(3, None, 0)];
    build_process_tree_hierarchy(&mut reports);
    assert_eq!(
        layout(&reports),
        vec![(3, "".to_string(), 0), (1, "".to_string(), 0), (2, "".to_string(), 0)]
    );
}

#[test]
fn children_follow_their_parent() {
    let mut reports = vec![
        process(1, None, 0),
        process(2, Some(1), 0),
        process(3, Some(2), 0),
        process(4, Some(1), 0),
        process(5, Some(4), 0),
    ];
    build_process_tree_hierarchy(&mut reports);
    for (k, r) in reports.iter().enumerate() {
        if r.depth > 0 {
            let parent = reports[..k].iter().rev().find(|p| p.depth + 1 == r.depth).unwrap();
            assert_eq!(r.parent_pid, Some(parent.pid));
        }
    }
}

#[test]
fn empty_list_stays_empty() {
    let mut reports: Vec<LiveProcessReport> = Vec::new();
    build_process_tree_hierarchy(&mut reports);
    assert!(reports.is_empty());
}

#[test]
fn live_reports_are_sorted_by_score_after_layout() {
    let reports = vec![process(1, None, 10), process(2, Some(1), 80), process(3, None, 10), process(4, Some(3), 50)];
    let ordered = order_live_reports(reports);
    let pids: Vec<u32> = ordered.iter().map(|r| r.pid).collect();
    assert_eq!(pids, vec![2, 4, 1, 3]);
    assert_eq!(ordered[0].tree_prefix, "└── ");
    assert_eq!(ordered[0].depth, 1);
}

#[test]
fn repeated_pid_is_listed_once_with_its_last_report() {
    let mut first = process(1, None, 0);
    first.name = "first".to_string();
    let mut second = process(1, None, 0);
    second.name = "second".to_string();
    let mut reports = vec![first, process(2, Some(1), 0), second];
    build_process_tree_hierarchy(&mut reports);
    assert_eq!(layout(&reports), vec![(1, "".to_string(), 0), (2, "└── ".to_string(), 1)]);
    assert_eq!(reports[0].name, "second");
}

#[test]
fn repeated_pid_off_the_tree_keeps_its_last_report_whole() {
    let mut a = process(7, Some(8), 0);
    a.name = "a".to_string();
    let mut b = process(7, Some(8), 0);
    b.name = "b".to_string();
    b.tree_prefix = "x".to_string();
    b.depth = 4;
    let mut reports = vec![a, process(8, Some(7), 0), b];
    build_process_tree_hierarchy(&mut reports);
    assert_eq!(layout(&reports), vec![(7, "x".to_string(), 4), (8, "".to_string(), 0)]);
    assert_eq!(reports[0].name, "b");
}
