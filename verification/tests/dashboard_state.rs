use mintaka::tui::{TuiApp, TuiCommand, TuiKey};
use mintaka::types::LiveProcessReport;

fn process(pid: u32, name: &str, parent: Option<u32>, score: u32) -> LiveProcessReport {
    LiveProcessReport {
        pid,
        name: name.to_string(),
        exe_path: Some(format!("/usr/bin/{}", name)),
        cmdline: Vec::new(),
        parent_pid: parent,
        parent_name: None,
        loaded_dlls: Vec::new(),
        network_connections: Vec::new(),
        static_report: None,
        vt_report: None,
        risk_score: score,
        risk_level: "LOW".to_string(),
        indicators: Vec::new(),
        tree_prefix: String::new(),
        depth: 0,
    }
}

fn sample() -> Vec<LiveProcessReport> {
    vec![
        process(1, "systemd", None, 5),
        process(200, "sshd", Some(1), 40),
        process(300, "bash", Some(200), 70),
    ]
}

fn pids(app: &TuiApp) -> Vec<u32> {
    app.processes.iter().map(|p| p.pid).collect()
}

#[test]
fn new_dashboard_starts_empty() {
    let app = TuiApp::new(2);
    assert!(app.processes.is_empty());
    assert_eq!(app.selected, Some(0));
    assert_eq!(app.refresh_interval_secs, 2);
    assert!(app.refresh_due(2));
    assert!(!app.refresh_due(1));
}

#[test]
fn rows_are_sorted_by_risk_outside_tree_view() {
    let mut app = TuiApp::new(2);
    app.fetch_system_processes(sample());
    assert_eq!(pids(&app), vec![300, 200, 1]);
    assert_eq!(app.selected, Some(0));
}

#[test]
fn selection_wraps_both_ways() {
    let mut app = TuiApp::new(2);
    app.fetch_system_processes(sample());
    app.previous();
    assert_eq!(app.selected, Some(2));
    app.next();
    assert_eq!(app.selected, Some(0));
    app.next();
    app.next();
    assert_eq!(app.selected, Some(2));
    app.next();
    assert_eq!(app.selected, Some(0));
}

#[test]
fn moving_resets_the_inspector_scroll() {
    let mut app = TuiApp::new(2);
    app.fetch_system_processes(sample());
    app.scroll_detail_down(7);
    assert_eq!(app.detail_scroll, 7);
    app.next();
    assert_eq!(app.detail_scroll, 0);
}

#[test]
fn empty_list_has_no_selection_and_moves_do_nothing() {
    let mut app = TuiApp::new(2);
    app.fetch_system_processes(Vec::new());
    assert_eq!(app.selected, None);
    app.next();
    app.previous();
    assert_eq!(app.selected, None);
}

#[test]
fn scrolling_saturates() {
    let mut app = TuiApp::new(2);
    app.scroll_detail_up(3);
    assert_eq!(app.detail_scroll, 0);
    app.scroll_detail_down(u16::MAX);
    app.scroll_detail_down(5);
    assert_eq!(app.detail_scroll, u16::MAX);
}

#[test]
fn filter_is_typed_applied_and_cleared() {
    let mut app = TuiApp::new(2);
    app.fetch_system_processes(sample());
    assert_eq!(app.handle_key(TuiKey::Char('/', false)), TuiCommand::Continue);
    assert!(app.is_filtering);
    for ch in "SSH".chars() {
        app.handle_key(TuiKey::Char(ch, false));
    }
    assert_eq!(app.filter, "SSH");
    assert_eq!(pids(&app), vec![200]);
    app.handle_key(TuiKey::Backspace);
    assert_eq!(app.filter, "SS");
    app.handle_key(TuiKey::Enter);
    assert!(!app.is_filtering);
    assert_eq!(app.filter, "SS");
    app.handle_key(TuiKey::Char('c', false));
    assert_eq!(app.filter, "");
    assert_eq!(pids(&app), vec![300, 200, 1]);
}

#[test]
fn escape_while_typing_clears_the_filter() {
    let mut app = TuiApp::new(2);
    app.fetch_system_processes(sample());
    app.handle_key(TuiKey::Char('/', false));
    app.handle_key(TuiKey::Char('3', false));
    assert_eq!(pids(&app), vec![300]);
    assert_eq!(app.handle_key(TuiKey::Esc), TuiCommand::Continue);
    assert!(!app.is_filtering);
    assert_eq!(pids(&app), vec![300, 200, 1]);
}

#[test]
fn filter_matches_pid_and_path() {
    let mut app = TuiApp::new(2);
    app.fetch_system_processes(sample());
    app.handle_key(TuiKey::Char('/', false));
    for ch in "/usr/bin/ba".chars() {
        app.handle_key(TuiKey::Char(ch, false));
    }
    assert_eq!(pids(&app), vec![300]);
}

#[test]
fn quit_and_refresh_keys() {
    let mut app = TuiApp::new(2);
    app.fetch_system_processes(sample());
    assert_eq!(app.handle_key(TuiKey::Char('r', false)), TuiCommand::Refresh);
    assert_eq!(app.handle_key(TuiKey::Char('q', false)), TuiCommand::Quit);
    assert_eq!(app.handle_key(TuiKey::Char('c', true)), TuiCommand::Quit);
    assert_eq!(app.handle_key(TuiKey::Esc), TuiCommand::Quit);
    assert_eq!(app.handle_key(TuiKey::Other), TuiCommand::Continue);
}

#[test]
fn tree_view_keeps_tree_order() {
    let mut app = TuiApp::new(2);
    let mut raw = sample();
    mintaka::tree::build_process_tree_hierarchy(&mut raw);
    app.fetch_system_processes(raw);
    app.handle_key(TuiKey::Char('t', false));
    assert!(app.show_tree_view);
    assert_eq!(pids(&app), vec![1, 200, 300]);
    app.handle_key(TuiKey::Char('t', false));
    assert_eq!(pids(&app), vec![300, 200, 1]);
}

#[test]
fn arrows_move_in_the_table_and_scroll_in_the_inspector() {
    let mut app = TuiApp::new(2);
    app.fetch_system_processes(sample());
    app.handle_key(TuiKey::Down);
    assert_eq!(app.selected, Some(1));
    app.handle_key(TuiKey::Char('k', false));
    assert_eq!(app.selected, Some(0));
    app.handle_key(TuiKey::Tab);
    assert_eq!(app.active_panel, 1);
    app.handle_key(TuiKey::Down);
    assert_eq!(app.selected, Some(0));
    assert_eq!(app.detail_scroll, 2);
    app.handle_key(TuiKey::PageDown);
    assert_eq!(app.detail_scroll, 7);
    app.handle_key(TuiKey::Char('u', false));
    assert_eq!(app.detail_scroll, 2);
    app.handle_key(TuiKey::Tab);
    assert_eq!(app.active_panel, 0);
}

#[test]
fn next_then_previous_returns_to_the_same_row() {
    let mut app = TuiApp::new(2);
    app.fetch_system_processes(sample());
    for start in 0..3usize {
        app.selected = Some(start);
        app.next();
        app.previous();
        assert_eq!(app.selected, Some(start));
    }
}

#[test]
fn recomputing_rows_keeps_the_selection() {
    let mut app = TuiApp::new(2);
    app.fetch_system_processes(sample());
    app.next();
    app.apply_filter_and_sort();
    let first = app.selected;
    app.apply_filter_and_sort();
    assert_eq!(app.selected, first);
    assert_eq!(first, Some(1));
    app.selected = Some(9);
    app.apply_filter_and_sort();
    assert_eq!(app.selected, Some(0));
}
