//! State of the interactive dashboard: the process list it shows (filtered
//! and, outside tree view, sorted by risk), the selected row, the inspector
//! scroll, and how each key changes them.

use vstd::prelude::*;
use vstd::string::*;
use crate::ranking::{lemma_sort_by_rank_map, sort_by_rank, sort_by_risk};
use crate::text::{decimal, decimal_string, has_substring, lowercase, str_contains, to_lowercase};
use crate::tree::report_views;
use crate::types::{LiveProcessReport, LiveProcessReportView};

verus! {

/// A process matches a (lowercased) filter query by name, pid or path.
pub open spec fn process_matches(p: LiveProcessReportView, query: Seq<char>) -> bool {
    ||| has_substring(lowercase(p.name@), query)
    ||| has_substring(decimal(p.pid as nat), query)
    ||| match p.exe_path {
        Some(path) => has_substring(lowercase(path@), query),
        None => false,
    }
}

/// The processes that pass a filter: all of them when it is empty.
pub open spec fn filtered(raw: Seq<LiveProcessReportView>, filter: Seq<char>) -> Seq<LiveProcessReportView> {
    if filter.len() == 0 {
        raw
    } else {
        raw.filter(|p: LiveProcessReportView| process_matches(p, lowercase(filter)))
    }
}

/// The rows the dashboard shows: the filtered processes, sorted by risk
/// unless the tree view is on.
pub open spec fn shown(raw: Seq<LiveProcessReportView>, filter: Seq<char>, tree_view: bool) -> Seq<
    LiveProcessReportView,
> {
    if tree_view {
        filtered(raw, filter)
    } else {
        sort_by_rank(filtered(raw, filter))
    }
}

/// The selection after the rows changed: none for no rows, the first row
/// when there was none or it is out of range, otherwise unchanged.
pub open spec fn reselect(selected: Option<usize>, rows: nat) -> Option<usize> {
    if rows == 0 {
        None
    } else {
        match selected {
            Some(i) => if i >= rows {
                Some(0)
            } else {
                Some(i)
            },
            None => Some(0),
        }
    }
}

/// The row after `selected` (wrapping to the first).
pub open spec fn next_row(selected: Option<usize>, rows: nat) -> Option<usize> {
    if rows == 0 {
        selected
    } else {
        match selected {
            Some(i) => if i >= rows - 1 {
                Some(0)
            } else {
                Some((i + 1) as usize)
            },
            None => Some(0),
        }
    }
}

/// The row before `selected` (wrapping to the last).
pub open spec fn previous_row(selected: Option<usize>, rows: nat) -> Option<usize> {
    if rows == 0 {
        selected
    } else {
        match selected {
            Some(i) => if i == 0 {
                Some((rows - 1) as usize)
            } else {
                Some((i - 1) as usize)
            },
            None => Some(0),
        }
    }
}

/// A key press, as the dashboard distinguishes them.
#[derive(PartialEq, Eq, Structural, Clone, Copy, Debug)]
pub enum TuiKey {
    Enter,
    Esc,
    Backspace,
    Tab,
    PageDown,
    PageUp,
    Down,
    Up,
    /// A character key, and whether Control was held.
    Char(char, bool),
    Other,
}

/// What the event loop must do after a key.
#[derive(PartialEq, Eq, Structural, Clone, Copy, Debug)]
pub enum TuiCommand {
    Continue,
    Refresh,
    Quit,
}

/// The dashboard's state.
pub struct TuiApp {
    /// The last scan, as it came.
    pub raw_processes: Vec<LiveProcessReport>,
    /// The rows shown.
    pub processes: Vec<LiveProcessReport>,
    /// The selected row.
    pub selected: Option<usize>,
    pub filter: String,
    pub is_filtering: bool,
    pub show_tree_view: bool,
    /// 0 = process table, 1 = process inspector.
    pub active_panel: usize,
    pub detail_scroll: u16,
    pub refresh_interval_secs: u64,
}

/// Removes the last character of a string (`String::pop`).
#[verifier::external_body]
fn pop_char(s: &mut String)
    ensures
        final(s)@ == (if old(s)@.len() == 0 {
            old(s)@
        } else {
            old(s)@.drop_last()
        }),
{
    s.pop();
}

fn process_matches_exec(p: &LiveProcessReport, query: &str) -> (r: bool)
    ensures
        r == process_matches(p@, query@),
{
    let ln = to_lowercase(p.name.as_str());
    if str_contains(ln.as_str(), query) {
        return true;
    }
    let pid = decimal_string(p.pid as u64);
    if str_contains(pid.as_str(), query) {
        return true;
    }
    match &p.exe_path {
        Some(path) => {
            let lp = to_lowercase(path.as_str());
            str_contains(lp.as_str(), query)
        },
        None => false,
    }
}

impl TuiApp {
    /// A dashboard with no processes yet, the first row selected and the given
    /// refresh interval.
    pub fn new(interval_secs: u64) -> (r: Self)
        ensures
            r.raw_processes@.len() == 0,
            r.processes@.len() == 0,
            r.selected == Some(0usize),
            r.filter@ == Seq::<char>::empty(),
            !r.is_filtering,
            !r.show_tree_view,
            r.active_panel == 0,
            r.detail_scroll == 0,
            r.refresh_interval_secs == interval_secs,
    {
        TuiApp {
            raw_processes: Vec::new(),
            processes: Vec::new(),
            selected: Some(0),
            filter: String::new(),
            is_filtering: false,
            show_tree_view: false,
            active_panel: 0,
            detail_scroll: 0,
            refresh_interval_secs: interval_secs,
        }
    }

    /// Whether a refresh is due, given the time since the last one.
    pub fn refresh_due(&self, elapsed_secs: u64) -> (r: bool)
        ensures
            r == (elapsed_secs >= self.refresh_interval_secs),
    {
        elapsed_secs >= self.refresh_interval_secs
    }

    /// Recomputes the rows from the last scan, the filter and the view mode,
    /// and keeps the selection in range.
    pub fn apply_filter_and_sort(&mut self)
        ensures
            report_views(final(self).processes@) == shown(
                report_views(old(self).raw_processes@),
                old(self).filter@,
                old(self).show_tree_view,
            ),
            final(self).selected == reselect(old(self).selected, final(self).processes@.len()),
            final(self).raw_processes == old(self).raw_processes,
            final(self).filter == old(self).filter,
            final(self).is_filtering == old(self).is_filtering,
            final(self).show_tree_view == old(self).show_tree_view,
            final(self).active_panel == old(self).active_panel,
            final(self).detail_scroll == old(self).detail_scroll,
            final(self).refresh_interval_secs == old(self).refresh_interval_secs,
    {
        let ghost raw = report_views(self.raw_processes@);
        let ghost pred = |p: LiveProcessReportView| process_matches(p, lowercase(self.filter@));
        let mut picked: Vec<LiveProcessReport> = Vec::new();
        let empty = self.filter.as_str().unicode_len() == 0;
        let query = to_lowercase(self.filter.as_str());
        let mut i: usize = 0;
        while i < self.raw_processes.len()
            invariant
                i <= self.raw_processes@.len(),
                raw == report_views(self.raw_processes@),
                empty == (self.filter@.len() == 0),
                query@ == lowercase(self.filter@),
                pred == (|p: LiveProcessReportView| process_matches(p, lowercase(self.filter@))),
                empty ==> report_views(picked@) == raw.take(i as int),
                !empty ==> report_views(picked@) == raw.take(i as int).filter(pred),
            decreases self.raw_processes@.len() - i,
        {
            let p = &self.raw_processes[i];
            assert(raw.take(i + 1) =~= raw.take(i as int).push(p@));
            proof {
                raw.take(i as int).lemma_filter_push(p@, pred);
            }
            let ghost before = report_views(picked@);
            if empty || process_matches_exec(p, query.as_str()) {
                let c = p.clone();
                picked.push(c);
                assert(report_views(picked@) =~= before.push(p@));
            }
            i += 1;
        }
        assert(raw.take(raw.len() as int) =~= raw);
        let ghost f = report_views(picked@);
        assert(f == filtered(raw, self.filter@));
        let rows = if self.show_tree_view {
            picked
        } else {
            let ghost unsorted = picked@;
            let sorted = sort_by_risk(picked);
            proof {
                lemma_sort_by_rank_map(unsorted, |r: LiveProcessReport| r@);
            }
            sorted
        };
        self.processes = rows;
        let n = self.processes.len();
        if n == 0 {
            self.selected = None;
        } else {
            match self.selected {
                Some(s) => {
                    if s >= n {
                        self.selected = Some(0);
                    }
                },
                None => {
                    self.selected = Some(0);
                },
            }
        }
    }

    /// Takes the processes of a fresh scan and recomputes the rows.
    pub fn fetch_system_processes(&mut self, raw: Vec<LiveProcessReport>)
        ensures
            final(self).raw_processes@ == raw@,
            report_views(final(self).processes@) == shown(
                report_views(raw@),
                old(self).filter@,
                old(self).show_tree_view,
            ),
            final(self).selected == reselect(old(self).selected, final(self).processes@.len()),
            final(self).filter == old(self).filter,
            final(self).is_filtering == old(self).is_filtering,
            final(self).show_tree_view == old(self).show_tree_view,
            final(self).active_panel == old(self).active_panel,
            final(self).detail_scroll == old(self).detail_scroll,
            final(self).refresh_interval_secs == old(self).refresh_interval_secs,
    {
        self.raw_processes = raw;
        self.apply_filter_and_sort();
    }

    /// Selects the next row (wrapping) and resets the inspector scroll; does
    /// nothing when there are no rows.
    pub fn next(&mut self)
        ensures
            final(self).selected == next_row(old(self).selected, old(self).processes@.len()),
            final(self).detail_scroll == (if old(self).processes@.len() == 0 {
                old(self).detail_scroll
            } else {
                0
            }),
            final(self).processes == old(self).processes,
            final(self).raw_processes == old(self).raw_processes,
            final(self).filter == old(self).filter,
            final(self).is_filtering == old(self).is_filtering,
            final(self).show_tree_view == old(self).show_tree_view,
            final(self).active_panel == old(self).active_panel,
            final(self).refresh_interval_secs == old(self).refresh_interval_secs,
    {
        let n = self.processes.len();
        if n == 0 {
            return;
        }
        let i = match self.selected {
            Some(i) => if i >= n - 1 {
                0
            } else {
                i + 1
            },
            None => 0,
        };
        self.selected = Some(i);
        self.detail_scroll = 0;
    }

    /// Selects the previous row (wrapping) and resets the inspector scroll;
    /// does nothing when there are no rows.
    pub fn previous(&mut self)
        ensures
            final(self).selected == previous_row(old(self).selected, old(self).processes@.len()),
            final(self).detail_scroll == (if old(self).processes@.len() == 0 {
                old(self).detail_scroll
            } else {
                0
            }),
            final(self).processes == old(self).processes,
            final(self).raw_processes == old(self).raw_processes,
            final(self).filter == old(self).filter,
            final(self).is_filtering == old(self).is_filtering,
            final(self).show_tree_view == old(self).show_tree_view,
            final(self).active_panel == old(self).active_panel,
            final(self).refresh_interval_secs == old(self).refresh_interval_secs,
    {
        let n = self.processes.len();
        if n == 0 {
            return;
        }
        let i = match self.selected {
            Some(i) => if i == 0 {
                n - 1
            } else {
                i - 1
            },
            None => 0,
        };
        self.selected = Some(i);
        self.detail_scroll = 0;
    }

    /// Scrolls the inspector down, stopping at the largest offset.
    pub fn scroll_detail_down(&mut self, amount: u16)
        ensures
            final(self).detail_scroll == (if old(self).detail_scroll + amount > u16::MAX {
                u16::MAX as int
            } else {
                old(self).detail_scroll + amount
            }),
            final(self).selected == old(self).selected,
            final(self).processes == old(self).processes,
            final(self).raw_processes == old(self).raw_processes,
            final(self).filter == old(self).filter,
            final(self).is_filtering == old(self).is_filtering,
            final(self).show_tree_view == old(self).show_tree_view,
            final(self).active_panel == old(self).active_panel,
            final(self).refresh_interval_secs == old(self).refresh_interval_secs,
    {
        self.detail_scroll = self.detail_scroll.saturating_add(amount);
    }

    /// Scrolls the inspector up, stopping at the top.
    pub fn scroll_detail_up(&mut self, amount: u16)
        ensures
            final(self).detail_scroll == (if old(self).detail_scroll < amount {
                0
            } else {
                old(self).detail_scroll - amount
            }),
            final(self).selected == old(self).selected,
            final(self).processes == old(self).processes,
            final(self).raw_processes == old(self).raw_processes,
            final(self).filter == old(self).filter,
            final(self).is_filtering == old(self).is_filtering,
            final(self).show_tree_view == old(self).show_tree_view,
            final(self).active_panel == old(self).active_panel,
            final(self).refresh_interval_secs == old(self).refresh_interval_secs,
    {
        self.detail_scroll = self.detail_scroll.saturating_sub(amount);
    }
}

/// The state of the dashboard that keys act on, apart from the rows.
pub struct TuiControls {
    pub filter: Seq<char>,
    pub is_filtering: bool,
    pub show_tree_view: bool,
    pub active_panel: usize,
}

impl TuiApp {
    pub open spec fn controls(&self) -> TuiControls {
        TuiControls {
            filter: self.filter@,
            is_filtering: self.is_filtering,
            show_tree_view: self.show_tree_view,
            active_panel: self.active_panel,
        }
    }

    /// The rows are what the last scan, the filter and the view mode give.
    pub open spec fn rows_current(&self) -> bool {
        report_views(self.processes@) == shown(
            report_views(self.raw_processes@),
            self.filter@,
            self.show_tree_view,
        )
    }
}

/// The command a key gives.
pub open spec fn key_command(c: TuiControls, key: TuiKey) -> TuiCommand {
    if c.is_filtering {
        TuiCommand::Continue
    } else {
        match key {
            TuiKey::Esc => TuiCommand::Quit,
            TuiKey::Char(ch, ctrl) => if ch == 'q' || (ch == 'c' && ctrl) {
                TuiCommand::Quit
            } else if ch == 'r' {
                TuiCommand::Refresh
            } else {
                TuiCommand::Continue
            },
            _ => TuiCommand::Continue,
        }
    }
}

/// The controls after a key.
pub open spec fn key_controls(c: TuiControls, key: TuiKey) -> TuiControls {
    if c.is_filtering {
        match key {
            TuiKey::Enter => TuiControls { is_filtering: false, ..c },
            TuiKey::Esc => TuiControls { is_filtering: false, filter: seq![], ..c },
            TuiKey::Backspace => TuiControls {
                filter: if c.filter.len() == 0 {
                    c.filter
                } else {
                    c.filter.drop_last()
                },
                ..c
            },
            TuiKey::Char(ch, _) => TuiControls { filter: c.filter.push(ch), ..c },
            _ => c,
        }
    } else {
        match key {
            TuiKey::Char(ch, ctrl) => if ch == 'c' && !ctrl {
                TuiControls { filter: seq![], ..c }
            } else if ch == '/' {
                TuiControls { is_filtering: true, ..c }
            } else if ch == 't' {
                TuiControls { show_tree_view: !c.show_tree_view, ..c }
            } else {
                c
            },
            TuiKey::Tab => TuiControls {
                active_panel: if c.active_panel % 2 == 0 {
                    1
                } else {
                    0
                },
                ..c
            },
            _ => c,
        }
    }
}

/// The key scrolls the inspector by `amount` lines (down when positive).
pub open spec fn key_scroll(c: TuiControls, key: TuiKey) -> int {
    if c.is_filtering {
        0
    } else {
        match key {
            TuiKey::PageDown => 5,
            TuiKey::PageUp => -5,
            TuiKey::Down => if c.active_panel == 1 {
                2
            } else {
                0
            },
            TuiKey::Up => if c.active_panel == 1 {
                -2
            } else {
                0
            },
            TuiKey::Char(ch, ctrl) => if ch == 'd' {
                5
            } else if ch == 'u' {
                -5
            } else if ch == 'j' && c.active_panel == 1 {
                2
            } else if ch == 'k' && c.active_panel == 1 {
                -2
            } else {
                0
            },
            _ => 0,
        }
    }
}

/// The key moves the selection: 1 to the next row, -1 to the previous one.
pub open spec fn key_move(c: TuiControls, key: TuiKey) -> int {
    if c.is_filtering || c.active_panel == 1 {
        0
    } else {
        match key {
            TuiKey::Down => 1,
            TuiKey::Up => -1,
            TuiKey::Char(ch, _) => if ch == 'j' {
                1
            } else if ch == 'k' {
                -1
            } else {
                0
            },
            _ => 0,
        }
    }
}

/// The key changes the filter or the view mode, so the rows are recomputed.
pub open spec fn key_reshapes(c: TuiControls, key: TuiKey) -> bool {
    if c.is_filtering {
        match key {
            TuiKey::Esc | TuiKey::Backspace | TuiKey::Char(_, _) => true,
            _ => false,
        }
    } else {
        match key {
            TuiKey::Char(ch, ctrl) => (ch == 'c' && !ctrl) || ch == 't',
            _ => false,
        }
    }
}

impl TuiApp {
    /// Applies a key press. While the filter is being typed, keys edit it
    /// (Enter keeps it, Esc clears it); otherwise `q`, Esc and Ctrl-C quit,
    /// `r` asks for a refresh, `c` clears the filter, `/` starts typing one,
    /// `t` toggles the tree view, Tab switches panels, PageUp/PageDown (`u`,
    /// `d`) scroll the inspector, and Up/Down (`k`, `j`) move the selection
    /// or, in the inspector, scroll it.
    pub fn handle_key(&mut self, key: TuiKey) -> (cmd: TuiCommand)
        requires
            old(self).rows_current(),
        ensures
            cmd == key_command(old(self).controls(), key),
            final(self).controls() == (if cmd is Quit {
                old(self).controls()
            } else {
                key_controls(old(self).controls(), key)
            }),
            final(self).rows_current(),
            final(self).raw_processes == old(self).raw_processes,
            final(self).refresh_interval_secs == old(self).refresh_interval_secs,
            !(cmd is Quit) && key_reshapes(old(self).controls(), key) ==> final(self).selected
                == reselect(old(self).selected, final(self).processes@.len()),
            !(cmd is Quit) && key_move(old(self).controls(), key) == 1 ==> final(self).selected
                == next_row(old(self).selected, old(self).processes@.len()),
            !(cmd is Quit) && key_move(old(self).controls(), key) == -1 ==> final(self).selected
                == previous_row(old(self).selected, old(self).processes@.len()),
            !(cmd is Quit) && !key_reshapes(old(self).controls(), key) && key_move(
                old(self).controls(),
                key,
            ) == 0 ==> final(self).selected == old(self).selected && final(self).processes
                == old(self).processes,
            !(cmd is Quit) && key_scroll(old(self).controls(), key) > 0 ==> final(self).detail_scroll
                == (if old(self).detail_scroll + key_scroll(old(self).controls(), key) > u16::MAX {
                u16::MAX as int
            } else {
                old(self).detail_scroll + key_scroll(old(self).controls(), key)
            }),
            !(cmd is Quit) && key_scroll(old(self).controls(), key) < 0 ==> final(self).detail_scroll
                == (if old(self).detail_scroll < -key_scroll(old(self).controls(), key) {
                0
            } else {
                old(self).detail_scroll + key_scroll(old(self).controls(), key)
            }),
            !(cmd is Quit) && key_scroll(old(self).controls(), key) == 0 && key_move(
                old(self).controls(),
                key,
            ) == 0 ==> final(self).detail_scroll == old(self).detail_scroll,
            !(cmd is Quit) && key_move(old(self).controls(), key) != 0 ==> final(self).detail_scroll
                == (if old(self).processes@.len() == 0 {
                old(self).detail_scroll
            } else {
                0
            }),
            cmd is Quit ==> final(self).selected == old(self).selected && final(self).detail_scroll
                == old(self).detail_scroll && final(self).processes == old(self).processes,
    {
        if self.is_filtering {
            match key {
                TuiKey::Enter => {
                    self.is_filtering = false;
                },
                TuiKey::Esc => {
                    self.is_filtering = false;
                    self.filter = String::new();
                    self.apply_filter_and_sort();
                },
                TuiKey::Backspace => {
                    pop_char(&mut self.filter);
                    self.apply_filter_and_sort();
                },
                TuiKey::Char(c, _) => {
                    crate::text::push_char(&mut self.filter, c);
                    self.apply_filter_and_sort();
                },
                _ => {},
            }
            return TuiCommand::Continue;
        }
        match key {
            TuiKey::Esc => TuiCommand::Quit,
            TuiKey::Char(c, ctrl) => {
                if c == 'q' {
                    TuiCommand::Quit
                } else if c == 'c' {
                    if ctrl {
                        TuiCommand::Quit
                    } else {
                        self.filter = String::new();
                        self.apply_filter_and_sort();
                        TuiCommand::Continue
                    }
                } else if c == '/' {
                    self.is_filtering = true;
                    TuiCommand::Continue
                } else if c == 'r' {
                    TuiCommand::Refresh
                } else if c == 't' {
                    self.show_tree_view = !self.show_tree_view;
                    self.apply_filter_and_sort();
                    TuiCommand::Continue
                } else if c == 'd' {
                    self.scroll_detail_down(5);
                    TuiCommand::Continue
                } else if c == 'u' {
                    self.scroll_detail_up(5);
                    TuiCommand::Continue
                } else if c == 'j' {
                    if self.active_panel == 1 {
                        self.scroll_detail_down(2);
                    } else {
                        self.next();
                    }
                    TuiCommand::Continue
                } else if c == 'k' {
                    if self.active_panel == 1 {
                        self.scroll_detail_up(2);
                    } else {
                        self.previous();
                    }
                    TuiCommand::Continue
                } else {
                    TuiCommand::Continue
                }
            },
            TuiKey::Tab => {
                self.active_panel = if self.active_panel % 2 == 0 {
                    1
                } else {
                    0
                };
                TuiCommand::Continue
            },
            TuiKey::PageDown => {
                self.scroll_detail_down(5);
                TuiCommand::Continue
            },
            TuiKey::PageUp => {
                self.scroll_detail_up(5);
                TuiCommand::Continue
            },
            TuiKey::Down => {
                if self.active_panel == 1 {
                    self.scroll_detail_down(2);
                } else {
                    self.next();
                }
                TuiCommand::Continue
            },
            TuiKey::Up => {
                if self.active_panel == 1 {
                    self.scroll_detail_up(2);
                } else {
                    self.previous();
                }
                TuiCommand::Continue
            },
            _ => TuiCommand::Continue,
        }
    }
}

// ---------------------------------------------------------------------------
// Laws

/// After the rows are recomputed, the selection is in range: none exactly
/// when there are no rows.
pub proof fn lemma_reselect_in_range(selected: Option<usize>, rows: nat)
    ensures
        reselect(selected, rows) is None <==> rows == 0,
        reselect(selected, rows) matches Some(i) ==> i < rows,
{
}

/// Moving the selection keeps it in range.
pub proof fn lemma_moves_stay_in_range(selected: Option<usize>, rows: nat)
    requires
        rows <= usize::MAX,
        selected matches Some(i) ==> i < rows,
    ensures
        next_row(selected, rows) matches Some(i) ==> i < rows,
        previous_row(selected, rows) matches Some(i) ==> i < rows,
{
}

/// Moving down and then up (or up and then down) returns to the same row.
pub proof fn lemma_next_previous_inverse(i: usize, rows: nat)
    requires
        i < rows,
        rows <= usize::MAX,
    ensures
        previous_row(next_row(Some(i), rows), rows) == Some(i),
        next_row(previous_row(Some(i), rows), rows) == Some(i),
{
}

/// Recomputing the rows twice gives what recomputing them once gives.
pub proof fn lemma_reselect_idempotent(selected: Option<usize>, rows: nat)
    ensures
        reselect(reselect(selected, rows), rows) == reselect(selected, rows),
{
}

/// Every row shown passes the filter and comes from the last scan; every
/// scanned process that passes the filter is shown.
pub proof fn lemma_shown_rows_match_filter(
    raw: Seq<LiveProcessReportView>,
    filter: Seq<char>,
    tree_view: bool,
)
    requires
        filter.len() > 0,
    ensures
        forall|k: int|
            0 <= k < shown(raw, filter, tree_view).len() ==> process_matches(
                #[trigger] shown(raw, filter, tree_view)[k],
                lowercase(filter),
            ) && raw.contains(shown(raw, filter, tree_view)[k]),
        forall|k: int|
            0 <= k < raw.len() && process_matches(#[trigger] raw[k], lowercase(filter)) ==> shown(
                raw,
                filter,
                tree_view,
            ).contains(raw[k]),
{
    broadcast use vstd::seq_lib::group_seq_properties;
    let pred = |p: LiveProcessReportView| process_matches(p, lowercase(filter));
    let f = raw.filter(pred);
    let out = shown(raw, filter, tree_view);
    crate::ranking::lemma_sort_by_rank_permutes(f);
    assert forall|k: int| 0 <= k < out.len() implies process_matches(#[trigger] out[k], lowercase(filter))
        && raw.contains(out[k]) by {
        if tree_view {
            assert(f.contains(out[k]));
        } else {
            assert(out.to_multiset().count(out[k]) > 0);
            assert(f.to_multiset().count(out[k]) > 0);
            assert(f.contains(out[k]));
        }
        let j = choose|j: int| 0 <= j < f.len() && f[j] == out[k];
        raw.lemma_filter_pred(pred, j);
        raw.lemma_filter_contains_rev(pred, out[k]);
        assert(pred(out[k]));
    }
    assert forall|k: int| 0 <= k < raw.len() && process_matches(#[trigger] raw[k], lowercase(filter))
        implies out.contains(raw[k]) by {
        assert(pred(raw[k]));
        assert(f.contains(raw[k]));
        if !tree_view {
            assert(f.to_multiset().count(raw[k]) > 0);
            assert(out.to_multiset().count(raw[k]) > 0);
        }
    }
}

/// A scanned process is shown, in either view, when the filter is empty or
/// matches it.
proof fn lemma_matching_row_shown(raw: Seq<LiveProcessReportView>, k: int, filter: Seq<char>, tree_view: bool)
    requires
        0 <= k < raw.len(),
        filter.len() == 0 || process_matches(raw[k], lowercase(filter)),
    ensures
        shown(raw, filter, tree_view).contains(raw[k]),
{
    broadcast use vstd::seq_lib::group_seq_properties;
    if filter.len() > 0 {
        lemma_shown_rows_match_filter(raw, filter, tree_view);
    } else if !tree_view {
        crate::ranking::lemma_sort_by_rank_permutes(raw);
        assert(raw.to_multiset().count(raw[k]) > 0);
    }
}

/// Every text occurs in itself.
proof fn lemma_contains_itself(t: Seq<char>)
    ensures
        has_substring(t, t),
{
    assert(t.subrange(0, t.len() as int) =~= t);
    assert(crate::text::occurs_at(t, t, 0));
}

/// The search ignores the letter case of process names: typing a process's
/// own name, in any letter case, never hides it, in either view.
pub proof fn lemma_search_by_own_name(raw: Seq<LiveProcessReportView>, k: int, filter: Seq<char>, tree_view: bool)
    requires
        0 <= k < raw.len(),
        lowercase(filter) == lowercase(raw[k].name@),
    ensures
        shown(raw, filter, tree_view).contains(raw[k]),
{
    lemma_contains_itself(lowercase(raw[k].name@));
    lemma_matching_row_shown(raw, k, filter, tree_view);
}

/// The search ignores the letter case of executable paths: typing a
/// process's own path, in any letter case, never hides it, in either view.
pub proof fn lemma_search_by_own_path(
    raw: Seq<LiveProcessReportView>,
    k: int,
    path: String,
    filter: Seq<char>,
    tree_view: bool,
)
    requires
        0 <= k < raw.len(),
        raw[k].exe_path == Some(path),
        lowercase(filter) == lowercase(path@),
    ensures
        shown(raw, filter, tree_view).contains(raw[k]),
{
    lemma_contains_itself(lowercase(path@));
    lemma_matching_row_shown(raw, k, filter, tree_view);
}

/// Typing a process's pid in decimal never hides it, in either view.
pub proof fn lemma_search_by_own_pid(raw: Seq<LiveProcessReportView>, k: int, filter: Seq<char>, tree_view: bool)
    requires
        0 <= k < raw.len(),
        lowercase(filter) == decimal(raw[k].pid as nat),
    ensures
        shown(raw, filter, tree_view).contains(raw[k]),
{
    lemma_contains_itself(decimal(raw[k].pid as nat));
    lemma_matching_row_shown(raw, k, filter, tree_view);
}

/// Two processes with the same name and pid whose paths lowercase alike
/// match the same queries.
pub proof fn lemma_search_path_case(
    p: LiveProcessReportView,
    q: LiveProcessReportView,
    p_path: String,
    q_path: String,
    query: Seq<char>,
)
    requires
        p.name == q.name,
        p.pid == q.pid,
        p.exe_path == Some(p_path),
        q.exe_path == Some(q_path),
        lowercase(p_path@) == lowercase(q_path@),
    ensures
        process_matches(p, query) == process_matches(q, query),
{
}

/// Two processes whose names lowercase alike, and that agree on pid and
/// path, match the same queries.
pub proof fn lemma_search_name_case(p: LiveProcessReportView, q: LiveProcessReportView, query: Seq<char>)
    requires
        lowercase(p.name@) == lowercase(q.name@),
        p.pid == q.pid,
        p.exe_path == q.exe_path,
    ensures
        process_matches(p, query) == process_matches(q, query),
{
}

} // verus!
