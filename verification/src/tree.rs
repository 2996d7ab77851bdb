//! Parent/child layout of the live process list.
//!
//! Processes whose parent is not among the scanned processes are roots. The
//! tree is walked depth-first from the roots, in scan order; each visited
//! process gets its depth and a box-drawing prefix. Processes that no walk
//! reaches (those on a parent cycle) follow, in scan order, unchanged.
//! Each process id is listed once, where it is first reached, with the last
//! report that carries it.

use vstd::prelude::*;
use vstd::string::*;
use crate::types::{LiveProcessReport, LiveProcessReportView};

verus! {

/// The content of each report in a sequence.
pub open spec fn report_views(v: Seq<LiveProcessReport>) -> Seq<LiveProcessReportView> {
    v.map_values(|r: LiveProcessReport| r@)
}

/// The process ids of a sequence of reports.
pub open spec fn pids_of(s: Seq<LiveProcessReportView>) -> Seq<u32> {
    s.map_values(|r: LiveProcessReportView| r.pid)
}

/// The parent of report `i`, if that parent is itself among the reports.
pub open spec fn effective_parent(s: Seq<LiveProcessReportView>, i: int) -> Option<u32> {
    match s[i].parent_pid {
        Some(pp) => if pids_of(s).contains(pp) {
            Some(pp)
        } else {
            None
        },
        None => None,
    }
}

/// The effective parent of every report.
pub open spec fn parent_keys(s: Seq<LiveProcessReportView>) -> Seq<Option<u32>> {
    Seq::new(s.len(), |i: int| effective_parent(s, i))
}

/// Indices below `m` whose key is `key`, in increasing order.
pub open spec fn kids(par: Seq<Option<u32>>, key: Option<u32>, m: nat) -> Seq<usize>
    decreases m,
{
    if m == 0 {
        seq![]
    } else {
        kids(par, key, (m - 1) as nat) + if par[m - 1] == key {
            seq![(m - 1) as usize]
        } else {
            seq![]
        }
    }
}

/// Where a walk placed one report: its index, prefix and depth.
pub struct TreeEntry {
    pub index: usize,
    pub prefix: Seq<char>,
    pub depth: nat,
}

/// The prefix shown before a process at `depth`.
pub open spec fn entry_prefix(prefix: Seq<char>, is_last: bool, depth: nat) -> Seq<char> {
    if depth == 0 {
        seq![]
    } else if is_last {
        prefix + "└── "@
    } else {
        prefix + "├── "@
    }
}

/// The prefix handed down to the children of a process at `depth`.
pub open spec fn child_prefix(prefix: Seq<char>, is_last: bool, depth: nat) -> Seq<char> {
    if depth == 0 {
        seq![]
    } else if is_last {
        prefix + "    "@
    } else {
        prefix + "│   "@
    }
}

/// The walk from report `i`: the entries it places and the indices visited
/// after it. `fuel` bounds the depth of the walk.
pub open spec fn walk(
    par: Seq<Option<u32>>,
    pids: Seq<u32>,
    i: usize,
    prefix: Seq<char>,
    is_last: bool,
    depth: nat,
    visited: Set<usize>,
    fuel: nat,
) -> (Seq<TreeEntry>, Set<usize>)
    decreases fuel, 0int, 0int,
{
    if fuel == 0 || visited.contains(i) || i >= pids.len() {
        (seq![], visited)
    } else {
        let cur = TreeEntry { index: i, prefix: entry_prefix(prefix, is_last, depth), depth };
        let ks = kids(par, Some(pids[i as int]), par.len());
        let (rest, v2) = walk_list(
            par,
            pids,
            ks,
            0,
            child_prefix(prefix, is_last, depth),
            depth + 1,
            visited.insert(i),
            (fuel - 1) as nat,
        );
        (seq![cur] + rest, v2)
    }
}

/// The walks from `ks[j..]`, one after another.
pub open spec fn walk_list(
    par: Seq<Option<u32>>,
    pids: Seq<u32>,
    ks: Seq<usize>,
    j: nat,
    prefix: Seq<char>,
    depth: nat,
    visited: Set<usize>,
    fuel: nat,
) -> (Seq<TreeEntry>, Set<usize>)
    decreases fuel, 1int, ks.len() - j,
{
    if j >= ks.len() {
        (seq![], visited)
    } else {
        let (a, v1) = walk(par, pids, ks[j as int], prefix, j == ks.len() - 1, depth, visited, fuel);
        let (b, v2) = walk_list(par, pids, ks, j + 1, prefix, depth, v1, fuel);
        (a + b, v2)
    }
}

/// Report `e.index` as placed by a walk.
pub open spec fn placed(s: Seq<LiveProcessReportView>, e: TreeEntry) -> LiveProcessReportView {
    LiveProcessReportView { tree_prefix: e.prefix, depth: e.depth as usize, ..s[e.index as int] }
}

pub open spec fn placed_all(s: Seq<LiveProcessReportView>, es: Seq<TreeEntry>) -> Seq<
    LiveProcessReportView,
> {
    es.map_values(|e: TreeEntry| placed(s, e))
}

/// The walk over all roots of the reports.
pub open spec fn forest_walk(s: Seq<LiveProcessReportView>) -> (Seq<TreeEntry>, Set<usize>) {
    walk_list(
        parent_keys(s),
        pids_of(s),
        kids(parent_keys(s), None, s.len()),
        0,
        seq![],
        0,
        Set::empty(),
        s.len(),
    )
}

/// The reports at indices below `m` that are not in `visited`, in order.
pub open spec fn unvisited(s: Seq<LiveProcessReportView>, visited: Set<usize>, m: nat) -> Seq<
    LiveProcessReportView,
>
    decreases m,
{
    if m == 0 {
        seq![]
    } else {
        unvisited(s, visited, (m - 1) as nat) + if visited.contains((m - 1) as usize) {
            seq![]
        } else {
            seq![s[m - 1]]
        }
    }
}

/// The reports in tree order: the walk from the roots, then the reports
/// that it did not reach.
pub open spec fn tree_order(s: Seq<LiveProcessReportView>) -> Seq<LiveProcessReportView> {
    let (es, visited) = forest_walk(s);
    placed_all(s, es) + unvisited(s, visited, s.len())
}

// ---------------------------------------------------------------------------
// Executable parts

/// Indices of the slots that have been emptied.
pub open spec fn taken(slots: Seq<Option<LiveProcessReport>>) -> Set<usize> {
    Set::new(|i: usize| i < slots.len() && slots[i as int] is None)
}

/// Every slot that still holds a report holds the one it started with.
pub open spec fn slots_match(slots: Seq<Option<LiveProcessReport>>, s: Seq<LiveProcessReportView>) -> bool {
    &&& slots.len() == s.len()
    &&& forall|i: int| 0 <= i < slots.len() ==> (#[trigger] slots[i] matches Some(r) ==> r@ == s[i])
}

fn same_key(a: Option<u32>, b: Option<u32>) -> (r: bool)
    ensures
        r == (a == b),
{
    match (a, b) {
        (Some(x), Some(y)) => x == y,
        (None, None) => true,
        _ => false,
    }
}

fn keys_of(reports: &Vec<LiveProcessReport>) -> (par: Vec<Option<u32>>)
    ensures
        par@ == parent_keys(report_views(reports@)),
{
    let ghost s = report_views(reports@);
    let n = reports.len();
    let mut par: Vec<Option<u32>> = Vec::new();
    let mut i: usize = 0;
    while i < n
        invariant
            n == reports@.len(),
            s == report_views(reports@),
            i <= n,
            par@.len() == i,
            forall|k: int| 0 <= k < i ==> par@[k] == effective_parent(s, k),
        decreases n - i,
    {
        let key = match reports[i].parent_pid {
            Some(pp) => {
                let mut found = false;
                let mut j: usize = 0;
                while j < n
                    invariant
                        n == reports@.len(),
                        s == report_views(reports@),
                        j <= n,
                        found == exists|k: int| 0 <= k < j && s[k].pid == pp,
                    decreases n - j,
                {
                    assert(s[j as int].pid == reports@[j as int].pid);
                    if reports[j].pid == pp {
                        found = true;
                    }
                    j += 1;
                }
                assert(found == pids_of(s).contains(pp)) by {
                    if found {
                        let k = choose|k: int| 0 <= k < n && s[k].pid == pp;
                        assert(pids_of(s)[k] == pp);
                    }
                    if pids_of(s).contains(pp) {
                        let k = choose|k: int| 0 <= k < pids_of(s).len() && pids_of(s)[k] == pp;
                        assert(s[k].pid == pp);
                    }
                }
                if found {
                    Some(pp)
                } else {
                    None
                }
            },
            None => None,
        };
        par.push(key);
        i += 1;
    }
    assert(par@ =~= parent_keys(s));
    par
}

fn kids_of(par: &Vec<Option<u32>>, key: Option<u32>) -> (ks: Vec<usize>)
    ensures
        ks@ == kids(par@, key, par@.len()),
        forall|j: int| 0 <= j < ks@.len() ==> ks@[j] < par@.len(),
{
    let mut ks: Vec<usize> = Vec::new();
    let mut i: usize = 0;
    while i < par.len()
        invariant
            i <= par@.len(),
            ks@ == kids(par@, key, i as nat),
            forall|j: int| 0 <= j < ks@.len() ==> ks@[j] < i,
        decreases par@.len() - i,
    {
        if same_key(par[i], key) {
            ks.push(i);
        }
        i += 1;
    }
    ks
}

fn pids_vec(reports: &Vec<LiveProcessReport>) -> (p: Vec<u32>)
    ensures
        p@ == pids_of(report_views(reports@)),
{
    let mut p: Vec<u32> = Vec::new();
    let mut i: usize = 0;
    while i < reports.len()
        invariant
            i <= reports@.len(),
            p@ =~= pids_of(report_views(reports@)).take(i as int),
        decreases reports@.len() - i,
    {
        p.push(reports[i].pid);
        i += 1;
    }
    p
}

proof fn lemma_placed_all_append(s: Seq<LiveProcessReportView>, a: Seq<TreeEntry>, b: Seq<TreeEntry>)
    ensures
        placed_all(s, a + b) == placed_all(s, a) + placed_all(s, b),
{
    assert(placed_all(s, a + b) =~= placed_all(s, a) + placed_all(s, b));
}

proof fn lemma_report_views_push(v: Seq<LiveProcessReport>, r: LiveProcessReport)
    ensures
        report_views(v.push(r)) == report_views(v).push(r@),
{
    assert(report_views(v.push(r)) =~= report_views(v).push(r@));
}

/// The prefix shown before a process at `depth`.
fn make_entry_prefix(prefix: &String, is_last: bool, depth: usize) -> (r: String)
    ensures
        r@ == entry_prefix(prefix@, is_last, depth as nat),
{
    if depth == 0 {
        String::new()
    } else {
        let mut p = prefix.clone();
        if is_last {
            p.append("└── ");
        } else {
            p.append("├── ");
        }
        p
    }
}

/// The prefix handed down to the children of a process at `depth`.
fn make_child_prefix(prefix: &String, is_last: bool, depth: usize) -> (r: String)
    ensures
        r@ == child_prefix(prefix@, is_last, depth as nat),
{
    if depth == 0 {
        String::new()
    } else {
        let mut p = prefix.clone();
        if is_last {
            p.append("    ");
        } else {
            p.append("│   ");
        }
        p
    }
}

/// Moves report `i` and, depth-first, its descendants from `slots` to the
/// end of `ordered`, placing each in the tree.
fn traverse(
    i: usize,
    prefix: &String,
    is_last: bool,
    depth: usize,
    fuel: usize,
    par: &Vec<Option<u32>>,
    pids: &Vec<u32>,
    slots: &mut Vec<Option<LiveProcessReport>>,
    ordered: &mut Vec<LiveProcessReport>,
    Ghost(s): Ghost<Seq<LiveProcessReportView>>,
)
    requires
        slots_match(old(slots)@, s),
        par@.len() == s.len(),
        pids@.len() == s.len(),
        i < s.len(),
        depth + fuel <= usize::MAX,
    ensures
        ({
            let (es, v2) = walk(
                par@,
                pids@,
                i,
                prefix@,
                is_last,
                depth as nat,
                taken(old(slots)@),
                fuel as nat,
            );
            &&& report_views(final(ordered)@) == report_views(old(ordered)@) + placed_all(s, es)
            &&& taken(final(slots)@) == v2
        }),
        slots_match(final(slots)@, s),
    decreases fuel,
{
    if fuel == 0 {
        assert(report_views(ordered@) =~= report_views(ordered@) + placed_all(s, seq![]));
        return;
    }
    if slots[i].is_none() {
        assert(taken(slots@).contains(i));
        assert(report_views(ordered@) =~= report_views(ordered@) + placed_all(s, seq![]));
        return;
    }
    let ghost taken0 = taken(slots@);
    let ghost ordered0 = report_views(ordered@);
    let mut report = slots[i].take().unwrap();
    assert(taken(slots@) =~= taken0.insert(i));
    assert(report@ == s[i as int]);
    report.tree_prefix = make_entry_prefix(prefix, is_last, depth);
    report.depth = depth;
    let ghost cur = TreeEntry { index: i, prefix: entry_prefix(prefix@, is_last, depth as nat), depth: depth as nat };
    assert(report@ == placed(s, cur));
    proof {
        lemma_report_views_push(ordered@, report);
    }
    ordered.push(report);
    let ks = kids_of(par, Some(pids[i]));
    let cp = make_child_prefix(prefix, is_last, depth);
    let ghost (all, vall) = walk_list(
        par@,
        pids@,
        ks@,
        0,
        cp@,
        (depth + 1) as nat,
        taken0.insert(i),
        (fuel - 1) as nat,
    );
    let ghost target = report_views(ordered@) + placed_all(s, all);
    let mut j: usize = 0;
    while j < ks.len()
        invariant
            j <= ks@.len(),
            forall|k: int| 0 <= k < ks@.len() ==> ks@[k] < s.len(),
            slots_match(slots@, s),
            par@.len() == s.len(),
            pids@.len() == s.len(),
            depth + fuel <= usize::MAX,
            fuel > 0,
            report_views(ordered@) + placed_all(
                s,
                walk_list(
                    par@,
                    pids@,
                    ks@,
                    j as nat,
                    cp@,
                    (depth + 1) as nat,
                    taken(slots@),
                    (fuel - 1) as nat,
                ).0,
            ) == target,
            walk_list(
                par@,
                pids@,
                ks@,
                j as nat,
                cp@,
                (depth + 1) as nat,
                taken(slots@),
                (fuel - 1) as nat,
            ).1 == vall,
        decreases ks@.len() - j,
    {
        let ghost before = report_views(ordered@);
        let ghost t = taken(slots@);
        let ghost (a, v1) = walk(
            par@,
            pids@,
            ks@[j as int],
            cp@,
            j == ks@.len() - 1,
            (depth + 1) as nat,
            t,
            (fuel - 1) as nat,
        );
        let ghost (b, v2) = walk_list(
            par@,
            pids@,
            ks@,
            (j + 1) as nat,
            cp@,
            (depth + 1) as nat,
            v1,
            (fuel - 1) as nat,
        );
        proof {
            lemma_placed_all_append(s, a, b);
        }
        traverse(
            ks[j],
            &cp,
            j == ks.len() - 1,
            depth + 1,
            fuel - 1,
            par,
            pids,
            slots,
            ordered,
            Ghost(s),
        );
        j += 1;
    }
    assert(report_views(ordered@) =~= target);
    assert(placed_all(s, seq![cur] + all) =~= seq![placed(s, cur)] + placed_all(s, all));
    assert(report_views(ordered@) =~= ordered0 + placed_all(s, seq![cur] + all));
}

/// Each report, in order, in a slot of its own.
fn into_slots(v: Vec<LiveProcessReport>) -> (slots: Vec<Option<LiveProcessReport>>)
    ensures
        slots@.len() == v@.len(),
        forall|k: int| 0 <= k < v@.len() ==> slots@[k] == Some(v@[k]),
{
    let ghost orig = v@;
    let n = v.len();
    let mut v = v;
    let mut rev: Vec<LiveProcessReport> = Vec::new();
    while v.len() > 0
        invariant
            n == orig.len(),
            v@ == orig.take(v@.len() as int),
            rev@.len() + v@.len() == n,
            forall|k: int| 0 <= k < rev@.len() ==> rev@[k] == orig[n - 1 - k],
        decreases v@.len(),
    {
        let x = v.pop().unwrap();
        rev.push(x);
    }
    let mut slots: Vec<Option<LiveProcessReport>> = Vec::new();
    while rev.len() > 0
        invariant
            n == orig.len(),
            rev@.len() + slots@.len() == n,
            forall|k: int| 0 <= k < rev@.len() ==> rev@[k] == orig[n - 1 - k],
            forall|k: int| 0 <= k < slots@.len() ==> slots@[k] == Some(orig[k]),
        decreases rev@.len(),
    {
        let x = rev.pop().unwrap();
        slots.push(Some(x));
    }
    slots
}

/// Walks the tree: the reports come out in [`tree_order`]; returns how many
/// of them the walk from the roots placed.
fn walk_layout(reports: &mut Vec<LiveProcessReport>) -> (placed: usize)
    ensures
        report_views(final(reports)@) == tree_order(report_views(old(reports)@)),
        placed == forest_walk(report_views(old(reports)@)).0.len(),
{
    let ghost s = report_views(reports@);
    let n = reports.len();
    let par = keys_of(reports);
    let pids = pids_vec(reports);
    let roots = kids_of(&par, None);
    let mut owned_reports: Vec<LiveProcessReport> = Vec::new();
    std::mem::swap(reports, &mut owned_reports);
    let ghost orig = owned_reports@;
    let mut slots = into_slots(owned_reports);
    assert(slots_match(slots@, s));
    assert(taken(slots@) =~= Set::<usize>::empty());
    let mut ordered: Vec<LiveProcessReport> = Vec::new();
    let empty = String::new();
    let ghost (all, vall) = forest_walk(s);
    let ghost target = placed_all(s, all);
    let mut j: usize = 0;
    while j < roots.len()
        invariant
            n == s.len(),
            par@ == parent_keys(s),
            pids@ == pids_of(s),
            roots@ == kids(parent_keys(s), None, s.len()),
            forall|k: int| 0 <= k < roots@.len() ==> roots@[k] < s.len(),
            j <= roots@.len(),
            slots_match(slots@, s),
            empty@ == Seq::<char>::empty(),
            report_views(ordered@) + placed_all(
                s,
                walk_list(par@, pids@, roots@, j as nat, empty@, 0, taken(slots@), n as nat).0,
            ) == target,
            walk_list(par@, pids@, roots@, j as nat, empty@, 0, taken(slots@), n as nat).1
                == vall,
        decreases roots@.len() - j,
    {
        let ghost t = taken(slots@);
        let ghost (a, v1) = walk(
            par@,
            pids@,
            roots@[j as int],
            empty@,
            j == roots@.len() - 1,
            0,
            t,
            n as nat,
        );
        let ghost (b, v2) = walk_list(par@, pids@, roots@, (j + 1) as nat, empty@, 0, v1, n as nat);
        proof {
            lemma_placed_all_append(s, a, b);
        }
        traverse(roots[j], &empty, j == roots.len() - 1, 0, n, &par, &pids, &mut slots, &mut ordered, Ghost(s));
        j += 1;
    }
    assert(report_views(ordered@) =~= target);
    let placed = ordered.len();
    let mut i: usize = 0;
    while i < n
        invariant
            n == s.len(),
            i <= n,
            slots@.len() == n,
            forall|k: int| i <= k < n ==> (#[trigger] slots@[k] matches Some(r) ==> r@ == s[k]),
            forall|k: int| i <= k < n ==> (slots@[k] is None <==> vall.contains(k as usize)),
            report_views(ordered@) == target + unvisited(s, vall, i as nat),
        decreases n - i,
    {
        let ghost before = report_views(ordered@);
        if slots[i].is_some() {
            let r = slots[i].take().unwrap();
            proof {
                lemma_report_views_push(ordered@, r);
            }
            ordered.push(r);
            assert(report_views(ordered@) =~= target + unvisited(s, vall, (i + 1) as nat));
        } else {
            assert(report_views(ordered@) =~= target + unvisited(s, vall, (i + 1) as nat));
        }
        i += 1;
    }
    *reports = ordered;
    placed
}

// ---------------------------------------------------------------------------
// One report per process id

/// The last position of `s` whose report has process id `pid`, or -1.
pub open spec fn last_with_pid(s: Seq<LiveProcessReportView>, pid: u32) -> int
    decreases s.len(),
{
    if s.len() == 0 {
        -1
    } else if s.last().pid == pid {
        s.len() - 1
    } else {
        last_with_pid(s.drop_last(), pid)
    }
}

/// The report kept for the process of `e`: the last report with its id
/// (a later report for the same process replaces an earlier one). A report
/// placed by the walk keeps the placement `e` was given.
pub open spec fn latest_report(s: Seq<LiveProcessReportView>, e: LiveProcessReportView, placed: bool) -> LiveProcessReportView {
    let li = last_with_pid(s, e.pid);
    let src = if li >= 0 {
        s[li]
    } else {
        e
    };
    if placed {
        LiveProcessReportView { tree_prefix: e.tree_prefix, depth: e.depth, ..src }
    } else {
        src
    }
}

/// `t` with each process id kept only where it first occurs, as the report
/// [`latest_report`] gives; the first `placed` positions of `t` were placed by
/// the walk.
pub open spec fn keep_latest(s: Seq<LiveProcessReportView>, t: Seq<LiveProcessReportView>, placed: nat) -> Seq<
    LiveProcessReportView,
>
    decreases t.len(),
{
    if t.len() == 0 {
        seq![]
    } else {
        let prev = keep_latest(s, t.drop_last(), placed);
        let e = t.last();
        if pids_of(prev).contains(e.pid) {
            prev
        } else {
            prev.push(latest_report(s, e, t.len() - 1 < placed))
        }
    }
}

/// The laid-out process list: the [`tree_order`] of the reports, one report
/// per process id. A process reached again (through a second report with
/// the same id) is not listed again, and the report listed for a process is
/// its last one.
pub open spec fn tree_layout(s: Seq<LiveProcessReportView>) -> Seq<LiveProcessReportView> {
    keep_latest(s, tree_order(s), forest_walk(s).0.len())
}

fn clone_reports(v: &Vec<LiveProcessReport>) -> (r: Vec<LiveProcessReport>)
    ensures
        report_views(r@) == report_views(v@),
{
    let mut out: Vec<LiveProcessReport> = Vec::new();
    let mut i: usize = 0;
    while i < v.len()
        invariant
            i <= v@.len(),
            report_views(out@) == report_views(v@.take(i as int)),
        decreases v@.len() - i,
    {
        let c = v[i].clone();
        proof {
            lemma_report_views_push(out@, c);
            assert(v@.take(i + 1) =~= v@.take(i as int).push(v@[i as int]));
            lemma_report_views_push(v@.take(i as int), v@[i as int]);
        }
        out.push(c);
        i += 1;
    }
    assert(v@.take(v@.len() as int) =~= v@);
    out
}

fn last_index_of(v: &Vec<LiveProcessReport>, pid: u32) -> (r: Option<usize>)
    ensures
        match r {
            Some(i) => i == last_with_pid(report_views(v@), pid) && i < v@.len(),
            None => last_with_pid(report_views(v@), pid) == -1,
        },
{
    let ghost s = report_views(v@);
    let mut i: usize = v.len();
    assert(s.take(i as int) =~= s);
    while i > 0
        invariant
            i <= v@.len(),
            s == report_views(v@),
            last_with_pid(s, pid) == last_with_pid(s.take(i as int), pid),
        decreases i,
    {
        assert(s.take(i as int).drop_last() =~= s.take(i - 1));
        assert(s.take(i as int).last() == v@[i - 1]@);
        if v[i - 1].pid == pid {
            return Some(i - 1);
        }
        i -= 1;
    }
    None
}

fn holds_pid(v: &Vec<LiveProcessReport>, pid: u32) -> (r: bool)
    ensures
        r == pids_of(report_views(v@)).contains(pid),
{
    let ghost ps = pids_of(report_views(v@));
    let mut i: usize = 0;
    while i < v.len()
        invariant
            i <= v@.len(),
            ps == pids_of(report_views(v@)),
            forall|k: int| 0 <= k < i ==> ps[k] != pid,
        decreases v@.len() - i,
    {
        if v[i].pid == pid {
            assert(ps[i as int] == pid);
            return true;
        }
        i += 1;
    }
    assert forall|k: int| 0 <= k < ps.len() implies ps[k] != pid by {}
    false
}

/// Lays the reports out as a parent/child tree (see [`tree_layout`]): each
/// process listed once, the placed ones carrying their depth and prefix.
pub fn build_process_tree_hierarchy(reports: &mut Vec<LiveProcessReport>)
    ensures
        report_views(final(reports)@) == tree_layout(report_views(old(reports)@)),
{
    let ghost s = report_views(reports@);
    let input = clone_reports(reports);
    let placed = walk_layout(reports);
    let mut laid: Vec<LiveProcessReport> = Vec::new();
    std::mem::swap(reports, &mut laid);
    let ghost t = report_views(laid@);
    let mut out: Vec<LiveProcessReport> = Vec::new();
    let mut k: usize = 0;
    while k < laid.len()
        invariant
            k <= laid@.len(),
            t == report_views(laid@),
            t == tree_order(s),
            placed == forest_walk(s).0.len(),
            report_views(input@) == s,
            report_views(out@) == keep_latest(s, t.take(k as int), placed as nat),
        decreases laid@.len() - k,
    {
        let ghost e = t[k as int];
        proof {
            assert(t.take(k + 1).drop_last() =~= t.take(k as int));
            assert(t.take(k + 1).last() == e);
            assert(e == laid@[k as int]@);
        }
        let pid = laid[k].pid;
        if !holds_pid(&out, pid) {
            let mut r = match last_index_of(&input, pid) {
                Some(idx) => {
                    proof {
                        assert(s[idx as int] == input@[idx as int]@);
                    }
                    input[idx].clone()
                },
                None => laid[k].clone(),
            };
            if k < placed {
                r.tree_prefix = laid[k].tree_prefix.clone();
                r.depth = laid[k].depth;
            }
            proof {
                lemma_report_views_push(out@, r);
                assert(r@ == latest_report(s, e, k < placed));
            }
            out.push(r);
        }
        k += 1;
    }
    assert(t.take(laid@.len() as int) =~= t);
    *reports = out;
}

// ---------------------------------------------------------------------------
// Laws

/// A report with its tree placement cleared.
pub open spec fn unplaced(v: LiveProcessReportView) -> LiveProcessReportView {
    LiveProcessReportView { tree_prefix: seq![], depth: 0, ..v }
}

/// The indices of the entries a walk placed.
pub open spec fn entry_indices(es: Seq<TreeEntry>) -> Seq<usize> {
    es.map_values(|e: TreeEntry| e.index)
}

/// The indices below `m` that are not in `visited`, in order.
pub open spec fn unvisited_indices(visited: Set<usize>, m: nat) -> Seq<usize>
    decreases m,
{
    if m == 0 {
        seq![]
    } else {
        unvisited_indices(visited, (m - 1) as nat) + if visited.contains((m - 1) as usize) {
            seq![]
        } else {
            seq![(m - 1) as usize]
        }
    }
}

/// Which input report ends up at each position of [`tree_order`].
pub open spec fn tree_indices(s: Seq<LiveProcessReportView>) -> Seq<usize> {
    let (es, visited) = forest_walk(s);
    entry_indices(es) + unvisited_indices(visited, s.len())
}

/// What a walk that started from `visited` and ended at `v2` placed: distinct,
/// in-range, previously unvisited indices, exactly those added to `visited`.
pub open spec fn walk_ok(es: Seq<TreeEntry>, visited: Set<usize>, v2: Set<usize>, n: nat) -> bool {
    &&& entry_indices(es).no_duplicates()
    &&& forall|k: int| 0 <= k < es.len() ==> es[k].index < n && !visited.contains(#[trigger] es[k].index)
    &&& forall|x: usize| #[trigger] v2.contains(x) <==> (visited.contains(x) || entry_indices(es).contains(x))
}

proof fn lemma_walk_ok_concat(a: Seq<TreeEntry>, b: Seq<TreeEntry>, v0: Set<usize>, v1: Set<usize>, v2: Set<usize>, n: nat)
    requires
        walk_ok(a, v0, v1, n),
        walk_ok(b, v1, v2, n),
    ensures
        walk_ok(a + b, v0, v2, n),
{
    let ia = entry_indices(a);
    let ib = entry_indices(b);
    assert(entry_indices(a + b) =~= ia + ib);
    assert forall|p: int, q: int| 0 <= p < (ia + ib).len() && 0 <= q < (ia + ib).len() && p != q
        implies (ia + ib)[p] != (ia + ib)[q] by {
        if p < ia.len() && q >= ia.len() {
            assert(v1.contains(ia[p]));
            assert(b[q - ia.len()].index == ib[q - ia.len()]);
        } else if q < ia.len() && p >= ia.len() {
            assert(v1.contains(ia[q]));
            assert(b[p - ia.len()].index == ib[p - ia.len()]);
        }
    }
    assert forall|k: int| 0 <= k < (a + b).len() implies (a + b)[k].index < n && !v0.contains(#[trigger] (a + b)[k].index) by {
        if k >= a.len() {
            assert((a + b)[k] == b[k - a.len()]);
            if v0.contains(b[k - a.len()].index) {
                assert(v1.contains(b[k - a.len()].index));
            }
        }
    }
    assert forall|x: usize| #[trigger] v2.contains(x) <==> (v0.contains(x) || entry_indices(a + b).contains(x)) by {
        if ia.contains(x) {
            let k = choose|k: int| 0 <= k < ia.len() && ia[k] == x;
            assert((ia + ib)[k] == x);
        }
        if ib.contains(x) {
            let k = choose|k: int| 0 <= k < ib.len() && ib[k] == x;
            assert((ia + ib)[ia.len() + k] == x);
        }
        if (ia + ib).contains(x) {
            let k = choose|k: int| 0 <= k < (ia + ib).len() && (ia + ib)[k] == x;
            if k < ia.len() {
                assert(ia[k] == x);
            } else {
                assert(ib[k - ia.len()] == x);
            }
        }
    }
}

proof fn lemma_walk(
    par: Seq<Option<u32>>,
    pids: Seq<u32>,
    i: usize,
    prefix: Seq<char>,
    is_last: bool,
    depth: nat,
    visited: Set<usize>,
    fuel: nat,
)
    ensures
        ({
            let (es, v2) = walk(par, pids, i, prefix, is_last, depth, visited, fuel);
            walk_ok(es, visited, v2, pids.len())
        }),
    decreases fuel, 0int, 0int,
{
    let (es, v2) = walk(par, pids, i, prefix, is_last, depth, visited, fuel);
    if fuel == 0 || visited.contains(i) || i >= pids.len() {
        assert(entry_indices(es) =~= seq![]);
    } else {
        let cur = TreeEntry { index: i, prefix: entry_prefix(prefix, is_last, depth), depth };
        let ks = kids(par, Some(pids[i as int]), par.len());
        let (rest, v3) = walk_list(
            par,
            pids,
            ks,
            0,
            child_prefix(prefix, is_last, depth),
            depth + 1,
            visited.insert(i),
            (fuel - 1) as nat,
        );
        lemma_walk_list(
            par,
            pids,
            ks,
            0,
            child_prefix(prefix, is_last, depth),
            depth + 1,
            visited.insert(i),
            (fuel - 1) as nat,
        );
        assert(entry_indices(seq![cur]) =~= seq![i]);
        assert forall|x: usize| #[trigger] visited.insert(i).contains(x) <==> (visited.contains(x)
            || entry_indices(seq![cur]).contains(x)) by {
            if x == i {
                assert(entry_indices(seq![cur])[0] == x);
            }
        }
        assert(walk_ok(seq![cur], visited, visited.insert(i), pids.len()));
        lemma_walk_ok_concat(seq![cur], rest, visited, visited.insert(i), v3, pids.len());
    }
}

proof fn lemma_walk_list(
    par: Seq<Option<u32>>,
    pids: Seq<u32>,
    ks: Seq<usize>,
    j: nat,
    prefix: Seq<char>,
    depth: nat,
    visited: Set<usize>,
    fuel: nat,
)
    ensures
        ({
            let (es, v2) = walk_list(par, pids, ks, j, prefix, depth, visited, fuel);
            walk_ok(es, visited, v2, pids.len())
        }),
    decreases fuel, 1int, ks.len() - j,
{
    if j >= ks.len() {
        assert(entry_indices(seq![]) =~= seq![]);
    } else {
        let (a, v1) = walk(par, pids, ks[j as int], prefix, j == ks.len() - 1, depth, visited, fuel);
        let (b, v2) = walk_list(par, pids, ks, j + 1, prefix, depth, v1, fuel);
        lemma_walk(par, pids, ks[j as int], prefix, j == ks.len() - 1, depth, visited, fuel);
        lemma_walk_list(par, pids, ks, j + 1, prefix, depth, v1, fuel);
        lemma_walk_ok_concat(a, b, visited, v1, v2, pids.len());
    }
}

proof fn lemma_unvisited(s: Seq<LiveProcessReportView>, visited: Set<usize>, m: nat)
    requires
        m <= s.len(),
        s.len() <= usize::MAX,
    ensures
        unvisited(s, visited, m) == unvisited_indices(visited, m).map_values(|k: usize| s[k as int]),
        unvisited_indices(visited, m).no_duplicates(),
        forall|k: int| 0 <= k < unvisited_indices(visited, m).len() ==> unvisited_indices(visited, m)[k] < m
            && !visited.contains(#[trigger] unvisited_indices(visited, m)[k]),
        forall|x: usize| x < m && !visited.contains(x) ==> #[trigger] unvisited_indices(visited, m).contains(x),
    decreases m,
{
    if m > 0 {
        lemma_unvisited(s, visited, (m - 1) as nat);
        let prev = unvisited_indices(visited, (m - 1) as nat);
        let cur = unvisited_indices(visited, m);
        let f = |k: usize| s[k as int];
        if visited.contains((m - 1) as usize) {
            assert(cur =~= prev);
            assert(unvisited(s, visited, m) =~= unvisited(s, visited, (m - 1) as nat));
        } else {
            assert(cur =~= prev.push((m - 1) as usize));
            assert(cur.map_values(f) =~= prev.map_values(f).push(s[m - 1]));
            assert(unvisited(s, visited, m) =~= unvisited(s, visited, (m - 1) as nat).push(s[m - 1]));
            assert forall|p: int, q: int| 0 <= p < cur.len() && 0 <= q < cur.len() && p != q
                implies cur[p] != cur[q] by {
                if p < prev.len() && q < prev.len() {
                    assert(prev[p] != prev[q]);
                } else if p < prev.len() {
                    assert(prev[p] < m - 1);
                } else if q < prev.len() {
                    assert(prev[q] < m - 1);
                }
            }
        }
        assert(unvisited(s, visited, m) =~= cur.map_values(f));
        assert forall|x: usize| x < m && !visited.contains(x) implies #[trigger] cur.contains(x) by {
            if x < m - 1 {
                assert(prev.contains(x));
                let k = choose|k: int| 0 <= k < prev.len() && prev[k] == x;
                assert(cur[k] == x);
            } else {
                assert(cur[cur.len() - 1] == x);
            }
        }
    }
}

/// Laying out the tree neither loses nor duplicates a report: position `k`
/// of the result holds input report `tree_indices(s)[k]`, with only its tree
/// placement changed, and `tree_indices(s)` lists every input position
/// exactly once.
pub proof fn lemma_tree_order_permutes(s: Seq<LiveProcessReportView>)
    requires
        s.len() <= usize::MAX,
    ensures
        ({
            let perm = tree_indices(s);
            let out = tree_order(s);
            &&& perm.len() == out.len()
            &&& perm.no_duplicates()
            &&& forall|k: int| 0 <= k < perm.len() ==> #[trigger] perm[k] < s.len()
            &&& forall|x: usize| x < s.len() ==> #[trigger] perm.contains(x)
            &&& forall|k: int| 0 <= k < out.len() ==> #[trigger] unplaced(out[k]) == unplaced(s[perm[k] as int])
        }),
{
    let (es, visited) = forest_walk(s);
    lemma_walk_list(
        parent_keys(s),
        pids_of(s),
        kids(parent_keys(s), None, s.len()),
        0,
        seq![],
        0,
        Set::empty(),
        s.len(),
    );
    lemma_unvisited(s, visited, s.len());
    let ia = entry_indices(es);
    let ib = unvisited_indices(visited, s.len());
    let perm = tree_indices(s);
    let out = tree_order(s);
    assert(perm =~= ia + ib);
    assert forall|p: int, q: int| 0 <= p < perm.len() && 0 <= q < perm.len() && p != q
        implies perm[p] != perm[q] by {
        if p < ia.len() && q >= ia.len() {
            assert(visited.contains(ia[p]));
            assert(!visited.contains(ib[q - ia.len()]));
        } else if q < ia.len() && p >= ia.len() {
            assert(visited.contains(ia[q]));
            assert(!visited.contains(ib[p - ia.len()]));
        }
    }
    assert forall|k: int| 0 <= k < perm.len() implies #[trigger] perm[k] < s.len() by {
        if k < ia.len() {
            assert(es[k].index == ia[k]);
        } else {
            assert(ib[k - ia.len()] < s.len());
        }
    }
    assert forall|x: usize| x < s.len() implies #[trigger] perm.contains(x) by {
        if visited.contains(x) {
            let k = choose|k: int| 0 <= k < ia.len() && ia[k] == x;
            assert(perm[k] == x);
        } else {
            assert(ib.contains(x));
            let k = choose|k: int| 0 <= k < ib.len() && ib[k] == x;
            assert(perm[ia.len() + k] == x);
        }
    }
    assert forall|k: int| 0 <= k < out.len() implies #[trigger] unplaced(out[k]) == unplaced(s[perm[k] as int]) by {
        if k < es.len() {
            assert(out[k] == placed(s, es[k]));
            assert(unplaced(placed(s, es[k])) =~= unplaced(s[es[k].index as int]));
        } else {
            assert(out[k] == unvisited(s, visited, s.len())[k - es.len()]);
        }
    }
}

/// Entries laid out depth first from depth `d`: none is shallower than `d`,
/// the first is at `d`, each is at most one level deeper than the one before
/// it, and those at depth 0 carry no prefix.
pub open spec fn depth_first(es: Seq<TreeEntry>, d: nat) -> bool {
    &&& forall|k: int| 0 <= k < es.len() ==> d <= #[trigger] es[k].depth
    &&& es.len() > 0 ==> es[0].depth == d
    &&& forall|i: int, j: int|
        0 <= i && j == i + 1 && j < es.len() ==> #[trigger] es[j].depth <= #[trigger] es[i].depth
            + 1
    &&& forall|k: int| 0 <= k < es.len() && es[k].depth == 0 ==> #[trigger] es[k].prefix == Seq::<
        char,
    >::empty()
}

proof fn lemma_walk_depth_first(
    par: Seq<Option<u32>>,
    pids: Seq<u32>,
    i: usize,
    prefix: Seq<char>,
    is_last: bool,
    depth: nat,
    visited: Set<usize>,
    fuel: nat,
)
    ensures
        depth_first(walk(par, pids, i, prefix, is_last, depth, visited, fuel).0, depth),
    decreases fuel, 0int, 0int,
{
    if fuel == 0 || visited.contains(i) || i >= pids.len() {
    } else {
        let cur = TreeEntry { index: i, prefix: entry_prefix(prefix, is_last, depth), depth };
        let ks = kids(par, Some(pids[i as int]), par.len());
        let (rest, v2) = walk_list(
            par,
            pids,
            ks,
            0,
            child_prefix(prefix, is_last, depth),
            depth + 1,
            visited.insert(i),
            (fuel - 1) as nat,
        );
        lemma_walk_list_depth_first(
            par,
            pids,
            ks,
            0,
            child_prefix(prefix, is_last, depth),
            depth + 1,
            visited.insert(i),
            (fuel - 1) as nat,
        );
        let es = seq![cur] + rest;
        assert(walk(par, pids, i, prefix, is_last, depth, visited, fuel).0 == es);
        assert forall|k: int| 0 < k < es.len() implies es[k] == rest[k - 1] by {}
        assert forall|a: int, b: int| 0 <= a && b == a + 1 && b < es.len() implies #[trigger] es[b].depth
            <= #[trigger] es[a].depth + 1 by {
            if a > 0 {
                assert(es[a] == rest[a - 1]);
                assert(es[b] == rest[b - 1]);
            }
        }
    }
}

proof fn lemma_walk_list_depth_first(
    par: Seq<Option<u32>>,
    pids: Seq<u32>,
    ks: Seq<usize>,
    j: nat,
    prefix: Seq<char>,
    depth: nat,
    visited: Set<usize>,
    fuel: nat,
)
    ensures
        depth_first(walk_list(par, pids, ks, j, prefix, depth, visited, fuel).0, depth),
    decreases fuel, 1int, ks.len() - j,
{
    if j < ks.len() {
        let (a, v1) = walk(par, pids, ks[j as int], prefix, j == ks.len() - 1, depth, visited, fuel);
        let (b, v2) = walk_list(par, pids, ks, j + 1, prefix, depth, v1, fuel);
        lemma_walk_depth_first(par, pids, ks[j as int], prefix, j == ks.len() - 1, depth, visited, fuel);
        lemma_walk_list_depth_first(par, pids, ks, j + 1, prefix, depth, v1, fuel);
        let es = a + b;
        assert(walk_list(par, pids, ks, j, prefix, depth, visited, fuel).0 == es);
        assert forall|k: int| 0 <= k < es.len() implies depth <= #[trigger] es[k].depth by {
            if k < a.len() {
                assert(es[k] == a[k]);
            } else {
                assert(es[k] == b[k - a.len()]);
            }
        }
        assert forall|x: int, y: int| 0 <= x && y == x + 1 && y < es.len() implies #[trigger] es[y].depth
            <= #[trigger] es[x].depth + 1 by {
            if y < a.len() {
                assert(es[x] == a[x] && es[y] == a[y]);
            } else if x >= a.len() {
                assert(es[x] == b[x - a.len()] && es[y] == b[y - a.len()]);
            } else {
                assert(es[x] == a[x]);
                assert(es[y] == b[0]);
            }
        }
        assert forall|k: int| 0 <= k < es.len() && es[k].depth == 0 implies #[trigger] es[k].prefix
            == Seq::<char>::empty() by {
            if k < a.len() {
                assert(es[k] == a[k]);
            } else {
                assert(es[k] == b[k - a.len()]);
            }
        }
    }
}

/// The tree order begins with the processes reached from the roots, listed
/// depth first: the first is a root at depth 0, each is at most one level
/// deeper than the one before it, and the processes at depth 0 have no
/// prefix. Each of them shows the depth and prefix that the walk gave it.
pub proof fn lemma_tree_order_depth_first(s: Seq<LiveProcessReportView>)
    ensures
        ({
            let es = forest_walk(s).0;
            let out = tree_order(s);
            &&& depth_first(es, 0)
            &&& es.len() <= out.len()
            &&& forall|k: int| 0 <= k < es.len() ==> (#[trigger] out[k]).tree_prefix == es[k].prefix
                && out[k].depth == es[k].depth as usize
        }),
{
    lemma_walk_list_depth_first(
        parent_keys(s),
        pids_of(s),
        kids(parent_keys(s), None, s.len()),
        0,
        seq![],
        0,
        Set::empty(),
        s.len(),
    );
    let es = forest_walk(s).0;
    let out = tree_order(s);
    assert forall|k: int| 0 <= k < es.len() implies (#[trigger] out[k]).tree_prefix == es[k].prefix
        && out[k].depth == es[k].depth as usize by {
        assert(out[k] == placed(s, es[k]));
    }
}

proof fn lemma_kids_members(par: Seq<Option<u32>>, key: Option<u32>, m: nat)
    requires
        m <= par.len(),
        par.len() <= usize::MAX,
    ensures
        forall|j: int| 0 <= j < kids(par, key, m).len() ==> (#[trigger] kids(par, key, m)[j]) < m
            && par[kids(par, key, m)[j] as int] == key,
    decreases m,
{
    if m > 0 {
        lemma_kids_members(par, key, (m - 1) as nat);
        let prev = kids(par, key, (m - 1) as nat);
        assert forall|j: int| 0 <= j < kids(par, key, m).len() implies (#[trigger] kids(
            par,
            key,
            m,
        )[j]) < m && par[kids(par, key, m)[j] as int] == key by {
            if j < prev.len() {
                assert(kids(par, key, m)[j] == prev[j]);
            } else {
                assert(kids(par, key, m)[j] == (m - 1) as usize);
            }
        }
    }
}

/// Entry `m` is where the parent of entry `k` stands: the nearest entry
/// before `k` that is one level up.
pub open spec fn parent_slot(es: Seq<TreeEntry>, k: int, m: int) -> bool {
    &&& 0 <= m < k
    &&& es[m].depth + 1 == es[k].depth
    &&& forall|l: int| m < l < k ==> es[k].depth <= #[trigger] es[l].depth
}

/// Every entry deeper than `d` is a child of the process at its parent slot.
pub open spec fn follows_parents(par: Seq<Option<u32>>, pids: Seq<u32>, es: Seq<TreeEntry>, d: nat) -> bool {
    forall|k: int|
        0 <= k < es.len() && d < #[trigger] es[k].depth ==> exists|m: int|
            parent_slot(es, k, m) && par[es[k].index as int] == Some(pids[es[m].index as int])
}

/// The entries at depth `d` all have parent key `key`, and every entry is
/// the index of a process.
pub open spec fn heads_keyed(par: Seq<Option<u32>>, pids: Seq<u32>, es: Seq<TreeEntry>, d: nat, key: Option<u32>) -> bool {
    &&& forall|k: int| 0 <= k < es.len() ==> (#[trigger] es[k]).index < pids.len()
    &&& forall|k: int| 0 <= k < es.len() && #[trigger] es[k].depth == d ==> par[es[k].index as int] == key
}

proof fn lemma_walk_parents(
    par: Seq<Option<u32>>,
    pids: Seq<u32>,
    i: usize,
    prefix: Seq<char>,
    is_last: bool,
    depth: nat,
    visited: Set<usize>,
    fuel: nat,
    key: Option<u32>,
)
    requires
        par.len() == pids.len(),
        par.len() <= usize::MAX,
        par[i as int] == key,
    ensures
        heads_keyed(par, pids, walk(par, pids, i, prefix, is_last, depth, visited, fuel).0, depth, key),
        follows_parents(par, pids, walk(par, pids, i, prefix, is_last, depth, visited, fuel).0, depth),
    decreases fuel, 0int, 0int,
{
    if fuel == 0 || visited.contains(i) || i >= pids.len() {
    } else {
        let cur = TreeEntry { index: i, prefix: entry_prefix(prefix, is_last, depth), depth };
        let child_key = Some(pids[i as int]);
        let ks = kids(par, child_key, par.len());
        let cp = child_prefix(prefix, is_last, depth);
        let (rest, v2) = walk_list(par, pids, ks, 0, cp, depth + 1, visited.insert(i), (fuel - 1) as nat);
        lemma_kids_members(par, child_key, par.len());
        lemma_walk_list_parents(par, pids, ks, 0, cp, depth + 1, visited.insert(i), (fuel - 1) as nat, child_key);
        lemma_walk_list_depth_first(par, pids, ks, 0, cp, depth + 1, visited.insert(i), (fuel - 1) as nat);
        let es = seq![cur] + rest;
        assert(walk(par, pids, i, prefix, is_last, depth, visited, fuel).0 == es);
        assert forall|k: int| 0 < k < es.len() implies es[k] == rest[k - 1] by {}
        assert forall|k: int| 0 <= k < es.len() implies (#[trigger] es[k]).index < pids.len() by {
            if k > 0 {
                assert(es[k] == rest[k - 1]);
            }
        }
        assert forall|k: int| 0 <= k < es.len() && depth < #[trigger] es[k].depth implies exists|m: int|
            parent_slot(es, k, m) && par[es[k].index as int] == Some(pids[es[m].index as int]) by {
            assert(es[k] == rest[k - 1]);
            if es[k].depth == depth + 1 {
                assert forall|l: int| 0 < l < k implies es[k].depth <= #[trigger] es[l].depth by {
                    assert(es[l] == rest[l - 1]);
                }
                assert(parent_slot(es, k, 0));
            } else {
                assert(depth + 1 < rest[k - 1].depth);
                let m2 = choose|m: int|
                    parent_slot(rest, k - 1, m) && par[rest[k - 1].index as int] == Some(
                        pids[rest[m].index as int],
                    );
                assert(es[m2 + 1] == rest[m2]);
                assert forall|l: int| m2 + 1 < l < k implies es[k].depth <= #[trigger] es[l].depth by {
                    assert(es[l] == rest[l - 1]);
                }
                assert(parent_slot(es, k, m2 + 1));
            }
        }
    }
}

proof fn lemma_walk_list_parents(
    par: Seq<Option<u32>>,
    pids: Seq<u32>,
    ks: Seq<usize>,
    j: nat,
    prefix: Seq<char>,
    depth: nat,
    visited: Set<usize>,
    fuel: nat,
    key: Option<u32>,
)
    requires
        par.len() == pids.len(),
        par.len() <= usize::MAX,
        forall|x: int| j <= x < ks.len() ==> par[#[trigger] ks[x] as int] == key,
    ensures
        heads_keyed(par, pids, walk_list(par, pids, ks, j, prefix, depth, visited, fuel).0, depth, key),
        follows_parents(par, pids, walk_list(par, pids, ks, j, prefix, depth, visited, fuel).0, depth),
    decreases fuel, 1int, ks.len() - j,
{
    if j < ks.len() {
        let (a, v1) = walk(par, pids, ks[j as int], prefix, j == ks.len() - 1, depth, visited, fuel);
        let (b, v2) = walk_list(par, pids, ks, j + 1, prefix, depth, v1, fuel);
        lemma_walk_parents(par, pids, ks[j as int], prefix, j == ks.len() - 1, depth, visited, fuel, key);
        lemma_walk_list_parents(par, pids, ks, j + 1, prefix, depth, v1, fuel, key);
        let es = a + b;
        assert(walk_list(par, pids, ks, j, prefix, depth, visited, fuel).0 == es);
        assert forall|k: int| 0 <= k < es.len() implies (#[trigger] es[k]).index < pids.len() by {
            if k < a.len() {
                assert(es[k] == a[k]);
            } else {
                assert(es[k] == b[k - a.len()]);
            }
        }
        assert forall|k: int| 0 <= k < es.len() && #[trigger] es[k].depth == depth implies par[es[k].index as int] == key by {
            if k < a.len() {
                assert(es[k] == a[k]);
            } else {
                assert(es[k] == b[k - a.len()]);
            }
        }
        assert forall|k: int| 0 <= k < es.len() && depth < #[trigger] es[k].depth implies exists|m: int|
            parent_slot(es, k, m) && par[es[k].index as int] == Some(pids[es[m].index as int]) by {
            if k < a.len() {
                assert(es[k] == a[k]);
                let m2 = choose|m: int|
                    parent_slot(a, k, m) && par[a[k].index as int] == Some(pids[a[m].index as int]);
                assert(es[m2] == a[m2]);
                assert forall|l: int| m2 < l < k implies es[k].depth <= #[trigger] es[l].depth by {
                    assert(es[l] == a[l]);
                }
                assert(parent_slot(es, k, m2));
            } else {
                let kb = k - a.len();
                assert(es[k] == b[kb]);
                let m2 = choose|m: int|
                    parent_slot(b, kb, m) && par[b[kb].index as int] == Some(pids[b[m].index as int]);
                assert(es[m2 + a.len()] == b[m2]);
                assert forall|l: int| m2 + a.len() < l < k implies es[k].depth <= #[trigger] es[l].depth by {
                    assert(es[l] == b[l - a.len()]);
                }
                assert(parent_slot(es, k, m2 + a.len()));
            }
        }
    }
}

/// In tree order, every process below the roots is the child of its parent
/// slot: the nearest process before it one level up, with nothing shallower
/// in between.
pub proof fn lemma_tree_children_follow_parents(s: Seq<LiveProcessReportView>)
    requires
        s.len() <= usize::MAX,
    ensures
        ({
            let es = forest_walk(s).0;
            let out = tree_order(s);
            forall|k: int|
                0 <= k < es.len() && 0 < #[trigger] es[k].depth ==> exists|m: int|
                    parent_slot(es, k, m) && out[k].parent_pid == Some(out[m].pid)
        }),
{
    let par = parent_keys(s);
    let pids = pids_of(s);
    let roots = kids(par, None, s.len());
    lemma_kids_members(par, None, s.len());
    lemma_walk_list_parents(par, pids, roots, 0, seq![], 0, Set::empty(), s.len(), None);
    let es = forest_walk(s).0;
    let out = tree_order(s);
    assert forall|k: int| 0 <= k < es.len() && 0 < #[trigger] es[k].depth implies exists|m: int|
        parent_slot(es, k, m) && out[k].parent_pid == Some(out[m].pid) by {
        let m = choose|m: int|
            parent_slot(es, k, m) && par[es[k].index as int] == Some(pids[es[m].index as int]);
        assert(out[k] == placed(s, es[k]));
        assert(out[m] == placed(s, es[m]));
        assert(par[es[k].index as int] == effective_parent(s, es[k].index as int));
        assert(pids[es[m].index as int] == s[es[m].index as int].pid);
    }
}

/// No process id occurs twice.
pub open spec fn unique_pids(s: Seq<LiveProcessReportView>) -> bool {
    forall|i: int, j: int| 0 <= i < s.len() && 0 <= j < s.len() && i != j ==> s[i].pid != s[j].pid
}

proof fn lemma_last_with_pid_found(s: Seq<LiveProcessReportView>, pid: u32)
    ensures
        last_with_pid(s, pid) >= 0 ==> last_with_pid(s, pid) < s.len() && s[last_with_pid(s, pid)].pid
            == pid,
        last_with_pid(s, pid) >= -1,
    decreases s.len(),
{
    if s.len() > 0 && s.last().pid != pid {
        lemma_last_with_pid_found(s.drop_last(), pid);
    }
}

proof fn lemma_last_with_pid_unique(s: Seq<LiveProcessReportView>, x: int)
    requires
        unique_pids(s),
        0 <= x < s.len(),
    ensures
        last_with_pid(s, s[x].pid) == x,
    decreases s.len(),
{
    if x < s.len() - 1 {
        assert(s.last().pid != s[x].pid);
        assert(s.drop_last()[x] == s[x]);
        lemma_last_with_pid_unique(s.drop_last(), x);
    }
}

proof fn lemma_keep_latest_distinct(s: Seq<LiveProcessReportView>, t: Seq<LiveProcessReportView>, placed: nat)
    ensures
        pids_of(keep_latest(s, t, placed)).no_duplicates(),
    decreases t.len(),
{
    if t.len() > 0 {
        let prev = keep_latest(s, t.drop_last(), placed);
        lemma_keep_latest_distinct(s, t.drop_last(), placed);
        let e = t.last();
        if !pids_of(prev).contains(e.pid) {
            lemma_last_with_pid_found(s, e.pid);
            let r = latest_report(s, e, t.len() - 1 < placed);
            assert(r.pid == e.pid);
            assert(pids_of(prev.push(r)) =~= pids_of(prev).push(e.pid));
        }
    }
}

/// Every process id is listed at most once in the laid-out list.
pub proof fn lemma_tree_layout_lists_each_pid_once(s: Seq<LiveProcessReportView>)
    ensures
        pids_of(tree_layout(s)).no_duplicates(),
{
    lemma_keep_latest_distinct(s, tree_order(s), forest_walk(s).0.len());
}

/// When no two reports share a process id, the laid-out list is exactly the
/// tree order.
pub proof fn lemma_tree_layout_unique_pids(s: Seq<LiveProcessReportView>)
    requires
        s.len() <= usize::MAX,
        unique_pids(s),
    ensures
        tree_layout(s) == tree_order(s),
{
    let (es, visited) = forest_walk(s);
    let t = tree_order(s);
    let np = es.len();
    lemma_tree_order_permutes(s);
    lemma_unvisited(s, visited, s.len());
    let perm = tree_indices(s);
    let ia = entry_indices(es);
    let ib = unvisited_indices(visited, s.len());
    assert(perm =~= ia + ib);
    assert(t =~= placed_all(s, es) + unvisited(s, visited, s.len()));
    // each position of t holds the report that latest_report gives for it
    assert forall|k: int| 0 <= k < t.len() implies (#[trigger] t[k]).pid == s[perm[k] as int].pid
        && latest_report(s, t[k], k < np) == t[k] by {
        assert(unplaced(t[k]) == unplaced(s[perm[k] as int]));
        lemma_last_with_pid_unique(s, perm[k] as int);
        if k < np {
            assert(t[k] == placed(s, es[k]));
            assert(perm[k] == es[k].index);
        } else {
            assert(t[k] == unvisited(s, visited, s.len())[k - np]);
            assert(perm[k] == ib[k - np]);
        }
    }
    // and the ids of t are distinct
    assert forall|a: int, b: int| 0 <= a < t.len() && 0 <= b < t.len() && a != b implies t[a].pid
        != t[b].pid by {
        assert(t[a].pid == s[perm[a] as int].pid);
        assert(t[b].pid == s[perm[b] as int].pid);
        assert(perm[a] != perm[b]);
    }
    lemma_keep_latest_prefix(s, t, np as nat, t.len());
    assert(t.take(t.len() as int) =~= t);
}

proof fn lemma_keep_latest_prefix(s: Seq<LiveProcessReportView>, t: Seq<LiveProcessReportView>, np: nat, k: nat)
    requires
        k <= t.len(),
        forall|x: int| 0 <= x < t.len() ==> latest_report(s, #[trigger] t[x], x < np) == t[x],
        forall|a: int, b: int| 0 <= a < t.len() && 0 <= b < t.len() && a != b ==> (#[trigger] t[a]).pid
            != (#[trigger] t[b]).pid,
    ensures
        keep_latest(s, t.take(k as int), np) == t.take(k as int),
    decreases k,
{
    if k > 0 {
        lemma_keep_latest_prefix(s, t, np, (k - 1) as nat);
        let tk = t.take(k as int);
        assert(tk.drop_last() =~= t.take(k - 1));
        assert(tk.last() == t[k - 1]);
        let prev = t.take(k - 1);
        assert(!pids_of(prev).contains(t[k - 1].pid)) by {
            if pids_of(prev).contains(t[k - 1].pid) {
                let j = choose|j: int| 0 <= j < pids_of(prev).len() && pids_of(prev)[j] == t[k - 1].pid;
                assert(prev[j] == t[j]);
            }
        }
        assert(latest_report(s, t[k - 1], k - 1 < np) == t[k - 1]);
        assert(prev.push(t[k - 1]) =~= tk);
    } else {
        assert(t.take(0) =~= Seq::<LiveProcessReportView>::empty());
    }
}

proof fn lemma_kids_contains(par: Seq<Option<u32>>, key: Option<u32>, m: nat, i: int)
    requires
        0 <= i < m,
        m <= par.len(),
        par.len() <= usize::MAX,
        par[i] == key,
    ensures
        kids(par, key, m).contains(i as usize),
    decreases m,
{
    let prev = kids(par, key, (m - 1) as nat);
    if i < m - 1 {
        lemma_kids_contains(par, key, (m - 1) as nat, i);
        let k = choose|k: int| 0 <= k < prev.len() && prev[k] == i as usize;
        assert(kids(par, key, m)[k] == i as usize);
    } else {
        assert(kids(par, key, m)[prev.len() as int] == i as usize);
    }
}

/// Each report ranks above every report its parent key points to.
pub open spec fn ranked_below_parents(par: Seq<Option<u32>>, pids: Seq<u32>, rank: Seq<nat>) -> bool {
    forall|x: int, y: int|
        0 <= x < pids.len() && 0 <= y < par.len() && par[y] == Some(pids[x]) ==> #[trigger] rank[x]
            < #[trigger] rank[y]
}

/// Every report added to the visited set had all its children visited too.
pub open spec fn closed_under_kids(par: Seq<Option<u32>>, pids: Seq<u32>, before: Set<usize>, after: Set<usize>) -> bool {
    forall|x: usize, y: usize|
        #[trigger] after.contains(x) && !before.contains(x) && #[trigger] kids(
            par,
            Some(pids[x as int]),
            par.len(),
        ).contains(y) ==> after.contains(y)
}

proof fn lemma_walk_reaches(
    par: Seq<Option<u32>>,
    pids: Seq<u32>,
    rank: Seq<nat>,
    i: usize,
    prefix: Seq<char>,
    is_last: bool,
    depth: nat,
    visited: Set<usize>,
    fuel: nat,
)
    requires
        par.len() == pids.len(),
        rank.len() == pids.len(),
        par.len() <= usize::MAX,
        ranked_below_parents(par, pids, rank),
        forall|x: int| 0 <= x < rank.len() ==> #[trigger] rank[x] < rank.len(),
        i < pids.len(),
        depth <= rank[i as int],
        fuel + depth == pids.len(),
    ensures
        ({
            let v2 = walk(par, pids, i, prefix, is_last, depth, visited, fuel).1;
            &&& visited.subset_of(v2)
            &&& v2.contains(i)
            &&& closed_under_kids(par, pids, visited, v2)
        }),
    decreases fuel, 0int, 0int,
{
    if !visited.contains(i) {
        let ks = kids(par, Some(pids[i as int]), par.len());
        let cp = child_prefix(prefix, is_last, depth);
        let v1 = visited.insert(i);
        lemma_kids_members(par, Some(pids[i as int]), par.len());
        assert forall|x: int| 0 <= x < ks.len() implies (#[trigger] ks[x]) < pids.len() && depth + 1
            <= rank[ks[x] as int] by {
            assert(par[ks[x] as int] == Some(pids[i as int]));
            assert(rank[i as int] < rank[ks[x] as int]);
        }
        lemma_walk_list_reaches(par, pids, rank, ks, 0, cp, depth + 1, v1, (fuel - 1) as nat);
        let v2 = walk_list(par, pids, ks, 0, cp, depth + 1, v1, (fuel - 1) as nat).1;
        assert(walk(par, pids, i, prefix, is_last, depth, visited, fuel).1 == v2);
        assert forall|x: usize, y: usize|
            #[trigger] v2.contains(x) && !visited.contains(x) && #[trigger] kids(
                par,
                Some(pids[x as int]),
                par.len(),
            ).contains(y) implies v2.contains(y) by {
            if x == i {
                let k = choose|k: int| 0 <= k < ks.len() && ks[k] == y;
                assert(v2.contains(ks[k]));
            }
        }
    }
}

proof fn lemma_walk_list_reaches(
    par: Seq<Option<u32>>,
    pids: Seq<u32>,
    rank: Seq<nat>,
    ks: Seq<usize>,
    j: nat,
    prefix: Seq<char>,
    depth: nat,
    visited: Set<usize>,
    fuel: nat,
)
    requires
        par.len() == pids.len(),
        rank.len() == pids.len(),
        par.len() <= usize::MAX,
        ranked_below_parents(par, pids, rank),
        forall|x: int| 0 <= x < rank.len() ==> #[trigger] rank[x] < rank.len(),
        forall|x: int| j <= x < ks.len() ==> (#[trigger] ks[x]) < pids.len() && depth <= rank[ks[x] as int],
        fuel + depth == pids.len(),
    ensures
        ({
            let v2 = walk_list(par, pids, ks, j, prefix, depth, visited, fuel).1;
            &&& visited.subset_of(v2)
            &&& forall|x: int| j <= x < ks.len() ==> v2.contains(#[trigger] ks[x])
            &&& closed_under_kids(par, pids, visited, v2)
        }),
    decreases fuel, 1int, ks.len() - j,
{
    if j < ks.len() {
        let (a, v1) = walk(par, pids, ks[j as int], prefix, j == ks.len() - 1, depth, visited, fuel);
        lemma_walk_reaches(par, pids, rank, ks[j as int], prefix, j == ks.len() - 1, depth, visited, fuel);
        lemma_walk_list_reaches(par, pids, rank, ks, j + 1, prefix, depth, v1, fuel);
        let v2 = walk_list(par, pids, ks, j + 1, prefix, depth, v1, fuel).1;
        assert(walk_list(par, pids, ks, j, prefix, depth, visited, fuel).1 == v2);
        assert forall|x: usize, y: usize|
            #[trigger] v2.contains(x) && !visited.contains(x) && #[trigger] kids(
                par,
                Some(pids[x as int]),
                par.len(),
            ).contains(y) implies v2.contains(y) by {
            if v1.contains(x) {
                assert(v1.contains(y));
            }
        }
    }
}

proof fn lemma_ranked_visited(s: Seq<LiveProcessReportView>, rank: Seq<nat>, v: Set<usize>, i: int)
    requires
        s.len() <= usize::MAX,
        rank.len() == s.len(),
        ranked_below_parents(parent_keys(s), pids_of(s), rank),
        0 <= i < s.len(),
        forall|x: int| 0 <= x < s.len() && parent_keys(s)[x] is None ==> v.contains(x as usize),
        closed_under_kids(parent_keys(s), pids_of(s), Set::empty(), v),
    ensures
        v.contains(i as usize),
    decreases rank[i],
{
    let par = parent_keys(s);
    let pids = pids_of(s);
    match par[i] {
        None => {},
        Some(pp) => {
            assert(par[i] == effective_parent(s, i));
            assert(pids.contains(pp));
            let j = choose|j: int| 0 <= j < pids.len() && pids[j] == pp;
            assert(rank[j] < rank[i]);
            lemma_ranked_visited(s, rank, v, j);
            lemma_kids_contains(par, Some(pids[j]), s.len(), i);
            assert(kids(par, Some(pids[(j as usize) as int]), par.len()).contains(i as usize));
        },
    }
}

/// Without a parent cycle the walk from the roots reaches every report, so
/// nothing is left over after it. A cycle is ruled out by a ranking of the
/// reports below their number in which every report ranks above its parent.
pub proof fn lemma_tree_reaches_every_report(s: Seq<LiveProcessReportView>, rank: Seq<nat>)
    requires
        s.len() <= usize::MAX,
        rank.len() == s.len(),
        forall|x: int| 0 <= x < rank.len() ==> #[trigger] rank[x] < rank.len(),
        forall|x: int, y: int|
            0 <= x < s.len() && 0 <= y < s.len() && s[y].parent_pid == Some(s[x].pid) ==> #[trigger] rank[x]
                < #[trigger] rank[y],
    ensures
        forall|i: usize| i < s.len() ==> #[trigger] forest_walk(s).1.contains(i),
        tree_order(s) == placed_all(s, forest_walk(s).0),
{
    let par = parent_keys(s);
    let pids = pids_of(s);
    let roots = kids(par, None, s.len());
    assert forall|x: int, y: int|
        0 <= x < pids.len() && 0 <= y < par.len() && par[y] == Some(pids[x]) implies #[trigger] rank[x]
            < #[trigger] rank[y] by {
        assert(par[y] == effective_parent(s, y));
        assert(s[y].parent_pid == Some(s[x].pid));
    }
    lemma_kids_members(par, None, s.len());
    lemma_walk_list_reaches(par, pids, rank, roots, 0, seq![], 0, Set::empty(), s.len());
    let (es, v) = forest_walk(s);
    assert forall|x: int| 0 <= x < s.len() && par[x] is None implies v.contains(x as usize) by {
        lemma_kids_contains(par, None, s.len(), x);
        let k = choose|k: int| 0 <= k < roots.len() && roots[k] == x as usize;
        assert(v.contains(roots[k]));
    }
    assert forall|i: usize| i < s.len() implies #[trigger] v.contains(i) by {
        lemma_ranked_visited(s, rank, v, i as int);
    }
    lemma_unvisited_none(s, v, s.len());
    assert(tree_order(s) =~= placed_all(s, es));
}

proof fn lemma_unvisited_none(s: Seq<LiveProcessReportView>, v: Set<usize>, m: nat)
    requires
        m <= s.len(),
        s.len() <= usize::MAX,
        forall|i: usize| i < s.len() ==> #[trigger] v.contains(i),
    ensures
        unvisited(s, v, m) == Seq::<LiveProcessReportView>::empty(),
    decreases m,
{
    if m > 0 {
        lemma_unvisited_none(s, v, (m - 1) as nat);
        assert(v.contains((m - 1) as usize));
    }
}

} // verus!
