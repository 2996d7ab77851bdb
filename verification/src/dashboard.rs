//! What the dashboard shows: the cells of the process table, the titles and
//! labels of its panels, and the loaded modules grouped by directory.

use vstd::prelude::*;
use vstd::string::*;
use crate::text::{chars_of, decimal, join_strings, joined, push_char, push_decimal, str_eq, views};
use crate::types::{AnalysisReport, LiveProcessReport, LoadedModule, NetworkConnection};
use crate::report::{risk_class, risk_class_of, text_or_dash, utf8_len, utf8_prefix, vt_hits_label, vt_hits_text, RiskClass};
use vstd::utf8::*;

verus! {

// ---------------------------------------------------------------------------
// Ordering of directory names

/// `a` comes strictly before `b` in the lexicographic order of their
/// characters' code points (the order of `String`s, whose UTF-8 bytes compare
/// the same way).
pub open spec fn chars_before(a: Seq<char>, b: Seq<char>) -> bool
    decreases a.len(),
{
    if b.len() == 0 {
        false
    } else if a.len() == 0 {
        true
    } else if a[0] != b[0] {
        (a[0] as u32) < (b[0] as u32)
    } else {
        chars_before(a.drop_first(), b.drop_first())
    }
}

proof fn lemma_before_irreflexive(a: Seq<char>)
    ensures
        !chars_before(a, a),
    decreases a.len(),
{
    if a.len() > 0 {
        lemma_before_irreflexive(a.drop_first());
    }
}

proof fn lemma_before_distinct(a: Seq<char>, b: Seq<char>)
    requires
        chars_before(a, b),
    ensures
        a != b,
{
    lemma_before_irreflexive(a);
}

proof fn lemma_before_transitive(a: Seq<char>, b: Seq<char>, c: Seq<char>)
    requires
        chars_before(a, b),
        chars_before(b, c),
    ensures
        chars_before(a, c),
    decreases a.len(),
{
    if a.len() > 0 && b.len() > 0 && c.len() > 0 && a[0] == b[0] && b[0] == c[0] {
        lemma_before_transitive(a.drop_first(), b.drop_first(), c.drop_first());
    }
}

proof fn lemma_before_total(a: Seq<char>, b: Seq<char>)
    requires
        a != b,
    ensures
        chars_before(a, b) || chars_before(b, a),
    decreases a.len(),
{
    if a.len() > 0 && b.len() > 0 {
        if a[0] == b[0] {
            if a.drop_first() == b.drop_first() {
                assert(a.drop_first().len() == a.len() - 1);
                assert(b.drop_first().len() == b.len() - 1);
                assert(a =~= b) by {
                    assert forall|i: int| 0 <= i < a.len() implies a[i] == b[i] by {
                        if i > 0 {
                            assert(a[i] == a.drop_first()[i - 1]);
                            assert(b[i] == b.drop_first()[i - 1]);
                        }
                    }
                }
            }
            lemma_before_total(a.drop_first(), b.drop_first());
        } else {
            if (a[0] as u32) == (b[0] as u32) {
                vstd::utf8::char_u32_cast(a[0], a[0] as u32);
                vstd::utf8::char_u32_cast(b[0], b[0] as u32);
            }
        }
    } else if a.len() == 0 && b.len() == 0 {
        assert(a =~= b);
    }
}

/// Whether `a` comes strictly before `b`, decided character by character.
fn text_before(a: &str, b: &str) -> (r: bool)
    ensures
        r == chars_before(a@, b@),
{
    let av = chars_of(a);
    let bv = chars_of(b);
    let mut i: usize = 0;
    assert(av@.skip(0) =~= av@);
    assert(bv@.skip(0) =~= bv@);
    loop
        invariant
            av@ == a@,
            bv@ == b@,
            i <= av@.len(),
            i <= bv@.len(),
            chars_before(av@, bv@) == chars_before(av@.skip(i as int), bv@.skip(i as int)),
        decreases av@.len() - i,
    {
        if i == bv.len() {
            assert(bv@.skip(i as int).len() == 0);
            return false;
        }
        if i == av.len() {
            assert(av@.skip(i as int).len() == 0);
            return true;
        }
        assert(av@.skip(i as int)[0] == av@[i as int]);
        assert(bv@.skip(i as int)[0] == bv@[i as int]);
        if av[i] != bv[i] {
            return (av[i] as u32) < (bv[i] as u32);
        }
        assert(av@.skip(i as int).drop_first() =~= av@.skip(i + 1));
        assert(bv@.skip(i as int).drop_first() =~= bv@.skip(i + 1));
        i += 1;
    }
}

// ---------------------------------------------------------------------------
// Modules grouped by directory

/// The result of `Path::parent` on a path, shown with `Path::display`.
pub uninterp spec fn path_parent(path: Seq<char>) -> Option<Seq<char>>;

/// Calls `Path::parent` and shows the parent with `Path::display`. Claimed:
/// the answer depends on the path's characters alone (under the path rules of
/// the platform the program is built for); how the parent is found is left
/// unsaid.
#[verifier::external_body]
fn parent_dir_of(path: &str) -> (r: Option<String>)
    ensures
        match r {
            Some(d) => path_parent(path@) == Some(d@),
            None => path_parent(path@) is None,
        },
{
    std::path::Path::new(path).parent().map(|p| p.display().to_string())
}

/// The directory a module is listed under: its path's parent, or `/`.
pub open spec fn module_dir(path: Seq<char>) -> Seq<char> {
    match path_parent(path) {
        Some(d) => d,
        None => "/"@,
    }
}

/// The directory a module is listed under.
pub fn module_dir_of(path: &str) -> (r: String)
    ensures
        r@ == module_dir(path@),
{
    match parent_dir_of(path) {
        Some(d) => d,
        None => String::from_str("/"),
    }
}

/// The directories of a list of modules, in order.
pub open spec fn module_dirs(dlls: Seq<LoadedModule>) -> Seq<Seq<char>> {
    dlls.map_values(|m: LoadedModule| module_dir(m.path@))
}

/// Which modules of a list sit in a suspicious location, in order.
pub open spec fn location_flags(dlls: Seq<LoadedModule>) -> Seq<bool> {
    dlls.map_values(|m: LoadedModule| m.is_suspicious_location)
}

/// The positions, in increasing order, of the entries of `dirs` equal to `d`.
pub open spec fn indices_in_dir(dirs: Seq<Seq<char>>, d: Seq<char>) -> Seq<usize>
    decreases dirs.len(),
{
    if dirs.len() == 0 {
        Seq::empty()
    } else {
        indices_in_dir(dirs.drop_last(), d) + if dirs.last() == d {
            seq![(dirs.len() - 1) as usize]
        } else {
            Seq::<usize>::empty()
        }
    }
}

/// Some entry of `dirs` equal to `d` carries a raised flag.
pub open spec fn flagged_in_dir(dirs: Seq<Seq<char>>, flags: Seq<bool>, d: Seq<char>) -> bool
    decreases dirs.len(),
{
    if dirs.len() == 0 {
        false
    } else {
        flagged_in_dir(dirs.drop_last(), flags.drop_last(), d) || (dirs.last() == d && flags.last())
    }
}

/// The modules of one directory.
pub struct ModuleGroup {
    /// The directory.
    pub dir: String,
    /// Positions of its modules in the process's module list, in order.
    pub members: Vec<usize>,
    /// Some module of the directory sits in a suspicious location.
    pub suspicious: bool,
}

/// The directories of `gs` are in strictly increasing order.
pub open spec fn groups_sorted(gs: Seq<ModuleGroup>) -> bool {
    forall|i: int, j: int| 0 <= i < j < gs.len() ==> chars_before(#[trigger] gs[i].dir@, #[trigger] gs[j].dir@)
}

/// A group holds exactly the modules of its directory, at least one, and is
/// suspicious exactly when one of them is.
pub open spec fn group_matches(dirs: Seq<Seq<char>>, flags: Seq<bool>, g: ModuleGroup) -> bool {
    &&& g.members@ == indices_in_dir(dirs, g.dir@)
    &&& g.members@.len() > 0
    &&& g.suspicious == flagged_in_dir(dirs, flags, g.dir@)
}

/// Some group of `gs` is for directory `d`.
pub open spec fn has_group(gs: Seq<ModuleGroup>, d: Seq<char>) -> bool {
    exists|i: int| 0 <= i < gs.len() && gs[i].dir@ == d
}

/// `gs` is the grouping by directory of modules with directories `dirs` and
/// location flags `flags`: one group per directory, in increasing order of
/// directory.
pub open spec fn is_grouping(dirs: Seq<Seq<char>>, flags: Seq<bool>, gs: Seq<ModuleGroup>) -> bool {
    &&& groups_sorted(gs)
    &&& forall|i: int| 0 <= i < gs.len() ==> group_matches(dirs, flags, #[trigger] gs[i])
    &&& forall|k: int| 0 <= k < dirs.len() ==> has_group(gs, #[trigger] dirs[k])
}

proof fn lemma_dir_absent(dirs: Seq<Seq<char>>, flags: Seq<bool>, d: Seq<char>)
    requires
        forall|k: int| 0 <= k < dirs.len() ==> dirs[k] != d,
        flags.len() == dirs.len(),
    ensures
        indices_in_dir(dirs, d) == Seq::<usize>::empty(),
        !flagged_in_dir(dirs, flags, d),
    decreases dirs.len(),
{
    if dirs.len() > 0 {
        lemma_dir_absent(dirs.drop_last(), flags.drop_last(), d);
        assert(indices_in_dir(dirs, d) =~= Seq::<usize>::empty());
    }
}

proof fn lemma_dir_push(dirs: Seq<Seq<char>>, flags: Seq<bool>, x: Seq<char>, f: bool, d: Seq<char>)
    ensures
        indices_in_dir(dirs.push(x), d) == indices_in_dir(dirs, d) + if x == d {
            seq![dirs.len() as usize]
        } else {
            Seq::<usize>::empty()
        },
        flagged_in_dir(dirs.push(x), flags.push(f), d) == (flagged_in_dir(dirs, flags, d) || (x
            == d && f)),
{
    assert(dirs.push(x).drop_last() =~= dirs);
    assert(flags.push(f).drop_last() =~= flags);
}

/// Pushing module `dirs.len()` into the existing group `p` of its directory
/// keeps a grouping.
proof fn lemma_grouping_extend(
    dirs: Seq<Seq<char>>,
    flags: Seq<bool>,
    gs: Seq<ModuleGroup>,
    ns: Seq<ModuleGroup>,
    p: int,
    d: Seq<char>,
    f: bool,
)
    requires
        is_grouping(dirs, flags, gs),
        flags.len() == dirs.len(),
        0 <= p < gs.len(),
        gs[p].dir@ == d,
        ns.len() == gs.len(),
        forall|i: int| 0 <= i < gs.len() && i != p ==> ns[i] == gs[i],
        ns[p].dir@ == d,
        ns[p].members@ == gs[p].members@.push(dirs.len() as usize),
        ns[p].suspicious == (gs[p].suspicious || f),
    ensures
        is_grouping(dirs.push(d), flags.push(f), ns),
{
    let dirs2 = dirs.push(d);
    let flags2 = flags.push(f);
    assert forall|i: int, j: int| 0 <= i < j < ns.len() implies chars_before(
        #[trigger] ns[i].dir@,
        #[trigger] ns[j].dir@,
    ) by {
        assert(chars_before(gs[i].dir@, gs[j].dir@));
    }
    assert forall|i: int| 0 <= i < ns.len() implies group_matches(dirs2, flags2, #[trigger] ns[i]) by {
        lemma_dir_push(dirs, flags, d, f, ns[i].dir@);
        assert(group_matches(dirs, flags, gs[i]));
        if i != p {
            if i < p {
                assert(chars_before(gs[i].dir@, gs[p].dir@));
            } else {
                assert(chars_before(gs[p].dir@, gs[i].dir@));
            }
            lemma_before_irreflexive(d);
            assert(indices_in_dir(dirs2, ns[i].dir@) =~= indices_in_dir(dirs, ns[i].dir@));
        } else {
            assert(ns[p].members@ =~= indices_in_dir(dirs2, d));
        }
    }
    assert forall|k: int| 0 <= k < dirs2.len() implies has_group(ns, #[trigger] dirs2[k]) by {
        if k < dirs.len() {
            assert(dirs2[k] == dirs[k]);
            assert(has_group(gs, dirs[k]));
            let i = choose|i: int| 0 <= i < gs.len() && gs[i].dir@ == dirs[k];
            assert(ns[i].dir@ == gs[i].dir@);
        } else {
            assert(ns[p].dir@ == dirs2[k]);
        }
    }
}

/// Inserting a new group for module `dirs.len()` at position `p`, where its
/// directory belongs in the order and has no group yet, keeps a grouping.
proof fn lemma_grouping_insert(
    dirs: Seq<Seq<char>>,
    flags: Seq<bool>,
    gs: Seq<ModuleGroup>,
    ns: Seq<ModuleGroup>,
    p: int,
    d: Seq<char>,
    f: bool,
)
    requires
        is_grouping(dirs, flags, gs),
        flags.len() == dirs.len(),
        0 <= p <= gs.len(),
        forall|i: int| 0 <= i < p ==> chars_before(#[trigger] gs[i].dir@, d),
        p < gs.len() ==> !chars_before(gs[p].dir@, d) && gs[p].dir@ != d,
        ns.len() == gs.len() + 1,
        forall|i: int| 0 <= i < p ==> ns[i] == gs[i],
        forall|i: int| p <= i < gs.len() ==> ns[i + 1] == gs[i],
        ns[p].dir@ == d,
        ns[p].members@ == seq![dirs.len() as usize],
        ns[p].suspicious == f,
    ensures
        is_grouping(dirs.push(d), flags.push(f), ns),
{
    let dirs2 = dirs.push(d);
    let flags2 = flags.push(f);
    // every group from position p on comes after d
    assert forall|j: int| p <= j < gs.len() implies chars_before(d, #[trigger] gs[j].dir@) by {
        lemma_before_total(gs[p].dir@, d);
        if j > p {
            assert(chars_before(gs[p].dir@, gs[j].dir@));
            lemma_before_transitive(d, gs[p].dir@, gs[j].dir@);
        }
    }
    // so no group is for d, and no earlier module lies in d
    assert forall|i: int| 0 <= i < gs.len() implies #[trigger] gs[i].dir@ != d by {
        if i < p {
            lemma_before_distinct(gs[i].dir@, d);
        } else {
            lemma_before_distinct(d, gs[i].dir@);
        }
    }
    assert forall|k: int| 0 <= k < dirs.len() implies dirs[k] != d by {
        assert(has_group(gs, dirs[k]));
    }
    lemma_dir_absent(dirs, flags, d);
    lemma_dir_push(dirs, flags, d, f, d);
    assert(indices_in_dir(dirs2, d) =~= seq![dirs.len() as usize]);
    assert forall|i: int, j: int| 0 <= i < j < ns.len() implies chars_before(
        #[trigger] ns[i].dir@,
        #[trigger] ns[j].dir@,
    ) by {
        if j < p {
            assert(chars_before(gs[i].dir@, gs[j].dir@));
        } else if j == p {
            assert(chars_before(gs[i].dir@, d));
        } else if i < p {
            assert(chars_before(gs[i].dir@, d));
            assert(chars_before(d, gs[j - 1].dir@));
            lemma_before_transitive(gs[i].dir@, d, gs[j - 1].dir@);
        } else if i == p {
            assert(chars_before(d, gs[j - 1].dir@));
        } else {
            assert(chars_before(gs[i - 1].dir@, gs[j - 1].dir@));
        }
    }
    assert forall|i: int| 0 <= i < ns.len() implies group_matches(dirs2, flags2, #[trigger] ns[i]) by {
        if i != p {
            let oi = if i < p { i } else { i - 1 };
            assert(ns[i] == gs[oi]);
            assert(group_matches(dirs, flags, gs[oi]));
            assert(gs[oi].dir@ != d);
            lemma_dir_push(dirs, flags, d, f, gs[oi].dir@);
            assert(indices_in_dir(dirs2, gs[oi].dir@) =~= indices_in_dir(dirs, gs[oi].dir@));
        }
    }
    assert forall|k: int| 0 <= k < dirs2.len() implies has_group(ns, #[trigger] dirs2[k]) by {
        if k < dirs.len() {
            assert(dirs2[k] == dirs[k]);
            assert(has_group(gs, dirs[k]));
            let i = choose|i: int| 0 <= i < gs.len() && gs[i].dir@ == dirs[k];
            if i < p {
                assert(ns[i].dir@ == dirs[k]);
            } else {
                assert(ns[i + 1].dir@ == dirs[k]);
            }
        } else {
            assert(ns[p].dir@ == dirs2[k]);
        }
    }
}

/// The first position whose directory does not come before `d`.
fn insertion_point(groups: &Vec<ModuleGroup>, d: &str) -> (p: usize)
    ensures
        p <= groups@.len(),
        forall|i: int| 0 <= i < p ==> chars_before(#[trigger] groups@[i].dir@, d@),
        p < groups@.len() ==> !chars_before(groups@[p as int].dir@, d@),
{
    let mut p: usize = 0;
    while p < groups.len()
        invariant
            p <= groups@.len(),
            forall|i: int| 0 <= i < p ==> chars_before(#[trigger] groups@[i].dir@, d@),
        decreases groups@.len() - p,
    {
        if !text_before(groups[p].dir.as_str(), d) {
            return p;
        }
        p += 1;
    }
    p
}

/// Groups a process's modules by directory, directories in increasing order,
/// each group listing its modules' positions in order.
pub fn module_groups(dlls: &[LoadedModule]) -> (gs: Vec<ModuleGroup>)
    ensures
        is_grouping(module_dirs(dlls@), location_flags(dlls@), gs@),
{
    let ghost dirs = module_dirs(dlls@);
    let ghost flags = location_flags(dlls@);
    let mut groups: Vec<ModuleGroup> = Vec::new();
    let mut k: usize = 0;
    while k < dlls.len()
        invariant
            k <= dlls@.len(),
            dirs == module_dirs(dlls@),
            flags == location_flags(dlls@),
            is_grouping(dirs.take(k as int), flags.take(k as int), groups@),
        decreases dlls@.len() - k,
    {
        let d = module_dir_of(dlls[k].path.as_str());
        let f = dlls[k].is_suspicious_location;
        let ghost before = groups@;
        proof {
            assert(dirs.take(k + 1) =~= dirs.take(k as int).push(d@));
            assert(flags.take(k + 1) =~= flags.take(k as int).push(f));
        }
        let p = insertion_point(&groups, d.as_str());
        if p < groups.len() && str_eq(groups[p].dir.as_str(), d.as_str()) {
            let mut g = groups.remove(p);
            g.members.push(k);
            g.suspicious = g.suspicious || f;
            groups.insert(p, g);
            proof {
                lemma_grouping_extend(
                    dirs.take(k as int),
                    flags.take(k as int),
                    before,
                    groups@,
                    p as int,
                    d@,
                    f,
                );
            }
        } else {
            let mut members: Vec<usize> = Vec::new();
            members.push(k);
            let ghost dv = d@;
            groups.insert(p, ModuleGroup { dir: d, members, suspicious: f });
            proof {
                assert(members@ =~= seq![k]);
                lemma_grouping_insert(
                    dirs.take(k as int),
                    flags.take(k as int),
                    before,
                    groups@,
                    p as int,
                    dv,
                    f,
                );
            }
        }
        k += 1;
    }
    proof {
        assert(dirs.take(dlls@.len() as int) =~= dirs);
        assert(flags.take(dlls@.len() as int) =~= flags);
    }
    groups
}

/// How many directory groups the module tree shows.
pub const MODULE_GROUPS_SHOWN: usize = 6;

// ---------------------------------------------------------------------------
// The process table

/// `s` right-aligned in a field of `w` characters (`{:>w}`).
pub open spec fn pad_left(s: Seq<char>, w: nat) -> Seq<char> {
    if s.len() >= w {
        s
    } else {
        Seq::new((w - s.len()) as nat, |i: int| ' ') + s
    }
}

/// Right-aligns `s` in a field of `w` characters.
pub fn padded_left(s: &str, w: usize) -> (r: String)
    ensures
        r@ == pad_left(s@, w as nat),
{
    let v = chars_of(s);
    let mut out = String::new();
    if v.len() < w {
        let fill = w - v.len();
        let mut i: usize = 0;
        while i < fill
            invariant
                i <= fill,
                out@ == Seq::new(i as nat, |k: int| ' '),
            decreases fill - i,
        {
            push_char(&mut out, ' ');
            assert(out@ =~= Seq::new((i + 1) as nat, |k: int| ' '));
            i += 1;
        }
    }
    out.append(s);
    assert(out@ =~= pad_left(s@, w as nat));
    out
}

/// The short risk badge of the table: `HIGH`, `REVIEW` or `LOW`.
pub open spec fn risk_badge_text(level: Seq<char>) -> Seq<char> {
    match risk_class_of(level) {
        RiskClass::High => "HIGH"@,
        RiskClass::Review => "REVIEW"@,
        RiskClass::Low => "LOW"@,
    }
}

/// The short risk badge of a risk level.
pub fn risk_badge(level: &str) -> (r: String)
    ensures
        r@ == risk_badge_text(level@),
{
    match risk_class(level) {
        RiskClass::High => String::from_str("HIGH"),
        RiskClass::Review => String::from_str("REVIEW"),
        RiskClass::Low => String::from_str("LOW"),
    }
}

/// The name cell: in tree view the name follows its tree prefix.
pub open spec fn display_name_text(p: LiveProcessReport, tree_view: bool) -> Seq<char> {
    if tree_view {
        p.tree_prefix@ + p.name@
    } else {
        p.name@
    }
}

/// The cells of one row of the process table.
pub struct ProcessRow {
    pub pid: String,
    pub name: String,
    pub score: String,
    pub risk: String,
    pub connections: String,
    pub modules: String,
    pub vt: String,
    pub path: String,
}

fn decimal_text(n: u64) -> (r: String)
    ensures
        r@ == decimal(n as nat),
{
    let mut out = String::new();
    push_decimal(&mut out, n);
    assert(out@ =~= decimal(n as nat));
    out
}

/// The cells of a process's row in the table.
pub fn process_row(p: &LiveProcessReport, tree_view: bool) -> (row: ProcessRow)
    ensures
        row.pid@ == decimal(p.pid as nat),
        row.name@ == display_name_text(*p, tree_view),
        row.score@ == pad_left(decimal(p.risk_score as nat), 3),
        row.risk@ == risk_badge_text(p.risk_level@),
        row.connections@ == decimal(p.network_connections@.len()),
        row.modules@ == decimal(p.loaded_dlls@.len()),
        row.vt@ == vt_hits_text(p.vt_report),
        row.path@ == text_or_dash(p.exe_path),
{
    let name = if tree_view {
        let mut n = p.tree_prefix.clone();
        n.append(p.name.as_str());
        n
    } else {
        p.name.clone()
    };
    let score = decimal_text(p.risk_score as u64);
    let path = match &p.exe_path {
        Some(e) => e.clone(),
        None => String::from_str("-"),
    };
    ProcessRow {
        pid: decimal_text(p.pid as u64),
        name,
        score: padded_left(score.as_str(), 3),
        risk: risk_badge(p.risk_level.as_str()),
        connections: decimal_text(p.network_connections.len() as u64),
        modules: decimal_text(p.loaded_dlls.len() as u64),
        vt: vt_hits_label(&p.vt_report),
        path,
    }
}

/// The title of the process table.
pub open spec fn table_title_text(count: nat, tree_view: bool) -> Seq<char> {
    if tree_view {
        " Process Execution Tree ("@ + decimal(count) + ") "@
    } else {
        " Processes sorted by Risk ("@ + decimal(count) + ") "@
    }
}

/// The title of the process table for `count` rows.
pub fn table_title(count: usize, tree_view: bool) -> (r: String)
    ensures
        r@ == table_title_text(count as nat, tree_view),
{
    let mut out = if tree_view {
        String::from_str(" Process Execution Tree (")
    } else {
        String::from_str(" Processes sorted by Risk (")
    };
    push_decimal(&mut out, count as u64);
    out.append(") ");
    out
}

// ---------------------------------------------------------------------------
// The process inspector

/// The title of the inspector: the first shown line once it is scrolled.
pub open spec fn inspector_title_text(scroll: u16) -> Seq<char> {
    if scroll > 0 {
        " Process Inspector (Line "@ + decimal((scroll + 1) as nat) + ") [Tab to switch focus] "@
    } else {
        " Process Inspector [Tab to switch focus] "@
    }
}

/// The title of the inspector.
pub fn inspector_title(scroll: u16) -> (r: String)
    ensures
        r@ == inspector_title_text(scroll),
{
    if scroll > 0 {
        let mut out = String::from_str(" Process Inspector (Line ");
        push_decimal(&mut out, scroll as u64 + 1);
        out.append(") [Tab to switch focus] ");
        out
    } else {
        String::from_str(" Process Inspector [Tab to switch focus] ")
    }
}

/// The parent line of the inspector: the parent's name and pid (0 when the
/// pid is unknown).
pub open spec fn parent_line_text(parent: Seq<char>, parent_pid: Option<u32>) -> Seq<char> {
    parent + " (PID: "@ + decimal(
        match parent_pid {
            Some(x) => x as nat,
            None => 0,
        },
    ) + ")"@
}

/// The parent line of a process, when its parent's name is known.
pub fn parent_line(p: &LiveProcessReport) -> (r: Option<String>)
    ensures
        match p.parent_name {
            Some(n) => r is Some && r->0@ == parent_line_text(n@, p.parent_pid),
            None => r is None,
        },
{
    match &p.parent_name {
        Some(n) => {
            let mut out = n.clone();
            out.append(" (PID: ");
            let pid: u32 = match p.parent_pid {
                Some(x) => x,
                None => 0,
            };
            push_decimal(&mut out, pid as u64);
            out.append(")");
            Some(out)
        },
        None => None,
    }
}

/// The command line of a process, its arguments separated by spaces.
pub fn command_line_text(p: &LiveProcessReport) -> (r: String)
    ensures
        r@ == joined(views(p.cmdline@), " "@),
{
    join_strings(p.cmdline.as_slice(), " ")
}

/// The signature line of the inspector, for a process with a static report.
pub open spec fn inspector_signature_text(st: AnalysisReport) -> Seq<char> {
    if st.is_signed {
        "Signed ("@ + text_or_valid(st.signature_publisher) + ")"@
    } else {
        "Un-signed / No Digital Signature"@
    }
}

/// A publisher, or `Valid` when none was recovered.
pub open spec fn text_or_valid(s: Option<String>) -> Seq<char> {
    match s {
        Some(x) => x@,
        None => "Valid"@,
    }
}

/// The signature line of the inspector.
pub fn inspector_signature(st: &AnalysisReport) -> (r: String)
    ensures
        r@ == inspector_signature_text(*st),
{
    if st.is_signed {
        let mut out = String::from_str("Signed (");
        match &st.signature_publisher {
            Some(p) => out.append(p.as_str()),
            None => out.append("Valid"),
        }
        out.append(")");
        out
    } else {
        String::from_str("Un-signed / No Digital Signature")
    }
}

/// The score line of the inspector: `score/100 [level]`.
pub open spec fn score_line_text(score: u32, level: Seq<char>) -> Seq<char> {
    decimal(score as nat) + "/100 ["@ + level + "]"@
}

/// The score line of a process.
pub fn score_line(p: &LiveProcessReport) -> (r: String)
    ensures
        r@ == score_line_text(p.risk_score, p.risk_level@),
{
    let mut out = String::new();
    push_decimal(&mut out, p.risk_score as u64);
    out.append("/100 [");
    out.append(p.risk_level.as_str());
    out.append("]");
    assert(out@ =~= score_line_text(p.risk_score, p.risk_level@));
    out
}

/// The route of a socket in the inspector: `local ──> ip:port`.
pub open spec fn socket_route_text(c: NetworkConnection) -> Seq<char> {
    c.local_addr@ + " ──> "@ + c.remote_ip@ + ":"@ + decimal(c.remote_port as nat)
}

/// The route of a socket.
pub fn socket_route(c: &NetworkConnection) -> (r: String)
    ensures
        r@ == socket_route_text(*c),
{
    let mut out = c.local_addr.clone();
    out.append(" ──> ");
    out.append(c.remote_ip.as_str());
    out.append(":");
    push_decimal(&mut out, c.remote_port as u64);
    assert(out@ =~= socket_route_text(*c));
    out
}

/// The branch drawn before a module in the module tree.
pub open spec fn module_branch_text(is_last: bool) -> Seq<char> {
    if is_last {
        "    └── "@
    } else {
        "    ├── "@
    }
}

/// The branch drawn before a module.
pub fn module_branch(is_last: bool) -> (r: String)
    ensures
        r@ == module_branch_text(is_last),
{
    if is_last {
        String::from_str("    └── ")
    } else {
        String::from_str("    ├── ")
    }
}

/// A module's hash may be cut to its first 12 bytes.
pub open spec fn hash_cuttable(sha: Option<String>) -> bool {
    match sha {
        Some(h) => utf8_len(h@) <= usize::MAX && 12 <= utf8_len(h@) && is_char_boundary(
            encode_utf8(h@),
            12,
        ),
        None => true,
    }
}

/// The hash tag of a module: its hash's first 12 bytes in brackets, or nothing.
pub open spec fn hash_tag_text(sha: Option<String>) -> Seq<char> {
    match sha {
        Some(h) => " ["@ + utf8_prefix(h@, 12) + "]"@,
        None => Seq::empty(),
    }
}

/// The hash tag of a module.
pub fn hash_tag(sha: &Option<String>) -> (r: String)
    requires
        hash_cuttable(*sha),
    ensures
        r@ == hash_tag_text(*sha),
{
    match sha {
        Some(h) => {
            let (head, _tail) = h.as_str().split_at(12);
            assert(head@ == utf8_prefix(h@, 12)) by {
                broadcast use encode_utf8_decode_utf8;

                assert(encode_utf8(head@) == encode_utf8(h@).subrange(0, 12));
                assert(decode_utf8(encode_utf8(head@)) == head@);
            }
            let mut out = String::from_str(" [");
            out.append(head);
            out.append("]");
            out
        },
        None => String::new(),
    }
}

/// The badge of a module in the module tree.
#[derive(PartialEq, Eq, Structural, Clone, Copy, Debug)]
pub enum ModuleBadgeKind {
    /// An unsigned DLL in a system directory.
    UnsignedSystem,
    /// A signed module; the text is its publisher.
    Signed,
    /// No badge.
    Plain,
}

/// The badge of a module: unsigned system DLLs first, then signed modules.
pub open spec fn module_badge_kind(m: LoadedModule) -> ModuleBadgeKind {
    if m.is_unsigned_in_system_dir {
        ModuleBadgeKind::UnsignedSystem
    } else if m.is_signed {
        ModuleBadgeKind::Signed
    } else {
        ModuleBadgeKind::Plain
    }
}

/// The text of a module's badge.
pub open spec fn module_badge_text(m: LoadedModule) -> Seq<char> {
    match module_badge_kind(m) {
        ModuleBadgeKind::UnsignedSystem => " [UNSIGNED SYSTEM DLL]"@,
        ModuleBadgeKind::Signed => " ["@ + match m.signature_publisher {
            Some(p) => p@,
            None => "Signed"@,
        } + "]"@,
        ModuleBadgeKind::Plain => Seq::empty(),
    }
}

/// The badge of a module, with its text.
pub fn module_badge(m: &LoadedModule) -> (r: (ModuleBadgeKind, String))
    ensures
        r.0 == module_badge_kind(*m),
        r.1@ == module_badge_text(*m),
{
    if m.is_unsigned_in_system_dir {
        (ModuleBadgeKind::UnsignedSystem, String::from_str(" [UNSIGNED SYSTEM DLL]"))
    } else if m.is_signed {
        let mut out = String::from_str(" [");
        match &m.signature_publisher {
            Some(p) => out.append(p.as_str()),
            None => out.append("Signed"),
        }
        out.append("]");
        (ModuleBadgeKind::Signed, out)
    } else {
        (ModuleBadgeKind::Plain, String::new())
    }
}

/// The view mode shown in the header.
pub open spec fn view_mode_text(tree_view: bool) -> Seq<char> {
    if tree_view {
        "PSTree View"@
    } else {
        "Risk-Sorted View"@
    }
}

/// The view mode shown in the header.
pub fn view_mode_label(tree_view: bool) -> (r: String)
    ensures
        r@ == view_mode_text(tree_view),
{
    if tree_view {
        String::from_str("PSTree View")
    } else {
        String::from_str("Risk-Sorted View")
    }
}

// ---------------------------------------------------------------------------
// The footer

/// The label of the focused panel (0 is the process table).
pub open spec fn focus_label_text(active_panel: usize) -> Seq<char> {
    if active_panel == 0 {
        "Table (Scroll Proc)"@
    } else {
        "Inspector (Scroll Info)"@
    }
}

/// The label of the focused panel.
pub fn focus_label(active_panel: usize) -> (r: String)
    ensures
        r@ == focus_label_text(active_panel),
{
    if active_panel == 0 {
        String::from_str("Table (Scroll Proc)")
    } else {
        String::from_str("Inspector (Scroll Info)")
    }
}

/// What the view key switches to.
pub open spec fn view_toggle_text(tree_view: bool) -> Seq<char> {
    if tree_view {
        "Flat View  "@
    } else {
        "Tree View  "@
    }
}

/// What the view key switches to.
pub fn view_toggle_label(tree_view: bool) -> (r: String)
    ensures
        r@ == view_toggle_text(tree_view),
{
    if tree_view {
        String::from_str("Flat View  ")
    } else {
        String::from_str("Tree View  ")
    }
}

/// What the filter key does: set a filter, or change the one in force.
pub open spec fn filter_key_text(filter: Seq<char>) -> Seq<char> {
    if filter.len() == 0 {
        "Filter  "@
    } else {
        "Change Filter  "@
    }
}

/// What the filter key does.
pub fn filter_key_label(filter: &str) -> (r: String)
    ensures
        r@ == filter_key_text(filter@),
{
    if filter.is_empty() {
        String::from_str("Filter  ")
    } else {
        String::from_str("Change Filter  ")
    }
}

} // verus!
