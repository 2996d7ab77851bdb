//! Ordering of reports by risk score, highest first, keeping the input
//! order among equal scores (a stable sort).

use vstd::prelude::*;
use crate::types::{AnalysisReport, LiveProcessReport, LiveProcessReportView};

verus! {

/// A report that carries a risk score.
pub trait RiskRanked {
    spec fn rank(&self) -> u32;
}

/// A report whose risk score can be read at run time.
pub trait RiskScored: RiskRanked {
    fn rank_of(&self) -> (r: u32)
        ensures
            r == self.rank(),
    ;
}

impl RiskRanked for LiveProcessReport {
    open spec fn rank(&self) -> u32 {
        self.risk_score
    }
}

impl RiskScored for LiveProcessReport {
    fn rank_of(&self) -> (r: u32) {
        self.risk_score
    }
}

impl RiskRanked for LiveProcessReportView {
    open spec fn rank(&self) -> u32 {
        self.risk_score
    }
}

impl RiskRanked for AnalysisReport {
    open spec fn rank(&self) -> u32 {
        self.risk_score
    }
}

impl RiskScored for AnalysisReport {
    fn rank_of(&self) -> (r: u32) {
        self.risk_score
    }
}

/// Index of the first element of `s` ranked below `r` (or `s.len()`).
pub open spec fn first_below<T: RiskRanked>(s: Seq<T>, r: u32) -> nat
    decreases s.len(),
{
    if s.len() == 0 {
        0
    } else if s[0].rank() < r {
        0
    } else {
        1 + first_below(s.drop_first(), r)
    }
}

/// `x` inserted into `s` after every element ranked at least as high.
pub open spec fn insert_ranked<T: RiskRanked>(s: Seq<T>, x: T) -> Seq<T> {
    s.insert(first_below(s, x.rank()) as int, x)
}

/// `s` sorted by rank, highest first, equal ranks in their input order.
pub open spec fn sort_by_rank<T: RiskRanked>(s: Seq<T>) -> Seq<T>
    decreases s.len(),
{
    if s.len() == 0 {
        s
    } else {
        insert_ranked(sort_by_rank(s.drop_last()), s.last())
    }
}

/// Ranks never increase along `s`.
pub open spec fn ranked_descending<T: RiskRanked>(s: Seq<T>) -> bool {
    forall|i: int, j: int| 0 <= i < j < s.len() ==> s[i].rank() >= s[j].rank()
}

proof fn lemma_first_below_is<T: RiskRanked>(s: Seq<T>, r: u32, p: nat)
    requires
        p <= s.len(),
        forall|k: int| 0 <= k < p ==> s[k].rank() >= r,
        p < s.len() ==> s[p as int].rank() < r,
    ensures
        first_below(s, r) == p,
    decreases p,
{
    if p > 0 {
        lemma_first_below_is(s.drop_first(), r, (p - 1) as nat);
    }
}

fn position_for<T: RiskScored>(out: &Vec<T>, r: u32) -> (p: usize)
    ensures
        p == first_below(out@, r),
        p <= out@.len(),
{
    let mut p: usize = 0;
    while p < out.len() && out[p].rank_of() >= r
        invariant
            p <= out@.len(),
            forall|k: int| 0 <= k < p ==> out@[k].rank() >= r,
        decreases out@.len() - p,
    {
        p += 1;
    }
    proof {
        lemma_first_below_is(out@, r, p as nat);
    }
    p
}

/// Sorts `v` by rank, highest first; equal ranks keep their order.
pub fn sort_by_risk<T: RiskScored>(v: Vec<T>) -> (r: Vec<T>)
    ensures
        r@ == sort_by_rank(v@),
{
    let ghost orig = v@;
    let n = v.len();
    let mut v = v;
    let mut rev: Vec<T> = Vec::new();
    while v.len() > 0
        invariant
            n == orig.len(),
            v@ == orig.take(v@.len() as int),
            rev@.len() + v@.len() == n,
            forall|k: int| 0 <= k < rev@.len() ==> rev@[k] == orig[n - 1 - k],
        decreases v@.len(),
    {
        let x = v.pop().unwrap();
        rev.push(x);
    }
    let mut out: Vec<T> = Vec::new();
    let mut i: usize = 0;
    while rev.len() > 0
        invariant
            n == orig.len(),
            rev@.len() + i == n,
            forall|k: int| 0 <= k < rev@.len() ==> rev@[k] == orig[n - 1 - k],
            out@ == sort_by_rank(orig.take(i as int)),
        decreases rev@.len(),
    {
        let x = rev.pop().unwrap();
        assert(x == orig[i as int]);
        assert(orig.take(i + 1).drop_last() =~= orig.take(i as int));
        let p = position_for(&out, x.rank_of());
        out.insert(p, x);
        i += 1;
    }
    assert(orig.take(n as int) =~= orig);
    out
}

proof fn lemma_first_below_facts<T: RiskRanked>(s: Seq<T>, r: u32)
    ensures
        first_below(s, r) <= s.len(),
        forall|k: int| 0 <= k < first_below(s, r) ==> s[k].rank() >= r,
        first_below(s, r) < s.len() ==> s[first_below(s, r) as int].rank() < r,
    decreases s.len(),
{
    if s.len() > 0 && s[0].rank() >= r {
        lemma_first_below_facts(s.drop_first(), r);
        let p = first_below(s, r);
        assert forall|k: int| 0 <= k < p implies s[k].rank() >= r by {
            if k > 0 {
                assert(s[k] == s.drop_first()[k - 1]);
            }
        }
        if p < s.len() {
            assert(s[p as int] == s.drop_first()[p - 1]);
        }
    }
}

proof fn lemma_insert_keeps_descending<T: RiskRanked>(s: Seq<T>, x: T)
    requires
        ranked_descending(s),
    ensures
        ranked_descending(insert_ranked(s, x)),
{
    lemma_first_below_facts(s, x.rank());
    let p = first_below(s, x.rank()) as int;
    let t = insert_ranked(s, x);
    assert forall|i: int, j: int| 0 <= i < j < t.len() implies t[i].rank() >= t[j].rank() by {
        if j < p {
        } else if j == p {
        } else if i < p {
            assert(t[j] == s[j - 1]);
        } else if i == p {
            assert(t[j] == s[j - 1]);
            assert(s[p].rank() >= s[j - 1].rank());
        } else {
            assert(t[i] == s[i - 1]);
            assert(t[j] == s[j - 1]);
        }
    }
}

/// Sorting by risk puts the reports in non-increasing order of score.
pub proof fn lemma_sort_by_rank_descending<T: RiskRanked>(s: Seq<T>)
    ensures
        ranked_descending(sort_by_rank(s)),
    decreases s.len(),
{
    if s.len() > 0 {
        lemma_sort_by_rank_descending(s.drop_last());
        lemma_insert_keeps_descending(sort_by_rank(s.drop_last()), s.last());
    }
}

/// Sorting by risk neither loses nor duplicates a report: the result is a
/// permutation of the input.
pub proof fn lemma_sort_by_rank_permutes<T: RiskRanked>(s: Seq<T>)
    ensures
        sort_by_rank(s).to_multiset() == s.to_multiset(),
        sort_by_rank(s).len() == s.len(),
    decreases s.len(),
{
    broadcast use vstd::seq_lib::to_multiset_insert, vstd::seq_lib::to_multiset_build;
    if s.len() > 0 {
        lemma_sort_by_rank_permutes(s.drop_last());
        let t = sort_by_rank(s.drop_last());
        lemma_first_below_facts(t, s.last().rank());
        assert(s.drop_last().push(s.last()) =~= s);
    }
}

/// Predicate: the report's rank is `r`.
pub open spec fn rank_is<T: RiskRanked>(r: u32) -> spec_fn(T) -> bool {
    |y: T| y.rank() == r
}

/// Sorting by risk is stable: for every score, the reports with that score
/// come out in the order in which they came in.
pub proof fn lemma_sort_by_rank_stable<T: RiskRanked>(s: Seq<T>, r: u32)
    ensures
        sort_by_rank(s).filter(rank_is::<T>(r)) == s.filter(rank_is::<T>(r)),
    decreases s.len(),
{
    broadcast use vstd::seq_lib::group_seq_properties;
    if s.len() > 0 {
        let x = s.last();
        let pred = rank_is::<T>(r);
        lemma_sort_by_rank_stable(s.drop_last(), r);
        lemma_sort_by_rank_descending(s.drop_last());
        let t = sort_by_rank(s.drop_last());
        lemma_first_below_facts(t, x.rank());
        let p = first_below(t, x.rank()) as int;
        let a = t.take(p);
        let b = t.skip(p);
        assert(insert_ranked(t, x) =~= a + seq![x] + b);
        assert(t =~= a + b);
        Seq::filter_distributes_over_add(a + seq![x], b, pred);
        Seq::filter_distributes_over_add(a, seq![x], pred);
        Seq::filter_distributes_over_add(a, b, pred);
        assert(s.drop_last().push(x) =~= s);
        s.drop_last().lemma_filter_push(x, pred);
        assert(seq![x] =~= Seq::<T>::empty().push(x));
        Seq::<T>::empty().lemma_filter_push(x, pred);
        assert(Seq::<T>::empty().filter(pred) =~= Seq::<T>::empty()) by {
            reveal(Seq::filter);
        }
        if x.rank() == r {
            assert forall|k: int| 0 <= k < b.len() implies !pred(b[k]) by {
                assert(b[k] == t[p + k]);
                if k > 0 {
                    assert(t[p].rank() >= t[p + k].rank());
                }
            }
            assert(b.all(|y: T| !pred(y)));
            b.lemma_all_neg_filter_empty(pred);
            assert(b.filter(pred) =~= Seq::<T>::empty());
            assert(sort_by_rank(s).filter(pred) =~= s.filter(pred));
        } else {
            assert(sort_by_rank(s).filter(pred) =~= s.filter(pred));
        }
    }
}

proof fn lemma_first_below_map<T: RiskRanked, U: RiskRanked>(s: Seq<T>, f: spec_fn(T) -> U, r: u32)
    requires
        forall|x: T| #[trigger] f(x).rank() == x.rank(),
    ensures
        first_below(s.map_values(f), r) == first_below(s, r),
    decreases s.len(),
{
    if s.len() > 0 {
        assert(s.map_values(f)[0] == f(s[0]));
        assert(s.map_values(f).drop_first() =~= s.drop_first().map_values(f));
        lemma_first_below_map(s.drop_first(), f, r);
    }
}

/// Sorting commutes with any map that keeps the rank.
pub proof fn lemma_sort_by_rank_map<T: RiskRanked, U: RiskRanked>(s: Seq<T>, f: spec_fn(T) -> U)
    requires
        forall|x: T| #[trigger] f(x).rank() == x.rank(),
    ensures
        sort_by_rank(s).map_values(f) == sort_by_rank(s.map_values(f)),
    decreases s.len(),
{
    if s.len() > 0 {
        lemma_sort_by_rank_map(s.drop_last(), f);
        let t = sort_by_rank(s.drop_last());
        assert(s.map_values(f).drop_last() =~= s.drop_last().map_values(f));
        assert(s.map_values(f).last() == f(s.last()));
        lemma_first_below_map(t, f, s.last().rank());
        lemma_first_below_facts(t, s.last().rank());
        let p = first_below(t, s.last().rank()) as int;
        assert(t.insert(p, s.last()).map_values(f) =~= t.map_values(f).insert(p, f(s.last())));
    }
}

} // verus!
