//! A small map from text keys to values, kept as a list of entries in which
//! no key occurs twice. It backs the VirusTotal cache and the caches of the
//! live scan (static reports, file hashes, reverse lookups by path or address).

use vstd::prelude::*;
use crate::text::str_eq;

verus! {

/// The keys of a list of entries, in order.
pub open spec fn entry_keys<V>(v: Seq<(String, V)>) -> Seq<Seq<char>> {
    v.map_values(|e: (String, V)| e.0@)
}

/// The map that a list of entries stands for: a later entry for a key wins.
pub open spec fn entry_map<V>(v: Seq<(String, V)>) -> Map<Seq<char>, V>
    decreases v.len(),
{
    if v.len() == 0 {
        Map::empty()
    } else {
        entry_map(v.drop_last()).insert(v.last().0@, v.last().1)
    }
}

proof fn lemma_entry_map_keys<V>(v: Seq<(String, V)>)
    ensures
        forall|k: Seq<char>| #[trigger] entry_map(v).contains_key(k) <==> entry_keys(v).contains(k),
    decreases v.len(),
{
    if v.len() > 0 {
        lemma_entry_map_keys(v.drop_last());
        assert forall|k: Seq<char>| #[trigger] entry_map(v).contains_key(k) <==> entry_keys(
            v,
        ).contains(k) by {
            let pk = entry_keys(v.drop_last());
            assert(entry_keys(v) =~= pk.push(v.last().0@));
            assert(entry_map(v.drop_last()).contains_key(k) == pk.contains(k));
            if k == v.last().0@ {
                assert(entry_keys(v)[v.len() - 1] == k);
            }
            if pk.contains(k) {
                let j = choose|j: int| 0 <= j < pk.len() && pk[j] == k;
                assert(entry_keys(v)[j] == k);
            }
            if entry_keys(v).contains(k) {
                let j = choose|j: int| 0 <= j < entry_keys(v).len() && entry_keys(v)[j] == k;
                if j < pk.len() {
                    assert(pk[j] == k);
                }
            }
        }
    }
}

proof fn lemma_entry_map_at<V>(v: Seq<(String, V)>, i: int)
    requires
        0 <= i < v.len(),
        entry_keys(v).no_duplicates(),
    ensures
        entry_map(v).contains_key(v[i].0@),
        entry_map(v)[v[i].0@] == v[i].1,
    decreases v.len(),
{
    if i < v.len() - 1 {
        assert(entry_keys(v)[i] == v[i].0@);
        assert(entry_keys(v)[v.len() - 1] == v.last().0@);
        assert(entry_keys(v.drop_last()) =~= entry_keys(v).drop_last());
        lemma_entry_map_at(v.drop_last(), i);
    }
}

proof fn lemma_entry_map_update<V>(v: Seq<(String, V)>, i: int, key: String, x: V)
    requires
        0 <= i < v.len(),
        entry_keys(v).no_duplicates(),
        key@ == v[i].0@,
    ensures
        entry_map(v.update(i, (key, x))) == entry_map(v).insert(v[i].0@, x),
    decreases v.len(),
{
    let w = v.update(i, (key, x));
    if i == v.len() - 1 {
        assert(w.drop_last() =~= v.drop_last());
        assert(entry_map(w) =~= entry_map(v).insert(v[i].0@, x));
    } else {
        assert(entry_keys(v.drop_last()) =~= entry_keys(v).drop_last());
        lemma_entry_map_update(v.drop_last(), i, key, x);
        assert(w.drop_last() =~= v.drop_last().update(i, (key, x)));
        assert(entry_keys(v)[i] != entry_keys(v)[v.len() - 1]);
        assert(entry_map(w) =~= entry_map(v).insert(v[i].0@, x));
    }
}

/// Two lists of entries with the same keys and values, in order, stand for
/// the same map.
pub proof fn lemma_entry_map_same<V>(a: Seq<(String, V)>, b: Seq<(String, V)>)
    requires
        a.len() == b.len(),
        forall|k: int| 0 <= k < a.len() ==> (#[trigger] a[k]).0@ == b[k].0@ && a[k].1 == b[k].1,
    ensures
        entry_map(a) == entry_map(b),
    decreases a.len(),
{
    if a.len() > 0 {
        lemma_entry_map_same(a.drop_last(), b.drop_last());
        assert(a[a.len() - 1].0@ == b[b.len() - 1].0@);
    }
}

/// A map from text keys to values.
pub struct TextMap<V> {
    entries: Vec<(String, V)>,
}

impl<V> TextMap<V> {
    /// What the map holds.
    pub closed spec fn contents(&self) -> Map<Seq<char>, V> {
        entry_map(self.entries@)
    }

    /// No key occurs twice among the entries.
    pub closed spec fn wf(&self) -> bool {
        entry_keys(self.entries@).no_duplicates()
    }

    /// An empty map.
    pub fn new() -> (m: Self)
        ensures
            m.wf(),
            m.contents() == Map::<Seq<char>, V>::empty(),
    {
        let m = TextMap { entries: Vec::new() };
        assert(entry_keys(m.entries@) =~= seq![]);
        m
    }

    fn find(&self, key: &str) -> (r: Option<usize>)
        ensures
            match r {
                Some(i) => i < self.entries@.len() && self.entries@[i as int].0@ == key@,
                None => !entry_keys(self.entries@).contains(key@),
            },
    {
        let mut i: usize = 0;
        while i < self.entries.len()
            invariant
                i <= self.entries@.len(),
                forall|k: int| 0 <= k < i ==> self.entries@[k].0@ != key@,
            decreases self.entries@.len() - i,
        {
            if str_eq(self.entries[i].0.as_str(), key) {
                return Some(i);
            }
            i += 1;
        }
        proof {
            let ks = entry_keys(self.entries@);
            assert forall|k: int| 0 <= k < ks.len() implies ks[k] != key@ by {
                assert(ks[k] == self.entries@[k].0@);
            }
        }
        None
    }

    /// The value stored under `key`, if any.
    pub fn get(&self, key: &str) -> (r: Option<&V>)
        requires
            self.wf(),
        ensures
            r == (if self.contents().contains_key(key@) {
                Some(&self.contents()[key@])
            } else {
                None
            }),
    {
        proof {
            lemma_entry_map_keys(self.entries@);
        }
        match self.find(key) {
            Some(i) => {
                proof {
                    lemma_entry_map_at(self.entries@, i as int);
                }
                Some(&self.entries[i].1)
            },
            None => None,
        }
    }

    /// Stores `value` under `key`, replacing what was stored there.
    pub fn insert(&mut self, key: String, value: V)
        requires
            old(self).wf(),
        ensures
            final(self).wf(),
            final(self).contents() == old(self).contents().insert(key@, value),
    {
        proof {
            lemma_entry_map_keys(self.entries@);
        }
        match self.find(key.as_str()) {
            Some(i) => {
                let ghost before = self.entries@;
                let ghost k = key;
                proof {
                    lemma_entry_map_update(before, i as int, k, value);
                }
                self.entries.set(i, (key, value));
                assert(entry_keys(self.entries@) =~= entry_keys(before));
            },
            None => {
                let ghost before = self.entries@;
                self.entries.push((key, value));
                assert(self.entries@.drop_last() =~= before);
                assert(entry_keys(self.entries@) =~= entry_keys(before).push(key@));
            },
        }
    }

    /// The entries, each key once; they stand for the map's contents.
    pub fn entries(&self) -> (r: &Vec<(String, V)>)
        requires
            self.wf(),
        ensures
            entry_map(r@) == self.contents(),
            entry_keys(r@).no_duplicates(),
    {
        &self.entries
    }

    /// The number of keys stored.
    pub fn len(&self) -> (n: usize)
        requires
            self.wf(),
        ensures
            n == self.contents().dom().len(),
    {
        proof {
            lemma_entry_map_len(self.entries@);
        }
        self.entries.len()
    }
}

proof fn lemma_entry_map_len<V>(v: Seq<(String, V)>)
    requires
        entry_keys(v).no_duplicates(),
    ensures
        entry_map(v).dom().finite(),
        entry_map(v).dom().len() == v.len(),
    decreases v.len(),
{
    if v.len() > 0 {
        let p = v.drop_last();
        assert(entry_keys(p) =~= entry_keys(v).drop_last());
        lemma_entry_map_len(p);
        lemma_entry_map_keys(p);
        assert(entry_keys(v)[v.len() - 1] == v.last().0@);
        assert(!entry_keys(p).contains(v.last().0@)) by {
            if entry_keys(p).contains(v.last().0@) {
                let j = choose|j: int| 0 <= j < entry_keys(p).len() && entry_keys(p)[j] == v.last().0@;
                assert(entry_keys(v)[j] == entry_keys(v)[v.len() - 1]);
            }
        }
        assert(entry_map(v).dom() =~= entry_map(p).dom().insert(v.last().0@));
    }
}

} // verus!
