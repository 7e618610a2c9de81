//! An insertion-ordered map from text keys to text values.
use vstd::prelude::*;

use crate::text::{owned, replace_all, replace_str, str_eq};

verus! {

/// The views of a sequence of key-value entries.
pub open spec fn pair_views(s: Seq<(String, String)>) -> Seq<(Seq<char>, Seq<char>)> {
    s.map_values(|e: (String, String)| (e.0@, e.1@))
}

/// No key occurs twice.
pub open spec fn distinct_keys(s: Seq<(Seq<char>, Seq<char>)>) -> bool {
    forall|i: int, j: int| 0 <= i < s.len() && 0 <= j < s.len() && i != j ==> s[i].0 != s[j].0
}

/// The value of the first entry with key `k`.
pub open spec fn lookup(s: Seq<(Seq<char>, Seq<char>)>, k: Seq<char>) -> Option<Seq<char>>
    decreases s.len(),
{
    if s.len() == 0 {
        None
    } else if s[0].0 == k {
        Some(s[0].1)
    } else {
        lookup(s.drop_first(), k)
    }
}

/// The entries as a map.
pub open spec fn as_map(s: Seq<(Seq<char>, Seq<char>)>) -> Map<Seq<char>, Seq<char>> {
    Map::new(|k: Seq<char>| lookup(s, k) is Some, |k: Seq<char>| lookup(s, k)->0)
}

/// Index of the first entry with key `k`, or -1.
pub open spec fn key_index(s: Seq<(Seq<char>, Seq<char>)>, k: Seq<char>) -> int
    decreases s.len(),
{
    if s.len() == 0 {
        -1
    } else if s[0].0 == k {
        0
    } else {
        let r = key_index(s.drop_first(), k);
        if r < 0 {
            -1
        } else {
            r + 1
        }
    }
}

/// The entries after setting `k` to `v`: in place when `k` has an entry,
/// else as a new last entry.
pub open spec fn ins(s: Seq<(Seq<char>, Seq<char>)>, k: Seq<char>, v: Seq<char>) -> Seq<
    (Seq<char>, Seq<char>),
> {
    let i = key_index(s, k);
    if i >= 0 {
        s.update(i, (k, v))
    } else {
        s.push((k, v))
    }
}

/// The entries after setting, in order, each pair of `ps`.
pub open spec fn ins_all(s: Seq<(Seq<char>, Seq<char>)>, ps: Seq<(Seq<char>, Seq<char>)>) -> Seq<
    (Seq<char>, Seq<char>),
>
    decreases ps.len(),
{
    if ps.len() == 0 {
        s
    } else {
        ins(ins_all(s, ps.drop_last()), ps.last().0, ps.last().1)
    }
}

/// Each key and each value with `p` replaced by `w`.
pub open spec fn subst_pairs(ps: Seq<(Seq<char>, Seq<char>)>, p: Seq<char>, w: Seq<char>) -> Seq<
    (Seq<char>, Seq<char>),
> {
    ps.map_values(|e: (Seq<char>, Seq<char>)| (replace_all(e.0, p, w), replace_all(e.1, p, w)))
}

/// `key_index` finds the entry with the key, if there is one.
pub proof fn lemma_key_index(s: Seq<(Seq<char>, Seq<char>)>, k: Seq<char>)
    requires
        distinct_keys(s),
    ensures
        key_index(s, k) < 0 <==> (forall|i: int| 0 <= i < s.len() ==> s[i].0 != k),
        -1 <= key_index(s, k) < s.len(),
        forall|i: int| 0 <= i < s.len() && s[i].0 == k ==> key_index(s, k) == i,
    decreases s.len(),
{
    if s.len() > 0 {
        let t = s.drop_first();
        assert(distinct_keys(t)) by {
            assert forall|i: int, j: int| 0 <= i < t.len() && 0 <= j < t.len() && i != j implies t[i].0
                != t[j].0 by {
                assert(t[i] == s[i + 1] && t[j] == s[j + 1]);
            }
        }
        lemma_key_index(t, k);
        assert forall|i: int| 0 <= i < s.len() && s[i].0 == k implies key_index(s, k) == i by {
            if i > 0 {
                assert(t[i - 1] == s[i]);
                assert(s[0].0 != k);
            }
        }
        if key_index(s, k) < 0 {
            assert forall|i: int| 0 <= i < s.len() implies s[i].0 != k by {
                if i > 0 {
                    assert(t[i - 1] == s[i]);
                }
            }
        }
    }
}

/// `lookup` finds the entry with the key, if there is one.
pub proof fn lemma_lookup(s: Seq<(Seq<char>, Seq<char>)>, k: Seq<char>)
    requires
        distinct_keys(s),
    ensures
        lookup(s, k) is None <==> (forall|i: int| 0 <= i < s.len() ==> s[i].0 != k),
        forall|i: int| 0 <= i < s.len() && s[i].0 == k ==> lookup(s, k) == Some(s[i].1),
    decreases s.len(),
{
    if s.len() > 0 {
        let t = s.drop_first();
        assert(distinct_keys(t)) by {
            assert forall|i: int, j: int| 0 <= i < t.len() && 0 <= j < t.len() && i != j implies t[i].0
                != t[j].0 by {
                assert(t[i] == s[i + 1] && t[j] == s[j + 1]);
            }
        }
        lemma_lookup(t, k);
        assert forall|i: int| 0 <= i < s.len() && s[i].0 == k implies lookup(s, k) == Some(s[i].1) by {
            if i > 0 {
                assert(t[i - 1] == s[i]);
                assert(s[0].0 != k);
            }
        }
        if lookup(s, k) is None {
            assert forall|i: int| 0 <= i < s.len() implies s[i].0 != k by {
                if i > 0 {
                    assert(t[i - 1] == s[i]);
                }
            }
        }
    }
}

/// Entries whose lookups agree with `m` describe `m`.
pub proof fn lemma_map_from_lookup(a: Seq<(Seq<char>, Seq<char>)>, m: Map<Seq<char>, Seq<char>>)
    requires
        forall|q: Seq<char>| #[trigger]
            lookup(a, q) == (if m.contains_key(q) {
                Some(m[q])
            } else {
                None
            }),
    ensures
        as_map(a) == m,
{
    assert forall|q: Seq<char>| as_map(a).dom().contains(q) <==> m.dom().contains(q) by {
        assert(lookup(a, q) == (if m.contains_key(q) {
            Some(m[q])
        } else {
            None
        }));
    }
    assert(as_map(a).dom() =~= m.dom());
    assert forall|q: Seq<char>| #[trigger] m.dom().contains(q) implies as_map(a)[q] == m[q] by {
        assert(lookup(a, q) == Some(m[q]));
    }
    assert(as_map(a) =~= m);
}

/// An insertion-ordered map of text keys to text values; no key occurs twice.
pub struct StrMap {
    entries: Vec<(String, String)>,
}

impl StrMap {
    /// The entries, in insertion order.
    pub closed spec fn pairs(self) -> Seq<(Seq<char>, Seq<char>)> {
        pair_views(self.entries@)
    }

    /// The map the entries describe.
    pub open spec fn map(self) -> Map<Seq<char>, Seq<char>> {
        as_map(self.pairs())
    }

    #[verifier::type_invariant]
    spec fn inv(self) -> bool {
        distinct_keys(pair_views(self.entries@))
    }

    /// An empty map.
    pub fn new() -> (res: StrMap)
        ensures
            res.pairs() == Seq::<(Seq<char>, Seq<char>)>::empty(),
            res.map() == Map::<Seq<char>, Seq<char>>::empty(),
    {
        let res = StrMap { entries: Vec::new() };
        assert(res.pairs() =~= Seq::<(Seq<char>, Seq<char>)>::empty());
        assert(res.map() =~= Map::<Seq<char>, Seq<char>>::empty());
        res
    }

    /// Number of entries.
    pub fn len(&self) -> (res: usize)
        ensures
            res == self.pairs().len(),
            distinct_keys(self.pairs()),
    {
        proof {
            use_type_invariant(self);
        }
        self.entries.len()
    }

    /// Whether the map has no entry.
    pub fn is_empty(&self) -> (res: bool)
        ensures
            res == (self.pairs().len() == 0),
            res == (self.map().dom() == Set::<Seq<char>>::empty()),
    {
        proof {
            use_type_invariant(self);
            if self.pairs().len() > 0 {
                lemma_lookup(self.pairs(), self.pairs()[0].0);
                assert(self.map().dom().contains(self.pairs()[0].0));
            } else {
                assert(self.map().dom() =~= Set::<Seq<char>>::empty());
            }
        }
        self.entries.len() == 0
    }

    /// The key of the entry at `i`.
    pub fn key_at(&self, i: usize) -> (res: &String)
        requires
            i < self.pairs().len(),
        ensures
            res@ == self.pairs()[i as int].0,
    {
        &self.entries[i].0
    }

    /// The value of the entry at `i`.
    pub fn value_at(&self, i: usize) -> (res: &String)
        requires
            i < self.pairs().len(),
        ensures
            res@ == self.pairs()[i as int].1,
    {
        &self.entries[i].1
    }

    /// Position of the entry with key `k`.
    fn position(&self, k: &str) -> (res: Option<usize>)
        ensures
            match res {
                Some(i) => i < self.pairs().len() && self.pairs()[i as int].0 == k@,
                None => forall|i: int| 0 <= i < self.pairs().len() ==> self.pairs()[i].0 != k@,
            },
    {
        let mut i: usize = 0;
        while i < self.entries.len()
            invariant
                i <= self.entries.len(),
                forall|j: int| 0 <= j < i ==> self.pairs()[j].0 != k@,
            decreases self.entries.len() - i,
        {
            if str_eq(self.entries[i].0.as_str(), k) {
                return Some(i);
            }
            i = i + 1;
        }
        None
    }

    /// The value for key `k`.
    pub fn get(&self, k: &str) -> (res: Option<&String>)
        ensures
            match res {
                Some(v) => self.map().contains_key(k@) && v@ == self.map()[k@],
                None => !self.map().contains_key(k@),
            },
    {
        proof {
            use_type_invariant(self);
            lemma_lookup(self.pairs(), k@);
        }
        match self.position(k) {
            Some(i) => Some(&self.entries[i].1),
            None => None,
        }
    }

    /// Whether key `k` has an entry.
    pub fn contains_key(&self, k: &str) -> (res: bool)
        ensures
            res == self.map().contains_key(k@),
    {
        self.get(k).is_some()
    }

    /// Sets the value of `k` to `v`: in place when `k` has an entry, else as
    /// a new last entry. Returns the previous value.
    pub fn insert(&mut self, k: String, v: String) -> (res: Option<String>)
        ensures
            final(self).map() == old(self).map().insert(k@, v@),
            final(self).pairs() == ins(old(self).pairs(), k@, v@),
            match res {
                Some(p) => old(self).map().contains_key(k@) && p@ == old(self).map()[k@],
                None => !old(self).map().contains_key(k@),
            },
            old(self).map().contains_key(k@) ==> (exists|i: int|
                0 <= i < old(self).pairs().len() && old(self).pairs()[i].0 == k@
                    && final(self).pairs() == old(self).pairs().update(i, (k@, v@))),
            !old(self).map().contains_key(k@) ==> final(self).pairs() == old(self).pairs().push(
                (k@, v@),
            ),
    {
        proof {
            use_type_invariant(&*self);
            lemma_lookup(self.pairs(), k@);
            lemma_key_index(self.pairs(), k@);
        }
        let ghost before = self.pairs();
        match self.position(k.as_str()) {
            Some(i) => {
                let mut entries: Vec<(String, String)> = Vec::new();
                std::mem::swap(&mut entries, &mut self.entries);
                let ghost old_entries = entries@;
                let prev = entries[i].1.clone();
                entries.set(i, (k, v));
                proof {
                    let after = pair_views(entries@);
                    assert(after =~= before.update(i as int, (k@, v@)));
                    assert forall|a: int, b: int|
                        0 <= a < after.len() && 0 <= b < after.len() && a != b implies after[a].0
                        != after[b].0 by {
                        assert(before[a].0 != before[b].0);
                    }
                    let ghost m = as_map(before).insert(k@, v@);
                    assert forall|q: Seq<char>|
                        #[trigger] lookup(after, q) == (if m.contains_key(q) {
                            Some(m[q])
                        } else {
                            None
                        }) by {
                        lemma_lookup(after, q);
                        lemma_lookup(before, q);
                        if q == k@ {
                            assert(after[i as int].0 == q);
                        } else {
                            if lookup(before, q) is Some {
                                let j = choose|j: int| 0 <= j < before.len() && before[j].0 == q;
                                assert(after[j] == before[j]);
                            }
                            if lookup(after, q) is Some {
                                let j = choose|j: int| 0 <= j < after.len() && after[j].0 == q;
                                assert(after[j] == before[j]);
                            }
                        }
                    }
                    lemma_map_from_lookup(after, m);
                }
                self.entries = entries;
                Some(prev)
            },
            None => {
                let mut entries: Vec<(String, String)> = Vec::new();
                std::mem::swap(&mut entries, &mut self.entries);
                entries.push((k, v));
                proof {
                    let after = pair_views(entries@);
                    assert(after =~= before.push((k@, v@)));
                    assert forall|a: int, b: int|
                        0 <= a < after.len() && 0 <= b < after.len() && a != b implies after[a].0
                        != after[b].0 by {
                        if a < before.len() && b < before.len() {
                            assert(before[a].0 != before[b].0);
                        }
                    }
                    let ghost m = as_map(before).insert(k@, v@);
                    assert forall|q: Seq<char>|
                        #[trigger] lookup(after, q) == (if m.contains_key(q) {
                            Some(m[q])
                        } else {
                            None
                        }) by {
                        lemma_lookup(after, q);
                        lemma_lookup(before, q);
                        if q == k@ {
                            assert(after[before.len() as int].0 == q);
                        } else {
                            if lookup(before, q) is Some {
                                let j = choose|j: int| 0 <= j < before.len() && before[j].0 == q;
                                assert(after[j] == before[j]);
                            }
                            if lookup(after, q) is Some {
                                let j = choose|j: int| 0 <= j < after.len() && after[j].0 == q;
                                assert(after[j] == before[j]);
                            }
                        }
                    }
                    lemma_map_from_lookup(after, m);
                }
                self.entries = entries;
                None
            },
        }
    }

    /// Removes the entry of `k`, keeping the order of the others. Returns
    /// its value.
    pub fn remove(&mut self, k: &str) -> (res: Option<String>)
        ensures
            final(self).map() == old(self).map().remove(k@),
            match res {
                Some(p) => old(self).map().contains_key(k@) && p@ == old(self).map()[k@],
                None => !old(self).map().contains_key(k@),
            },
            old(self).map().contains_key(k@) ==> (exists|i: int|
                0 <= i < old(self).pairs().len() && old(self).pairs()[i].0 == k@
                    && final(self).pairs() == old(self).pairs().remove(i)),
            !old(self).map().contains_key(k@) ==> final(self).pairs() == old(self).pairs(),
    {
        proof {
            use_type_invariant(&*self);
            lemma_lookup(self.pairs(), k@);
        }
        let ghost before = self.pairs();
        match self.position(k) {
            Some(i) => {
                let mut entries: Vec<(String, String)> = Vec::new();
                std::mem::swap(&mut entries, &mut self.entries);
                let e = entries.remove(i);
                proof {
                    let after = pair_views(entries@);
                    assert(after =~= before.remove(i as int));
                    assert forall|a: int, b: int|
                        0 <= a < after.len() && 0 <= b < after.len() && a != b implies after[a].0
                        != after[b].0 by {
                        let a2 = if a < i { a } else { a + 1 };
                        let b2 = if b < i { b } else { b + 1 };
                        assert(after[a] == before[a2] && after[b] == before[b2]);
                    }
                    let ghost m = as_map(before).remove(k@);
                    assert forall|q: Seq<char>|
                        #[trigger] lookup(after, q) == (if m.contains_key(q) {
                            Some(m[q])
                        } else {
                            None
                        }) by {
                        lemma_lookup(after, q);
                        lemma_lookup(before, q);
                        if lookup(before, q) is Some && q != k@ {
                            let j = choose|j: int| 0 <= j < before.len() && before[j].0 == q;
                            let j2 = if j < i { j } else { j - 1 };
                            assert(after[j2] == before[j]);
                        }
                        if lookup(after, q) is Some {
                            let j = choose|j: int| 0 <= j < after.len() && after[j].0 == q;
                            let j2 = if j < i { j } else { j + 1 };
                            assert(after[j] == before[j2]);
                        }
                    }
                    lemma_map_from_lookup(after, m);
                }
                self.entries = entries;
                Some(e.1)
            },
            None => {
                assert(self.map() =~= self.map().remove(k@));
                None
            },
        }
    }

    /// A copy of the map.
    pub fn duplicate(&self) -> (res: StrMap)
        ensures
            res.pairs() == self.pairs(),
            res.map() == self.map(),
    {
        proof {
            use_type_invariant(self);
        }
        let mut entries: Vec<(String, String)> = Vec::new();
        let mut i: usize = 0;
        while i < self.entries.len()
            invariant
                i <= self.entries.len(),
                pair_views(entries@) == pair_views(self.entries@).take(i as int),
            decreases self.entries.len() - i,
        {
            let k = owned(self.entries[i].0.as_str());
            let v = owned(self.entries[i].1.as_str());
            let ghost prev = pair_views(entries@);
            entries.push((k, v));
            assert(pair_views(entries@) =~= prev.push((self.entries@[i as int].0@, self.entries@[i as int].1@)));
            assert(pair_views(entries@) =~= pair_views(self.entries@).take(i + 1));
            i = i + 1;
        }
        assert(pair_views(self.entries@).take(i as int) =~= pair_views(self.entries@));
        StrMap { entries }
    }

    /// A new map holding each entry with `p` replaced by `w` in its key and
    /// its value, inserted in order (an entry whose new key repeats an
    /// earlier one overrides it).
    pub fn map_replace(&self, p: &str, w: &str) -> (res: StrMap)
        requires
            p@.len() > 0,
        ensures
            res.pairs() == ins_all(Seq::empty(), subst_pairs(self.pairs(), p@, w@)),
    {
        let mut res = StrMap::new();
        let mut i: usize = 0;
        let n = self.len();
        while i < n
            invariant
                n == self.pairs().len(),
                i <= n,
                p@.len() > 0,
                res.pairs() == ins_all(Seq::empty(), subst_pairs(self.pairs(), p@, w@).take(i as int)),
            decreases n - i,
        {
            let k = replace_str(self.key_at(i).as_str(), p, w);
            let v = replace_str(self.value_at(i).as_str(), p, w);
            res.insert(k, v);
            let ghost ps = subst_pairs(self.pairs(), p@, w@);
            assert(ps.take(i + 1).drop_last() =~= ps.take(i as int));
            i = i + 1;
        }
        assert(subst_pairs(self.pairs(), p@, w@).take(n as int) =~= subst_pairs(self.pairs(), p@, w@));
        res
    }
}

} // verus!
