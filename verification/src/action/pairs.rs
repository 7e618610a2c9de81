//! Setting and removing entries of key-value maps from command arguments.
use vstd::prelude::*;

use crate::strmap::StrMap;
use crate::text::{push_str, views};
use crate::PairMap;

verus! {

/// The entries after inserting, in order, the pairs that `T` reads in `ls`.
pub open spec fn fold_pairs<T: PairMap>(m: Map<Seq<char>, Seq<char>>, ls: Seq<Seq<char>>) -> Map<
    Seq<char>,
    Seq<char>,
>
    decreases ls.len(),
{
    if ls.len() == 0 {
        m
    } else {
        let p = T::spec_pair(ls.last())->0;
        fold_pairs::<T>(m, ls.drop_last()).insert(p.0, p.1)
    }
}

/// Every input is a pair that `T` reads.
pub open spec fn all_pairs<T: PairMap>(ls: Seq<Seq<char>>) -> bool {
    forall|i: int| 0 <= i < ls.len() ==> T::spec_pair(#[trigger] ls[i]) is Some
}

/// The first input that `T` does not read as a pair.
pub fn first_bad<T: PairMap>(inputs: &Vec<String>) -> (res: Option<usize>)
    ensures
        res is None <==> all_pairs::<T>(views(inputs@)),
        res matches Some(i) ==> i < inputs@.len() && T::spec_pair(inputs@[i as int]@) is None,
{
    let mut i: usize = 0;
    while i < inputs.len()
        invariant
            i <= inputs@.len(),
            forall|k: int| 0 <= k < i ==> T::spec_pair(#[trigger] views(inputs@)[k]) is Some,
        decreases inputs.len() - i,
    {
        if T::pair(inputs[i].as_str()).is_none() {
            assert(T::spec_pair(views(inputs@)[i as int]) is None);
            return Some(i);
        }
        i = i + 1;
    }
    None
}

/// Inserts, in order, the pairs of `inputs`.
pub fn set_all<T: PairMap>(m: &mut T, inputs: &Vec<String>)
    requires
        all_pairs::<T>(views(inputs@)),
    ensures
        final(m).spec_map() == fold_pairs::<T>(old(m).spec_map(), views(inputs@)),
{
    let mut i: usize = 0;
    while i < inputs.len()
        invariant
            i <= inputs@.len(),
            all_pairs::<T>(views(inputs@)),
            m.spec_map() == fold_pairs::<T>(old(m).spec_map(), views(inputs@).take(i as int)),
        decreases inputs.len() - i,
    {
        assert(T::spec_pair(views(inputs@)[i as int]) is Some);
        m.set(inputs[i].as_str());
        proof {
            assert(views(inputs@).take(i + 1).drop_last() =~= views(inputs@).take(i as int));
        }
        i = i + 1;
    }
    assert(views(inputs@).take(inputs@.len() as int) =~= views(inputs@));
}

/// Removing `keys` in order from `m`: the entries left, what is printed for
/// each key removed (`removed`, the key, a line break), what is reported for
/// each key missing (the key, `missing`), and whether one was missing.
pub open spec fn rm_keys(
    m: Map<Seq<char>, Seq<char>>,
    keys: Seq<Seq<char>>,
    removed: Seq<char>,
    missing: Seq<char>,
) -> (Map<Seq<char>, Seq<char>>, Seq<char>, Seq<char>, bool)
    decreases keys.len(),
{
    if keys.len() == 0 {
        (m, Seq::empty(), Seq::empty(), false)
    } else {
        let (m1, out, err, failed) = rm_keys(m, keys.drop_last(), removed, missing);
        let k = keys.last();
        if m1.contains_key(k) {
            (m1.remove(k), out + removed + k + seq!['\n'], err, failed)
        } else {
            (m1, out, err + k + missing, true)
        }
    }
}

/// Removes `keys` in order from `m`; returns what to print, what to report
/// and whether a key was missing.
pub fn remove_keys(m: &mut StrMap, keys: &Vec<String>, removed: &str, missing: &str) -> (res: (
    String,
    String,
    bool,
))
    ensures
        ({
            let (mm, out, err, failed) = rm_keys(old(m).map(), views(keys@), removed@, missing@);
            &&& final(m).map() == mm
            &&& res.0@ == out
            &&& res.1@ == err
            &&& res.2 == failed
        }),
{
    let mut out = String::new();
    let mut err = String::new();
    let mut failed = false;
    let mut i: usize = 0;
    while i < keys.len()
        invariant
            i <= keys@.len(),
            ({
                let (mm, o, e, f) = rm_keys(old(m).map(), views(keys@).take(i as int), removed@, missing@);
                &&& m.map() == mm
                &&& out@ == o
                &&& err@ == e
                &&& failed == f
            }),
        decreases keys.len() - i,
    {
        let k = keys[i].as_str();
        proof {
            assert(views(keys@).take(i + 1).drop_last() =~= views(keys@).take(i as int));
            assert(views(keys@).take(i + 1).last() == k@);
            reveal_strlit("\n");
        }
        if m.contains_key(k) {
            m.remove(k);
            push_str(&mut out, removed);
            push_str(&mut out, k);
            push_str(&mut out, "\n");
        } else {
            push_str(&mut err, k);
            push_str(&mut err, missing);
            failed = true;
        }
        proof {
            let (mm, o, e, f) = rm_keys(old(m).map(), views(keys@).take(i + 1), removed@, missing@);
            assert(out@ =~= o);
            assert(err@ =~= e);
        }
        i = i + 1;
    }
    assert(views(keys@).take(keys@.len() as int) =~= views(keys@));
    (out, err, failed)
}

} // verus!
