//! The placeholder index: a mapping from placeholder key to replacement
//! value, built once from the manifest keys and the values resolved for
//! them, and read-only afterwards.  Duplicate manifest keys are permitted;
//! the later value overwrites the earlier one (last write wins).  Entries
//! keep first-occurrence order, so substitution is deterministic.

use vstd::prelude::*;
use vstd::seq_lib::lemma_seq_concat_contains_all_elements;
use vstd::seq_lib::lemma_seq_contains;
use crate::bytes::bytes_eq;

verus! {

broadcast use lemma_seq_concat_contains_all_elements, lemma_seq_contains;

/// The keys of a sequence of (key, value) pairs, in order.
pub open spec fn keys_of(ps: Seq<(Seq<u8>, Seq<u8>)>) -> Seq<Seq<u8>> {
    Seq::new(ps.len(), |i: int| ps[i].0)
}

/// `ps` with the value of `k` set to `v`: overwritten in place if `k` is
/// already a key, appended otherwise.
pub open spec fn upsert(ps: Seq<(Seq<u8>, Seq<u8>)>, k: Seq<u8>, v: Seq<u8>) -> Seq<(Seq<u8>, Seq<u8>)>
    decreases ps.len(),
{
    if ps.len() == 0 {
        seq![(k, v)]
    } else if ps[0].0 == k {
        seq![(k, v)] + ps.skip(1)
    } else {
        seq![ps[0]] + upsert(ps.skip(1), k, v)
    }
}

/// When `k` first occurs at position `i`, upserting overwrites exactly
/// that position.
pub proof fn lemma_upsert_found(ps: Seq<(Seq<u8>, Seq<u8>)>, k: Seq<u8>, v: Seq<u8>, i: int)
    requires
        0 <= i < ps.len(),
        ps[i].0 == k,
        forall|j: int| 0 <= j < i ==> ps[j].0 != k,
    ensures
        upsert(ps, k, v) =~= ps.update(i, (k, v)),
    decreases ps.len(),
{
    if i == 0 {
        assert(upsert(ps, k, v) =~= ps.update(0, (k, v)));
    } else {
        assert(forall|j: int| 0 <= j < i - 1 ==> ps.skip(1)[j] == ps[j + 1]);
        lemma_upsert_found(ps.skip(1), k, v, i - 1);
        assert(upsert(ps, k, v) =~= ps.update(i, (k, v)));
    }
}

/// When `k` is not a key of `ps`, upserting appends the pair.
pub proof fn lemma_upsert_absent(ps: Seq<(Seq<u8>, Seq<u8>)>, k: Seq<u8>, v: Seq<u8>)
    requires
        forall|j: int| 0 <= j < ps.len() ==> ps[j].0 != k,
    ensures
        upsert(ps, k, v) =~= ps.push((k, v)),
    decreases ps.len(),
{
    if ps.len() == 0 {
        assert(upsert(ps, k, v) =~= ps.push((k, v)));
    } else {
        assert(forall|j: int| 0 <= j < ps.skip(1).len() ==> ps.skip(1)[j] == ps[j + 1]);
        lemma_upsert_absent(ps.skip(1), k, v);
        assert(upsert(ps, k, v) =~= ps.push((k, v)));
    }
}

/// Upserting adds `k` to the keys, keeps them free of duplicates, and
/// grows the pair count exactly when `k` was not yet a key.
pub proof fn lemma_upsert_keys(ps: Seq<(Seq<u8>, Seq<u8>)>, k: Seq<u8>, v: Seq<u8>)
    ensures
        forall|x: Seq<u8>| keys_of(upsert(ps, k, v)).contains(x) <==> (x == k
            || keys_of(ps).contains(x)),
        keys_of(ps).no_duplicates() ==> keys_of(upsert(ps, k, v)).no_duplicates(),
        upsert(ps, k, v).len() == ps.len() + (if keys_of(ps).contains(k) {
            0int
        } else {
            1int
        }),
    decreases ps.len(),
{
    let u = upsert(ps, k, v);
    if ps.len() == 0 {
        assert(keys_of(u) =~= seq![k]);
        assert(keys_of(u)[0] == k);
        assert(forall|x: Seq<u8>| keys_of(u).contains(x) ==> x == k);
    } else if ps[0].0 == k {
        assert(keys_of(u) =~= keys_of(ps));
        assert(keys_of(ps)[0] == k);
        assert(keys_of(ps).contains(k));
    } else {
        lemma_upsert_keys(ps.skip(1), k, v);
        let ur = upsert(ps.skip(1), k, v);
        let h = ps[0].0;
        assert(keys_of(u) =~= seq![h] + keys_of(ur));
        assert(keys_of(ps) =~= seq![h] + keys_of(ps.skip(1)));
        assert(seq![h][0] == h);
        assert(forall|x: Seq<u8>| seq![h].contains(x) <==> x == h);
        assert(forall|x: Seq<u8>| keys_of(u).contains(x) <==> (seq![h] + keys_of(ur)).contains(x));
        assert(forall|x: Seq<u8>| keys_of(ps).contains(x) <==> (seq![h]
            + keys_of(ps.skip(1))).contains(x));
        if keys_of(ps).no_duplicates() {
            assert(keys_of(ps.skip(1)).no_duplicates()) by {
                assert(forall|j: int| 0 <= j < keys_of(ps.skip(1)).len()
                    ==> keys_of(ps.skip(1))[j] == keys_of(ps)[j + 1]);
            }
            assert(!keys_of(ps.skip(1)).contains(h)) by {
                assert(forall|j: int| 0 <= j < keys_of(ps.skip(1)).len()
                    ==> keys_of(ps.skip(1))[j] == keys_of(ps)[j + 1]);
                assert(keys_of(ps)[0] == h);
            }
            assert(!keys_of(ur).contains(h));
            assert(keys_of(u).no_duplicates()) by {
                assert(forall|j: int| 1 <= j < keys_of(u).len() ==> keys_of(u)[j]
                    == keys_of(ur)[j - 1]);
                assert(keys_of(u)[0] == h);
                assert(forall|a: int, b: int| 0 <= a < keys_of(ur).len()
                    && 0 <= b < keys_of(ur).len() && a != b
                    ==> keys_of(ur)[a] != keys_of(ur)[b]);
            }
        }
        assert(keys_of(ps).contains(k) <==> keys_of(ps.skip(1)).contains(k));
    }
}

/// The index built from manifest keys `ks` and the values `vs` resolved
/// for them, in manifest order, last write wins.
pub open spec fn build_pairs(ks: Seq<Seq<u8>>, vs: Seq<Seq<u8>>) -> Seq<(Seq<u8>, Seq<u8>)>
    decreases ks.len(),
{
    if ks.len() == 0 {
        Seq::empty()
    } else {
        upsert(build_pairs(ks.drop_last(), vs.drop_last()), ks.last(), vs.last())
    }
}

/// A built index never duplicates a key, and its keys are exactly the
/// manifest's keys.
pub proof fn lemma_build_pairs_keys(ks: Seq<Seq<u8>>, vs: Seq<Seq<u8>>)
    requires
        ks.len() == vs.len(),
    ensures
        keys_of(build_pairs(ks, vs)).no_duplicates(),
        forall|x: Seq<u8>| keys_of(build_pairs(ks, vs)).contains(x) <==> ks.contains(x),
    decreases ks.len(),
{
    if ks.len() == 0 {
        assert(keys_of(build_pairs(ks, vs)) =~= Seq::<Seq<u8>>::empty());
        assert(forall|x: Seq<u8>| !keys_of(build_pairs(ks, vs)).contains(x));
    } else {
        lemma_build_pairs_keys(ks.drop_last(), vs.drop_last());
        lemma_upsert_keys(build_pairs(ks.drop_last(), vs.drop_last()), ks.last(), vs.last());
        assert(forall|x: Seq<u8>| ks.contains(x) <==> (x == ks.last()
            || ks.drop_last().contains(x))) by {
            assert(forall|j: int| 0 <= j < ks.len() - 1 ==> ks.drop_last()[j] == ks[j]);
            assert(ks[ks.len() - 1] == ks.last());
            assert forall|x: Seq<u8>| #[trigger] ks.contains(x) implies (x == ks.last()
                || ks.drop_last().contains(x)) by {
                let j = choose|j: int| 0 <= j < ks.len() && ks[j] == x;
                if j < ks.len() - 1 {
                    assert(ks.drop_last()[j] == x);
                }
            }
        }
    }
}

/// For every manifest with N unique keys, the built index holds exactly N
/// resolved values: one value per distinct key, however often a key
/// repeats, because the later prompt overwrites the earlier value.
pub proof fn lemma_index_one_value_per_unique_key(ks: Seq<Seq<u8>>, vs: Seq<Seq<u8>>)
    requires
        ks.len() == vs.len(),
    ensures
        build_pairs(ks, vs).len() == ks.to_set().len(),
{
    lemma_build_pairs_keys(ks, vs);
    let bk = keys_of(build_pairs(ks, vs));
    assert(bk.to_set() =~= ks.to_set());
    bk.unique_seq_to_set();
    assert(build_pairs(ks, vs).len() == bk.len());
}

/// The placeholder index: placeholder keys with their resolved values,
/// in first-occurrence order, each key held once.
pub struct Index {
    entries: Vec<(Vec<u8>, Vec<u8>)>,
}

impl Index {
    /// The (key, value) pairs of the index, in order.
    pub closed spec fn pairs(&self) -> Seq<(Seq<u8>, Seq<u8>)> {
        Seq::new(self.entries@.len() as nat, |i: int| (self.entries@[i].0@, self.entries@[i].1@))
    }

    /// No key occurs twice.
    pub open spec fn wf(&self) -> bool {
        keys_of(self.pairs()).no_duplicates()
    }

    /// An empty index.
    pub fn new() -> (idx: Index)
        ensures
            idx.wf(),
            idx.pairs() == Seq::<(Seq<u8>, Seq<u8>)>::empty(),
    {
        let idx = Index { entries: Vec::new() };
        assert(idx.pairs() =~= Seq::<(Seq<u8>, Seq<u8>)>::empty());
        assert(keys_of(idx.pairs()) =~= Seq::<Seq<u8>>::empty());
        idx
    }

    /// The number of resolved values held.
    pub fn len(&self) -> (n: usize)
        ensures
            n == self.pairs().len(),
    {
        self.entries.len()
    }

    /// The key of the `i`-th pair.
    pub fn key_at(&self, i: usize) -> (k: &Vec<u8>)
        requires
            i < self.pairs().len(),
        ensures
            k@ == self.pairs()[i as int].0,
    {
        &self.entries[i].0
    }

    /// The value of the `i`-th pair.
    pub fn value_at(&self, i: usize) -> (v: &Vec<u8>)
        requires
            i < self.pairs().len(),
        ensures
            v@ == self.pairs()[i as int].1,
    {
        &self.entries[i].1
    }

    /// Sets the value of `key` to `value`: overwrites the earlier value if
    /// `key` is already held (last write wins), appends the pair otherwise.
    pub fn insert(&mut self, key: Vec<u8>, value: Vec<u8>)
        ensures
            final(self).pairs() == upsert(old(self).pairs(), key@, value@),
            old(self).wf() ==> final(self).wf(),
    {
        proof {
            lemma_upsert_keys(old(self).pairs(), key@, value@);
        }
        let mut i: usize = 0;
        while i < self.entries.len()
            invariant
                i <= self.entries@.len(),
                *self == *old(self),
                forall|j: int| 0 <= j < i ==> self.pairs()[j].0 != key@,
            decreases self.entries@.len() - i,
        {
            if bytes_eq(&self.entries[i].0, &key) {
                proof {
                    lemma_upsert_keys(old(self).pairs(), key@, value@);
                    lemma_upsert_found(old(self).pairs(), key@, value@, i as int);
                }
                self.entries.remove(i);
                self.entries.insert(i, (key, value));
                assert(self.pairs() =~= old(self).pairs().update(i as int, (key@, value@)));
                return;
            }
            i += 1;
        }
        proof {
            lemma_upsert_absent(old(self).pairs(), key@, value@);
        }
        self.entries.push((key, value));
        assert(self.pairs() =~= old(self).pairs().push((key@, value@)));
    }
}

/// Builds the index for manifest keys `keys` and the values `values`
/// resolved for them: pairs in manifest order, last write wins.  The
/// index is complete before any copying can start: every key has a value.
pub fn build_index(keys: &Vec<Vec<u8>>, values: &Vec<Vec<u8>>) -> (idx: Index)
    requires
        keys@.len() == values@.len(),
    ensures
        idx.wf(),
        idx.pairs() == build_pairs(keys.deep_view(), values.deep_view()),
{
    let ghost ks = keys.deep_view();
    let ghost vs = values.deep_view();
    let mut idx = Index::new();
    let mut i: usize = 0;
    assert(idx.pairs() =~= build_pairs(ks.take(0), vs.take(0)));
    while i < keys.len()
        invariant
            i <= keys@.len(),
            keys@.len() == values@.len(),
            ks == keys.deep_view(),
            vs == values.deep_view(),
            idx.wf(),
            idx.pairs() == build_pairs(ks.take(i as int), vs.take(i as int)),
        decreases keys@.len() - i,
    {
        let k = keys[i].clone();
        let v = values[i].clone();
        assert(k@ == ks[i as int] && v@ == vs[i as int]) by {
            assert(keys@[i as int].deep_view() =~= keys@[i as int]@);
            assert(values@[i as int].deep_view() =~= values@[i as int]@);
        }
        idx.insert(k, v);
        proof {
            assert(ks.take(i + 1).drop_last() =~= ks.take(i as int));
            assert(vs.take(i + 1).drop_last() =~= vs.take(i as int));
            assert(ks.take(i + 1).last() == ks[i as int]);
            assert(vs.take(i + 1).last() == vs[i as int]);
        }
        i += 1;
    }
    proof {
        assert(ks.take(ks.len() as int) =~= ks);
        assert(vs.take(vs.len() as int) =~= vs);
    }
    idx
}

} // verus!
