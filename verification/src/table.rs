//! A string-keyed mapping with plain-value keys, kept as a vector of
//! entries whose keys are pairwise distinct. It stands in for a hash map
//! where the library needs one, and its model is a `Map` from key text to
//! the values' models. Inserting an existing key overwrites its value
//! (last wins).

use vstd::prelude::*;

verus! {

/// The map a pair sequence denotes, reading the pairs in order with a
/// later pair overriding an earlier one of the same key (last wins).
pub open spec fn pairs_to_map<M>(pairs: Seq<(Seq<char>, M)>) -> Map<Seq<char>, M>
    decreases pairs.len(),
{
    if pairs.len() == 0 {
        Map::<Seq<char>, M>::empty()
    } else {
        pairs_to_map(pairs.drop_last()).insert(pairs.last().0, pairs.last().1)
    }
}

/// Keys of the pair sequence are pairwise distinct.
pub open spec fn distinct_keys<M>(pairs: Seq<(Seq<char>, M)>) -> bool {
    forall|i: int, j: int| 0 <= i < j < pairs.len() ==> pairs[i].0 != pairs[j].0
}

/// A key that no pair carries is not in the map.
proof fn lemma_pairs_absent<M>(pairs: Seq<(Seq<char>, M)>, k: Seq<char>)
    requires
        forall|i: int| 0 <= i < pairs.len() ==> pairs[i].0 != k,
    ensures
        !pairs_to_map(pairs).contains_key(k),
    decreases pairs.len(),
{
    if pairs.len() > 0 {
        assert(pairs.drop_last() =~= pairs.take(pairs.len() - 1));
        lemma_pairs_absent(pairs.drop_last(), k);
    }
}

/// A pair whose key no later pair repeats gives the map's value at it.
proof fn lemma_pairs_found<M>(pairs: Seq<(Seq<char>, M)>, i: int)
    requires
        0 <= i < pairs.len(),
        forall|j: int| i < j < pairs.len() ==> pairs[j].0 != pairs[i].0,
    ensures
        pairs_to_map(pairs).contains_key(pairs[i].0),
        pairs_to_map(pairs)[pairs[i].0] == pairs[i].1,
    decreases pairs.len(),
{
    if i < pairs.len() - 1 {
        assert(pairs.last().0 != pairs[i].0);
        lemma_pairs_found(pairs.drop_last(), i);
    }
}

/// With distinct keys, the map holds exactly one entry per pair.
proof fn lemma_pairs_dom_len<M>(pairs: Seq<(Seq<char>, M)>)
    requires
        distinct_keys(pairs),
    ensures
        pairs_to_map(pairs).dom().finite(),
        pairs_to_map(pairs).dom().len() == pairs.len(),
    decreases pairs.len(),
{
    if pairs.len() == 0 {
        assert(pairs_to_map(pairs).dom() =~= Set::<Seq<char>>::empty());
    } else {
        lemma_pairs_dom_len(pairs.drop_last());
        lemma_pairs_absent(pairs.drop_last(), pairs.last().0);
        assert(pairs_to_map(pairs).dom() =~= pairs_to_map(pairs.drop_last()).dom().insert(
        pairs.last().0));
    }
}

/// Overwriting the one pair that carries a key is the map's insert.
proof fn lemma_pairs_update<M>(pairs: Seq<(Seq<char>, M)>, i: int, x: (Seq<char>, M))
    requires
        0 <= i < pairs.len(),
        pairs[i].0 == x.0,
        distinct_keys(pairs),
    ensures
        pairs_to_map(pairs.update(i, x)) == pairs_to_map(pairs).insert(x.0, x.1),
    decreases pairs.len(),
{
    if i == pairs.len() - 1 {
        assert(pairs.update(i, x).drop_last() =~= pairs.drop_last());
        assert(pairs.update(i, x).last() == x);
        assert(pairs_to_map(pairs.drop_last()).insert(pairs.last().0, pairs.last().1).insert(
            x.0,
            x.1,
        ) =~= pairs_to_map(pairs.drop_last()).insert(x.0, x.1));
    } else {
        assert(pairs.update(i, x).drop_last() =~= pairs.drop_last().update(i, x));
        assert(pairs.update(i, x).last() == pairs.last());
        lemma_pairs_update(pairs.drop_last(), i, x);
        assert(pairs.last().0 != x.0);
        assert(pairs_to_map(pairs.drop_last()).insert(x.0, x.1).insert(
            pairs.last().0,
            pairs.last().1,
        ) =~= pairs_to_map(pairs.drop_last()).insert(pairs.last().0, pairs.last().1).insert(
            x.0,
            x.1,
        ));
    }
}

/// An ordered mapping from string keys to values of the target type,
/// with no key twice.
pub struct EnvTable<T: DeepView> {
    entries: Vec<(String, T)>,
}

impl<T: DeepView> DeepView for EnvTable<T> {
    type V = Map<Seq<char>, T::V>;

    closed spec fn deep_view(&self) -> Map<Seq<char>, T::V> {
        pairs_to_map(self.entries.deep_view())
    }
}

impl<T: DeepView> EnvTable<T> {
    #[verifier::type_invariant]
    spec fn inv(self) -> bool {
        distinct_keys(self.entries.deep_view())
    }

    /// The empty mapping.
    pub fn new() -> (r: EnvTable<T>)
        ensures
            r.deep_view() == Map::<Seq<char>, T::V>::empty(),
    {
        let r = EnvTable { entries: Vec::new() };
        proof {
            assert(r.entries.deep_view() =~= Seq::<(Seq<char>, T::V)>::empty());
            assert(r.deep_view() =~= Map::<Seq<char>, T::V>::empty());
        }
        r
    }

    /// Binds `key` to `value`; an existing binding of the key is replaced.
    pub fn insert(&mut self, key: String, value: T)
        ensures
            final(self).deep_view() == old(self).deep_view().insert(key@, value.deep_view()),
    {
        proof {
            use_type_invariant(&*self);
        }
        let ghost dv0 = self.entries.deep_view();
        let mut entries: Vec<(String, T)> = Vec::new();
        core::mem::swap(&mut entries, &mut self.entries);
        let n = entries.len();
        let mut idx: usize = 0;
        loop
            invariant
                0 <= idx <= n,
                n == entries@.len(),
                dv0 == entries.deep_view(),
                forall|k2: int| 0 <= k2 < idx ==> dv0[k2].0 != key@,
            ensures
                0 <= idx <= n,
                n == entries@.len(),
                dv0 == entries.deep_view(),
                forall|k2: int| 0 <= k2 < idx ==> dv0[k2].0 != key@,
                idx < n ==> dv0[idx as int].0 == key@,
            decreases n - idx,
        {
            if idx >= n {
                break ;
            }
            if entries[idx].0 == key {
                proof {
                    assert(dv0[idx as int].0 == entries@[idx as int].0@);
                }
                break ;
            }
            proof {
                assert(dv0[idx as int].0 == entries@[idx as int].0@);
            }
            idx = idx + 1;
        }
        if idx < n {
            entries[idx] = (key, value);
            proof {
                assert(entries.deep_view() =~= dv0.update(
                    idx as int,
                    (key@, value.deep_view()),
                ));
                lemma_pairs_update(dv0, idx as int, (key@, value.deep_view()));
            }
        } else {
            entries.push((key, value));
            proof {
                assert(entries.deep_view() =~= dv0.push((key@, value.deep_view())));
                assert(entries.deep_view().drop_last() =~= dv0);
            }
        }
        self.entries = entries;
    }

    /// The value bound to `key`, if the key is bound.
    pub fn get(&self, key: &str) -> (r: Option<&T>)
        ensures
            match r {
                Some(v) => self.deep_view().contains_key(key@) && v.deep_view()
                    == self.deep_view().index(key@),
                None => !self.deep_view().contains_key(key@),
            },
    {
        let ks = key.to_owned();
        let n = self.entries.len();
        let ghost dv = self.entries.deep_view();
        let mut idx: usize = 0;
        while idx < n
            invariant
                0 <= idx <= n,
                n == self.entries@.len(),
                dv == self.entries.deep_view(),
                ks@ == key@,
                forall|k2: int| 0 <= k2 < idx ==> dv[k2].0 != key@,
            decreases n - idx,
        {
            proof {
                assert(dv[idx as int].0 == self.entries@[idx as int].0@);
            }
            if self.entries[idx].0 == ks {
                proof {
                    use_type_invariant(&*self);
                    lemma_pairs_found(dv, idx as int);
                }
                return Some(&self.entries[idx].1);
            }
            idx = idx + 1;
        }
        proof {
            lemma_pairs_absent(dv, key@);
        }
        None
    }

    /// How many keys are bound.
    pub fn len(&self) -> (r: usize)
        ensures
            r == self.deep_view().dom().len(),
    {
        proof {
            use_type_invariant(&*self);
            lemma_pairs_dom_len(self.entries.deep_view());
        }
        self.entries.len()
    }
}

} // verus!
