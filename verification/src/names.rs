//! Small maps and sets keyed by names.
//!
//! A [`NameMap`] keeps its entries in a vector whose keys are all distinct,
//! and stands for the finite map from key characters to value views.

use vstd::prelude::*;

use crate::text::str_eq;

verus! {

/// No two entries of `s` have the same key.
pub open spec fn keys_distinct<V>(s: Seq<(Seq<char>, V)>) -> bool {
    forall|i: int, j: int| 0 <= i < s.len() && 0 <= j < s.len() && i != j ==> #[trigger] s[i].0 != #[trigger] s[j].0
}

/// Some entry of `s` has the key `k`.
pub open spec fn has_key<V>(s: Seq<(Seq<char>, V)>, k: Seq<char>) -> bool {
    exists|i: int| 0 <= i < s.len() && s[i].0 == k
}

/// The position of an entry of `s` with the key `k`.
pub open spec fn index_of_key<V>(s: Seq<(Seq<char>, V)>, k: Seq<char>) -> int {
    choose|i: int| 0 <= i < s.len() && s[i].0 == k
}

/// The groups with `v` added at the end of the group `k`, or, if there is
/// none, in a new last group.
pub open spec fn group_push<V>(s: Seq<(Seq<char>, Seq<V>)>, k: Seq<char>, v: V) -> Seq<(Seq<char>, Seq<V>)> {
    if has_key(s, k) {
        let i = index_of_key(s, k);
        s.update(i, (k, s[i].1.push(v)))
    } else {
        s.push((k, seq![v]))
    }
}

/// The values of all groups, group by group.
pub open spec fn groups_flat<V>(s: Seq<(Seq<char>, Seq<V>)>) -> Seq<V>
    decreases s.len(),
{
    if s.len() == 0 {
        seq![]
    } else {
        groups_flat(s.drop_last()) + s.last().1
    }
}

/// Adding a value to a group keeps the keys distinct.
pub proof fn lemma_group_push_distinct<V>(s: Seq<(Seq<char>, Seq<V>)>, k: Seq<char>, v: V)
    requires
        keys_distinct(s),
    ensures
        keys_distinct(group_push(s, k, v)),
{
    let r = group_push(s, k, v);
    if has_key(s, k) {
        let i = index_of_key(s, k);
        assert forall|a: int, b: int| 0 <= a < r.len() && 0 <= b < r.len() && a != b implies #[trigger] r[a].0 != #[trigger] r[b].0 by {
            assert(r[a].0 == s[a].0);
            assert(r[b].0 == s[b].0);
        }
    } else {
        assert forall|a: int, b: int| 0 <= a < r.len() && 0 <= b < r.len() && a != b implies #[trigger] r[a].0 != #[trigger] r[b].0 by {
            if a < s.len() && b < s.len() {
                assert(r[a].0 == s[a].0);
                assert(r[b].0 == s[b].0);
            } else if a < s.len() {
                assert(r[a].0 == s[a].0);
            } else {
                assert(r[b].0 == s[b].0);
            }
        }
    }
}

proof fn lemma_groups_flat_update<V>(s: Seq<(Seq<char>, Seq<V>)>, i: int, g: (Seq<char>, Seq<V>))
    requires
        0 <= i < s.len(),
    ensures
        groups_flat(s.update(i, g)).to_multiset() == groups_flat(s).to_multiset().sub(s[i].1.to_multiset()).add(g.1.to_multiset()),
        s[i].1.to_multiset().subset_of(groups_flat(s).to_multiset()),
    decreases s.len(),
{
    broadcast use vstd::multiset::group_multiset_axioms, vstd::seq_lib::lemma_multiset_commutative;
    let u = s.update(i, g);
    if i == s.len() - 1 {
        assert(u.drop_last() =~= s.drop_last());
        vstd::seq_lib::lemma_seq_union_to_multiset_commutative(groups_flat(s.drop_last()), s.last().1);
        vstd::seq_lib::lemma_seq_union_to_multiset_commutative(groups_flat(s.drop_last()), g.1);
        assert(groups_flat(s.drop_last()) + s[i].1 == groups_flat(s));
        assert(groups_flat(s).to_multiset() =~= groups_flat(s.drop_last()).to_multiset().add(s[i].1.to_multiset())) by {
            vstd::seq_lib::lemma_multiset_commutative(groups_flat(s.drop_last()), s[i].1);
        }
        assert(groups_flat(u).to_multiset() =~= groups_flat(s.drop_last()).to_multiset().add(g.1.to_multiset())) by {
            vstd::seq_lib::lemma_multiset_commutative(groups_flat(s.drop_last()), g.1);
        }
        assert(groups_flat(u).to_multiset() =~= groups_flat(s).to_multiset().sub(s[i].1.to_multiset()).add(g.1.to_multiset()));
    } else {
        lemma_groups_flat_update(s.drop_last(), i, g);
        assert(u.drop_last() =~= s.drop_last().update(i, g));
        assert(u.last() == s.last());
        vstd::seq_lib::lemma_multiset_commutative(groups_flat(u.drop_last()), s.last().1);
        vstd::seq_lib::lemma_multiset_commutative(groups_flat(s.drop_last()), s.last().1);
        assert(groups_flat(u).to_multiset() =~= groups_flat(s).to_multiset().sub(s[i].1.to_multiset()).add(g.1.to_multiset()));
    }
}

/// Adding a value to a group neither loses nor repeats any value: the
/// values of all groups are those before, and the new one.
pub proof fn lemma_group_push_values<V>(s: Seq<(Seq<char>, Seq<V>)>, k: Seq<char>, v: V)
    ensures
        groups_flat(group_push(s, k, v)).to_multiset() == groups_flat(s).to_multiset().insert(v),
{
    broadcast use vstd::multiset::group_multiset_axioms;
    if has_key(s, k) {
        let i = index_of_key(s, k);
        lemma_groups_flat_update(s, i, (k, s[i].1.push(v)));
        vstd::seq_lib::to_multiset_build(s[i].1, v);
        assert(groups_flat(group_push(s, k, v)).to_multiset() =~= groups_flat(s).to_multiset().insert(v));
    } else {
        let r = s.push((k, seq![v]));
        assert(r.drop_last() =~= s);
        assert(groups_flat(r) == groups_flat(s) + seq![v]);
        assert(groups_flat(s) + seq![v] =~= groups_flat(s).push(v));
        vstd::seq_lib::to_multiset_build(groups_flat(s), v);
        assert(groups_flat(r).to_multiset() =~= groups_flat(s).to_multiset().insert(v));
    }
}

/// A map from names to values.
pub struct NameMap<V> {
    entries: Vec<(String, V)>,
}

/// The key `k` is at index `i` of the entries.
pub open spec fn key_at<V>(entries: Seq<(String, V)>, k: Seq<char>, i: int) -> bool {
    0 <= i < entries.len() && entries[i].0@ == k
}

impl<V: View> NameMap<V> {
    /// No two entries have the same key.
    pub closed spec fn wf(&self) -> bool {
        forall|i: int, j: int|
            0 <= i < self.entries@.len() && 0 <= j < self.entries@.len() && i != j
                ==> #[trigger] self.entries@[i].0@ != #[trigger] self.entries@[j].0@
    }

    /// The map the entries stand for.
    pub closed spec fn map(&self) -> Map<Seq<char>, V::V> {
        Map::new(
            |k: Seq<char>| exists|i: int| key_at(self.entries@, k, i),
            |k: Seq<char>| self.entries@[choose|i: int| key_at(self.entries@, k, i)].1@,
        )
    }

    /// The map with no entry.
    pub fn new() -> (res: NameMap<V>)
        ensures
            res.wf(),
            res.map() == Map::<Seq<char>, V::V>::empty(),
    {
        let res = NameMap { entries: Vec::new() };
        assert(res.map() =~= Map::<Seq<char>, V::V>::empty());
        res
    }

    fn find(&self, k: &str) -> (res: Option<usize>)
        requires
            self.wf(),
        ensures
            match res {
                Some(i) => key_at(self.entries@, k@, i as int),
                None => !self.map().contains_key(k@),
            },
    {
        let mut i: usize = 0;
        while i < self.entries.len()
            invariant
                i <= self.entries@.len(),
                forall|j: int| 0 <= j < i ==> !key_at(self.entries@, k@, j),
            decreases self.entries@.len() - i,
        {
            if str_eq(self.entries[i].0.as_str(), k) {
                return Some(i);
            }
            i = i + 1;
        }
        None
    }

    proof fn lemma_value_at(&self, k: Seq<char>, i: int)
        requires
            self.wf(),
            key_at(self.entries@, k, i),
        ensures
            self.map().contains_key(k),
            self.map()[k] == self.entries@[i].1@,
    {
        let j = choose|j: int| key_at(self.entries@, k, j);
        assert(j == i);
    }

    /// The map holds the key `k`.
    pub fn contains_key(&self, k: &str) -> (res: bool)
        requires
            self.wf(),
        ensures
            res == self.map().contains_key(k@),
    {
        match self.find(k) {
            Some(i) => {
                proof { self.lemma_value_at(k@, i as int); }
                true
            },
            None => false,
        }
    }

    /// The value of the key `k`, if the map holds it.
    pub fn get(&self, k: &str) -> (res: Option<&V>)
        requires
            self.wf(),
        ensures
            match res {
                Some(v) => self.map().contains_key(k@) && self.map()[k@] == v@,
                None => !self.map().contains_key(k@),
            },
    {
        match self.find(k) {
            Some(i) => {
                proof { self.lemma_value_at(k@, i as int); }
                Some(&self.entries[i].1)
            },
            None => None,
        }
    }

    /// Gives the key `k` the value `v`.
    pub fn insert(&mut self, k: String, v: V)
        requires
            old(self).wf(),
        ensures
            final(self).wf(),
            final(self).map() == old(self).map().insert(k@, v@),
    {
        let ghost old_map = self.map();
        let ghost kv = k@;
        let ghost vv = v@;
        match self.find(k.as_str()) {
            Some(i) => {
                self.entries.set(i, (k, v));
                proof {
                    assert forall|key: Seq<char>| #![auto] self.map().contains_key(key) <==> old_map.insert(kv, vv).contains_key(key) by {
                        if old_map.contains_key(key) {
                            let j = choose|j: int| key_at(old(self).entries@, key, j);
                            assert(key_at(self.entries@, key, j));
                        }
                        if self.map().contains_key(key) {
                            let j = choose|j: int| key_at(self.entries@, key, j);
                            if j != i {
                                assert(key_at(old(self).entries@, key, j));
                            }
                        }
                    }
                    assert forall|key: Seq<char>| #![auto] self.map().contains_key(key) implies self.map()[key] == old_map.insert(kv, vv)[key] by {
                        let j = choose|j: int| key_at(self.entries@, key, j);
                        if key == kv {
                            self.lemma_value_at(key, i as int);
                        } else {
                            assert(j != i);
                            assert(key_at(old(self).entries@, key, j));
                            old(self).lemma_value_at(key, j);
                            self.lemma_value_at(key, j);
                        }
                    }
                    assert(self.map() =~= old_map.insert(kv, vv));
                }
            },
            None => {
                self.entries.push((k, v));
                proof {
                    let n = self.entries@.len() - 1;
                    assert forall|a: int, b: int|
                        0 <= a < self.entries@.len() && 0 <= b < self.entries@.len() && a != b
                            implies #[trigger] self.entries@[a].0@ != #[trigger] self.entries@[b].0@ by {
                        if a == n {
                            assert(!key_at(old(self).entries@, kv, b));
                        } else if b == n {
                            assert(!key_at(old(self).entries@, kv, a));
                        } else {
                            assert(self.entries@[a] == old(self).entries@[a]);
                            assert(self.entries@[b] == old(self).entries@[b]);
                        }
                    }
                    assert forall|key: Seq<char>| #![auto] self.map().contains_key(key) <==> old_map.insert(kv, vv).contains_key(key) by {
                        if old_map.contains_key(key) {
                            let j = choose|j: int| key_at(old(self).entries@, key, j);
                            assert(key_at(self.entries@, key, j));
                        }
                        if key == kv {
                            assert(key_at(self.entries@, key, n));
                        }
                        if self.map().contains_key(key) {
                            let j = choose|j: int| key_at(self.entries@, key, j);
                            if j != n {
                                assert(key_at(old(self).entries@, key, j));
                            }
                        }
                    }
                    assert forall|key: Seq<char>| #![auto] self.map().contains_key(key) implies self.map()[key] == old_map.insert(kv, vv)[key] by {
                        if key == kv {
                            self.lemma_value_at(key, n);
                        } else {
                            let j = choose|j: int| key_at(self.entries@, key, j);
                            assert(j != n);
                            assert(key_at(old(self).entries@, key, j));
                            old(self).lemma_value_at(key, j);
                            self.lemma_value_at(key, j);
                        }
                    }
                    assert(self.map() =~= old_map.insert(kv, vv));
                }
            },
        }
    }

    /// Takes the key `k` out of the map, with its value.
    pub fn remove(&mut self, k: &str) -> (res: Option<V>)
        requires
            old(self).wf(),
        ensures
            final(self).wf(),
            match res {
                Some(v) => old(self).map().contains_key(k@) && old(self).map()[k@] == v@
                    && final(self).map() == old(self).map().remove(k@),
                None => !old(self).map().contains_key(k@) && final(self).map() == old(self).map(),
            },
    {
        let ghost old_map = self.map();
        match self.find(k) {
            Some(i) => {
                proof { self.lemma_value_at(k@, i as int); }
                let (_key, v) = self.entries.remove(i);
                proof {
                    assert forall|a: int, b: int|
                        0 <= a < self.entries@.len() && 0 <= b < self.entries@.len() && a != b
                            implies #[trigger] self.entries@[a].0@ != #[trigger] self.entries@[b].0@ by {
                        let oa = if a < i { a } else { a + 1 };
                        let ob = if b < i { b } else { b + 1 };
                        assert(self.entries@[a] == old(self).entries@[oa]);
                        assert(self.entries@[b] == old(self).entries@[ob]);
                    }
                    assert forall|key: Seq<char>| #![auto] self.map().contains_key(key) <==> old_map.remove(k@).contains_key(key) by {
                        if old_map.contains_key(key) && key != k@ {
                            let j = choose|j: int| key_at(old(self).entries@, key, j);
                            assert(j != i);
                            let nj = if j < i { j } else { j - 1 };
                            assert(key_at(self.entries@, key, nj));
                        }
                        if self.map().contains_key(key) {
                            let j = choose|j: int| key_at(self.entries@, key, j);
                            let oj = if j < i { j } else { j + 1 };
                            assert(key_at(old(self).entries@, key, oj));
                            assert(oj != i);
                        }
                    }
                    assert forall|key: Seq<char>| #![auto] self.map().contains_key(key) implies self.map()[key] == old_map.remove(k@)[key] by {
                        let j = choose|j: int| key_at(self.entries@, key, j);
                        let oj = if j < i { j } else { j + 1 };
                        assert(key_at(old(self).entries@, key, oj));
                        old(self).lemma_value_at(key, oj);
                        self.lemma_value_at(key, j);
                    }
                    assert(self.map() =~= old_map.remove(k@));
                }
                Some(v)
            },
            None => None,
        }
    }

    /// The map has no entry.
    pub fn is_empty(&self) -> (res: bool)
        requires
            self.wf(),
        ensures
            res == (self.map() == Map::<Seq<char>, V::V>::empty()),
    {
        if self.entries.len() == 0 {
            assert(self.map() =~= Map::<Seq<char>, V::V>::empty());
            true
        } else {
            assert(key_at(self.entries@, self.entries@[0].0@, 0));
            assert(self.map().contains_key(self.entries@[0].0@));
            false
        }
    }
}

} // verus!
