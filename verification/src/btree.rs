//! An ordered container of key-value pairs.
//!
//! [`BTree`] keeps its pairs in a vector sorted by key, with no key twice,
//! and finds a key by binary search. What it holds is stated as a sequence
//! of pairs, `tree@`, ascending by key; [`entries_map`] reads the same
//! sequence as a map from key models to values.
use crate::order::{before_asymmetric, Comparison, OrderedKey};
use vstd::prelude::*;

verus! {

/// The keys of `s` are strictly ascending, so none occurs twice.
pub open spec fn ascending<K: OrderedKey, V>(s: Seq<(K, V)>) -> bool {
    forall|i: int, j: int|
        #![trigger s[i], s[j]]
        0 <= i < j < s.len() ==> K::before(s[i].0@, s[j].0@)
}

/// Some pair of `s` has the key `key`.
pub open spec fn has_key<K: OrderedKey, V>(s: Seq<(K, V)>, key: K::V) -> bool {
    exists|i: int| 0 <= i < s.len() && (#[trigger] s[i]).0@ == key
}

/// Where `key` stands in `s`, if `s` has it.
pub open spec fn index_of<K: OrderedKey, V>(s: Seq<(K, V)>, key: K::V) -> int {
    choose|i: int| 0 <= i < s.len() && (#[trigger] s[i]).0@ == key
}

/// The value that `s` holds for `key`, if it has the key.
pub open spec fn value_at<K: OrderedKey, V>(s: Seq<(K, V)>, key: K::V) -> V {
    s[index_of(s, key)].1
}

/// `p` parts `s` around `key`: every key ahead of position `p` sorts before
/// `key`, and `key` sorts before every key from `p` on.
pub open spec fn is_slot<K: OrderedKey, V>(s: Seq<(K, V)>, key: K::V, p: int) -> bool {
    &&& 0 <= p <= s.len()
    &&& forall|i: int| 0 <= i < p ==> K::before((#[trigger] s[i]).0@, key)
    &&& forall|i: int| p <= i < s.len() ==> K::before(key, (#[trigger] s[i]).0@)
}

/// Where a pair with the key `key` goes into `s`, if `s` lacks the key.
pub open spec fn slot<K: OrderedKey, V>(s: Seq<(K, V)>, key: K::V) -> int {
    choose|p: int| is_slot(s, key, p)
}

/// `s` with `value` in place of the value held for `key`, if `s` has the
/// key. The pair keeps its place and its key.
pub open spec fn replace_value<K: OrderedKey, V>(s: Seq<(K, V)>, key: K::V, value: V) -> Seq<
    (K, V),
> {
    s.update(index_of(s, key), (s[index_of(s, key)].0, value))
}

/// `s` after `value` is stored under `key`: a pair that has the key gets the
/// new value; otherwise the new pair goes where the keys stay ascending.
pub open spec fn upsert<K: OrderedKey, V>(s: Seq<(K, V)>, key: K, value: V) -> Seq<(K, V)> {
    if has_key(s, key@) {
        replace_value(s, key@, value)
    } else {
        s.insert(slot(s, key@), (key, value))
    }
}

/// `s` without the pair that has the key `key`.
pub open spec fn without<K: OrderedKey, V>(s: Seq<(K, V)>, key: K::V) -> Seq<(K, V)> {
    if has_key(s, key) {
        s.remove(index_of(s, key))
    } else {
        s
    }
}

/// The pairs of `s` with `f` applied to each value.
pub open spec fn with_values<K: OrderedKey, V, W>(s: Seq<(K, V)>, f: spec_fn(V) -> W) -> Seq<
    (K, W),
> {
    Seq::new(s.len(), |i: int| (s[i].0, f(s[i].1)))
}

/// `copy` holds a copy of each pair of `source`, in the same order: a key
/// with the same model, and a clone of the value.
pub open spec fn is_copy<K: OrderedKey, V: Clone>(source: Seq<(K, V)>, copy: Seq<(K, V)>) -> bool {
    &&& copy.len() == source.len()
    &&& forall|i: int|
        0 <= i < source.len() ==> (#[trigger] copy[i]).0@ == source[i].0@ && cloned::<V>(
            source[i].1,
            copy[i].1,
        )
}

/// `s` read as a map from key models to values.
pub open spec fn entries_map<K: OrderedKey, V>(s: Seq<(K, V)>) -> Map<K::V, V> {
    Map::new(|key: K::V| has_key(s, key), |key: K::V| value_at(s, key))
}

/// In an ascending sequence a key stands at one position only.
pub proof fn ascending_index_unique<K: OrderedKey, V>(s: Seq<(K, V)>, i: int, j: int)
    requires
        ascending(s),
        0 <= i < s.len(),
        0 <= j < s.len(),
        s[i].0@ == s[j].0@,
    ensures
        i == j,
{
    K::before_irreflexive(s[i].0@);
}

/// In an ascending sequence the position of a key is where the key is.
pub proof fn ascending_index_of<K: OrderedKey, V>(s: Seq<(K, V)>, i: int)
    requires
        ascending(s),
        0 <= i < s.len(),
    ensures
        has_key(s, s[i].0@),
        index_of(s, s[i].0@) == i,
        value_at(s, s[i].0@) == s[i].1,
{
    ascending_index_unique(s, i, index_of(s, s[i].0@));
}

/// A sequence has no key for which it has a slot, and it has one slot at
/// most.
pub proof fn slot_unique<K: OrderedKey, V>(s: Seq<(K, V)>, key: K::V, p: int)
    requires
        is_slot(s, key, p),
    ensures
        !has_key(s, key),
        slot(s, key) == p,
{
    K::before_irreflexive(key);
    let q = slot(s, key);
    if q < p {
        before_asymmetric::<K>(s[q].0@, key);
    } else if p < q {
        before_asymmetric::<K>(s[p].0@, key);
    }
}

/// An ascending sequence has a slot for every key that it lacks.
pub proof fn slot_exists<K: OrderedKey, V>(s: Seq<(K, V)>, key: K::V)
    requires
        ascending(s),
        !has_key(s, key),
    ensures
        is_slot(s, key, slot(s, key)),
    decreases s.len(),
{
    if s.len() == 0 {
        assert(is_slot(s, key, 0));
    } else {
        let n = s.len() - 1;
        let front = s.drop_last();
        assert forall|i: int| 0 <= i < n implies front[i] == s[i] by {}
        assert(ascending(front));
        assert(!has_key(front, key));
        slot_exists(front, key);
        let q = slot(front, key);
        K::before_connected(s[n].0@, key);
        if K::before(s[n].0@, key) {
            assert forall|i: int| 0 <= i < n + 1 implies K::before((#[trigger] s[i]).0@, key) by {
                if i < n {
                    K::before_transitive(s[i].0@, s[n].0@, key);
                }
            }
            assert(is_slot(s, key, n + 1));
        } else {
            assert(is_slot(s, key, q));
        }
    }
}

/// Storing under a key keeps the keys ascending, and changes the map by that
/// one key.
pub proof fn upsert_properties<K: OrderedKey, V>(s: Seq<(K, V)>, key: K, value: V)
    requires
        ascending(s),
    ensures
        ascending(upsert(s, key, value)),
        entries_map(upsert(s, key, value)) == entries_map(s).insert(key@, value),
        upsert(s, key, value).len() == s.len() + (if has_key(s, key@) {
            0int
        } else {
            1int
        }),
{
    let t = upsert(s, key, value);
    if has_key(s, key@) {
        let p = index_of(s, key@);
        assert forall|k: K::V| has_key(t, k) == (k == key@ || has_key(s, k)) by {
            if has_key(s, k) {
                let i = index_of(s, k);
                assert(t[i].0@ == k);
            }
        }
        assert forall|k: K::V| has_key(t, k) implies value_at(t, k) == (if k == key@ {
            value
        } else {
            value_at(s, k)
        }) by {
            let i = index_of(t, k);
            ascending_index_unique(s, i, index_of(s, k));
            if k == key@ {
                ascending_index_unique(s, i, p);
            }
        }
    } else {
        slot_exists(s, key@);
        let p = slot(s, key@);
        assert forall|k: K::V| has_key(t, k) == (k == key@ || has_key(s, k)) by {
            if has_key(s, k) {
                let i = index_of(s, k);
                if i < p {
                    assert(t[i].0@ == k);
                } else {
                    assert(t[i + 1].0@ == k);
                }
            }
            assert(t[p].0@ == key@);
        }
        assert forall|k: K::V| has_key(t, k) implies value_at(t, k) == (if k == key@ {
            value
        } else {
            value_at(s, k)
        }) by {
            let i = index_of(t, k);
            if k == key@ {
                ascending_index_unique(t, i, p);
            } else if i < p {
                ascending_index_unique(s, i, index_of(s, k));
            } else {
                ascending_index_unique(s, i - 1, index_of(s, k));
            }
        }
    }
}

/// The copies of an ascending sequence are ascending.
pub proof fn copy_ascending<K: OrderedKey, V: Clone>(source: Seq<(K, V)>)
    requires
        ascending(source),
    ensures
        forall|copy: Seq<(K, V)>| #[trigger] is_copy(source, copy) ==> ascending(copy),
{
}

/// A key that sorts behind every key of `s` goes to the end of `s`.
pub proof fn upsert_behind_all<K: OrderedKey, V>(s: Seq<(K, V)>, key: K, value: V)
    requires
        forall|i: int| 0 <= i < s.len() ==> K::before((#[trigger] s[i]).0@, key@),
    ensures
        !has_key(s, key@),
        upsert(s, key, value) == s.push((key, value)),
{
    slot_unique(s, key@, s.len() as int);
}

/// Replacing the value held for a key keeps the keys as they are, and
/// changes the map by that one key.
pub proof fn replace_value_properties<K: OrderedKey, V>(s: Seq<(K, V)>, key: K::V, value: V)
    requires
        ascending(s),
        has_key(s, key),
    ensures
        ascending(replace_value(s, key, value)),
        has_key(replace_value(s, key, value), key),
        index_of(replace_value(s, key, value), key) == index_of(s, key),
        value_at(replace_value(s, key, value), key) == value,
        entries_map(replace_value(s, key, value)) == entries_map(s).insert(key, value),
{
    let t = replace_value(s, key, value);
    let p = index_of(s, key);
    assert(t[p].0@ == key);
    ascending_index_unique(t, p, index_of(t, key));
    assert forall|k: K::V| has_key(t, k) == has_key(s, k) by {
        if has_key(s, k) {
            let i = index_of(s, k);
            assert(t[i].0@ == k);
        }
    }
    assert forall|k: K::V| has_key(t, k) && k != key implies value_at(t, k) == value_at(s, k) by {
        let i = index_of(t, k);
        ascending_index_unique(s, i, index_of(s, k));
    }
}

/// Taking a key out keeps the keys ascending, and changes the map by that
/// one key.
pub proof fn without_properties<K: OrderedKey, V>(s: Seq<(K, V)>, key: K::V)
    requires
        ascending(s),
    ensures
        ascending(without(s, key)),
        !has_key(without(s, key), key),
        entries_map(without(s, key)) == entries_map(s).remove(key),
        without(s, key).len() == s.len() - (if has_key(s, key) {
            1int
        } else {
            0int
        }),
{
    let t = without(s, key);
    if has_key(s, key) {
        let p = index_of(s, key);
        assert forall|k: K::V| has_key(t, k) == (k != key && has_key(s, k)) by {
            if has_key(t, k) {
                let i = index_of(t, k);
                let si = if i < p {
                    i
                } else {
                    i + 1
                };
                if k == key {
                    ascending_index_unique(s, si, p);
                }
            }
            if k != key && has_key(s, k) {
                let i = index_of(s, k);
                if i < p {
                    assert(t[i].0@ == k);
                } else {
                    assert(t[i - 1].0@ == k);
                }
            }
        }
        assert forall|k: K::V| has_key(t, k) implies value_at(t, k) == value_at(s, k) by {
            let i = index_of(t, k);
            let si = if i < p {
                i
            } else {
                i + 1
            };
            ascending_index_unique(s, si, index_of(s, k));
        }
    }
}

/// Applying a function to the values leaves the keys as they are: they
/// ascend after it if and only if they did before.
pub proof fn with_values_ascending<K: OrderedKey, V, W>(s: Seq<(K, V)>, f: spec_fn(V) -> W)
    ensures
        ascending(with_values(s, f)) == ascending(s),
{
    let t = with_values(s, f);
    if ascending(t) {
        assert forall|i: int, j: int| 0 <= i < j < s.len() implies K::before(s[i].0@, s[j].0@) by {
            assert(K::before(t[i].0@, t[j].0@));
        }
    }
}

/// Applying a function to the values changes neither which keys are held
/// nor where: a key is found at the same place, with the function's value
/// of what was held under it, and a key that is lacking has the same slot.
pub proof fn with_values_lookup<K: OrderedKey, V, W>(
    s: Seq<(K, V)>,
    f: spec_fn(V) -> W,
    key: K::V,
)
    requires
        ascending(s),
    ensures
        has_key(with_values(s, f), key) == has_key(s, key),
        has_key(s, key) ==> index_of(with_values(s, f), key) == index_of(s, key) && value_at(
            with_values(s, f),
            key,
        ) == f(value_at(s, key)),
        !has_key(s, key) ==> slot(with_values(s, f), key) == slot(s, key),
{
    let t = with_values(s, f);
    with_values_ascending(s, f);
    if has_key(s, key) {
        let i = index_of(s, key);
        assert(t[i].0@ == key);
        ascending_index_unique(t, i, index_of(t, key));
    } else {
        slot_exists(s, key);
        let p = slot(s, key);
        slot_unique(t, key, p);
    }
}

/// Storing under a key and applying a function to the values can be done
/// in either order.
pub proof fn with_values_upsert<K: OrderedKey, V, W>(
    s: Seq<(K, V)>,
    f: spec_fn(V) -> W,
    key: K,
    value: V,
)
    requires
        ascending(s),
    ensures
        with_values(upsert(s, key, value), f) == upsert(with_values(s, f), key, f(value)),
{
    with_values_lookup(s, f, key@);
    if !has_key(s, key@) {
        slot_exists(s, key@);
    }
}

/// Replacing the value held for a key and applying a function to the values
/// can be done in either order, whatever the new value is.
pub proof fn with_values_replace<K: OrderedKey, V, W>(
    s: Seq<(K, V)>,
    f: spec_fn(V) -> W,
    key: K::V,
)
    requires
        ascending(s),
        has_key(s, key),
    ensures
        forall|value: V| #[trigger]
            with_values(replace_value(s, key, value), f) == replace_value(
                with_values(s, f),
                key,
                f(value),
            ),
{
    with_values_lookup(s, f, key);
    assert forall|value: V| #[trigger]
        with_values(replace_value(s, key, value), f) == replace_value(
            with_values(s, f),
            key,
            f(value),
        ) by {
        assert(with_values(replace_value(s, key, value), f) =~= replace_value(
            with_values(s, f),
            key,
            f(value),
        ));
    }
}

/// Taking a key out and applying a function to the values can be done in
/// either order.
pub proof fn with_values_without<K: OrderedKey, V, W>(
    s: Seq<(K, V)>,
    f: spec_fn(V) -> W,
    key: K::V,
)
    requires
        ascending(s),
    ensures
        with_values(without(s, key), f) == without(with_values(s, f), key),
{
    with_values_lookup(s, f, key);
}

/// An ordered container of key-value pairs, ascending by key.
#[derive(Debug)]
pub struct BTree<K: OrderedKey, V> {
    entries: Vec<(K, V)>,
}

impl<K: OrderedKey, V> View for BTree<K, V> {
    type V = Seq<(K, V)>;

    /// The pairs that the container holds, in the order in which it keeps
    /// them.
    closed spec fn view(&self) -> Seq<(K, V)> {
        self.entries@
    }
}

impl<K: OrderedKey, V: Clone> Clone for BTree<K, V> {
    fn clone(&self) -> (copy: Self)
        ensures
            is_copy(self@, copy@),
            self.wf() ==> copy.wf(),
    {
        proof {
            if self.wf() {
                copy_ascending(self@);
            }
        }
        BTree { entries: self.copy_pairs() }
    }
}

impl<K: OrderedKey, V> BTree<K, V> {
    /// The container's invariant: its keys are strictly ascending.
    pub open spec fn wf(&self) -> bool {
        ascending(self@)
    }

    /// The container read as a map from key models to values.
    pub open spec fn as_map(&self) -> Map<K::V, V> {
        entries_map(self@)
    }

    /// Makes an empty container.
    pub fn new() -> (tree: Self)
        ensures
            tree@ == Seq::<(K, V)>::empty(),
            tree.wf(),
    {
        BTree { entries: Vec::new() }
    }

    /// Finds `key` by binary search: whether the container has it, and the
    /// position where it stands or where it would go.
    fn locate(&self, key: &K) -> (found: (bool, usize))
        requires
            self.wf(),
        ensures
            found.1 <= self@.len(),
            found.0 ==> found.1 < self@.len() && self@[found.1 as int].0@ == key@,
            !found.0 ==> is_slot(self@, key@, found.1 as int),
    {
        let mut lo: usize = 0;
        let mut hi: usize = self.entries.len();
        while lo < hi
            invariant
                self.wf(),
                lo <= hi <= self@.len(),
                forall|i: int| 0 <= i < lo ==> K::before((#[trigger] self@[i]).0@, key@),
                forall|i: int| hi <= i < self@.len() ==> K::before(key@, (#[trigger] self@[i]).0@),
            decreases hi - lo,
        {
            let mid: usize = lo + (hi - lo) / 2;
            let ghost pivot = self@[mid as int].0@;
            match self.entries[mid].0.compare(key) {
                Comparison::Equal => {
                    return (true, mid);
                },
                Comparison::Less => {
                    proof {
                        assert forall|i: int| 0 <= i < mid + 1 implies K::before(
                            (#[trigger] self@[i]).0@,
                            key@,
                        ) by {
                            if i < mid {
                                K::before_transitive(self@[i].0@, pivot, key@);
                            }
                        }
                    }
                    lo = mid + 1;
                },
                Comparison::Greater => {
                    proof {
                        K::before_connected(pivot, key@);
                        assert forall|i: int| mid <= i < self@.len() implies K::before(
                            key@,
                            (#[trigger] self@[i]).0@,
                        ) by {
                            if mid < i {
                                K::before_transitive(key@, pivot, self@[i].0@);
                            }
                        }
                    }
                    hi = mid;
                },
            }
        }
        (false, lo)
    }

    /// Stores `value` under `key`. A value already stored under the key is
    /// replaced; nothing else changes.
    pub fn insert(&mut self, key: K, value: V)
        requires
            old(self).wf(),
        ensures
            final(self).wf(),
            final(self)@ == upsert(old(self)@, key, value),
            final(self).as_map() == old(self).as_map().insert(key@, value),
    {
        let (found, at) = self.locate(&key);
        proof {
            upsert_properties(self@, key, value);
            if found {
                ascending_index_of(self@, at as int);
            } else {
                slot_unique(self@, key@, at as int);
            }
        }
        if found {
            let held = &mut self.entries[at];
            held.1 = value;
        } else {
            self.entries.insert(at, (key, value));
        }
    }

    /// Looks `key` up, and gives the value stored under it.
    pub fn search(&self, key: &K) -> (value: Option<&V>)
        requires
            self.wf(),
        ensures
            match value {
                Some(v) => has_key(self@, key@) && *v == value_at(self@, key@),
                None => !has_key(self@, key@),
            },
    {
        let (found, at) = self.locate(key);
        proof {
            if found {
                ascending_index_of(self@, at as int);
            } else {
                slot_unique(self@, key@, at as int);
            }
        }
        if found {
            Some(&self.entries[at].1)
        } else {
            None
        }
    }

    /// Looks `key` up, and gives access to the value stored under it. What
    /// the caller leaves there is the value that the container then holds
    /// for the key.
    pub fn get_mut(&mut self, key: &K) -> (value: Option<&mut V>)
        requires
            old(self).wf(),
        ensures
            final(self).wf(),
            match value {
                Some(v) => {
                    &&& has_key(old(self)@, key@)
                    &&& *v == value_at(old(self)@, key@)
                    &&& final(self)@ == replace_value(old(self)@, key@, *final(v))
                },
                None => !has_key(old(self)@, key@) && final(self)@ == old(self)@,
            },
    {
        let (found, at) = self.locate(key);
        proof {
            if found {
                ascending_index_of(self@, at as int);
            } else {
                slot_unique(self@, key@, at as int);
            }
        }
        if found {
            Some(&mut self.entries[at].1)
        } else {
            None
        }
    }

    /// Takes `key` out, and gives the value that was stored under it.
    pub fn remove(&mut self, key: &K) -> (value: Option<V>)
        requires
            old(self).wf(),
        ensures
            final(self).wf(),
            final(self)@ == without(old(self)@, key@),
            final(self).as_map() == old(self).as_map().remove(key@),
            match value {
                Some(v) => has_key(old(self)@, key@) && v == value_at(old(self)@, key@),
                None => !has_key(old(self)@, key@),
            },
    {
        let (found, at) = self.locate(key);
        proof {
            without_properties(self@, key@);
            if found {
                ascending_index_of(self@, at as int);
            } else {
                slot_unique(self@, key@, at as int);
            }
        }
        if found {
            let pair = self.entries.remove(at);
            Some(pair.1)
        } else {
            None
        }
    }

    /// Calls `f` on every pair, in ascending order of the keys.
    pub fn traverse<F: FnMut(&K, &V)>(&self, mut f: F)
        requires
            forall|i: int|
                0 <= i < self@.len() ==> call_requires(
                    f,
                    (&(#[trigger] self@[i]).0, &self@[i].1),
                ),
        ensures
            forall|i: int|
                0 <= i < self@.len() ==> call_ensures(
                    f,
                    (&(#[trigger] self@[i]).0, &self@[i].1),
                    (),
                ),
    {
        let ghost visitor = f;
        let mut at: usize = 0;
        while at < self.entries.len()
            invariant
                at <= self@.len(),
                f == visitor,
                forall|i: int|
                    0 <= i < self@.len() ==> call_requires(
                        f,
                        (&(#[trigger] self@[i]).0, &self@[i].1),
                    ),
                forall|i: int|
                    0 <= i < at ==> call_ensures(f, (&(#[trigger] self@[i]).0, &self@[i].1), ()),
            decreases self@.len() - at,
        {
            let pair = &self.entries[at];
            f(&pair.0, &pair.1);
            at += 1;
        }
    }

    /// Copies the pairs out, in the order in which they are held.
    fn copy_pairs(&self) -> (pairs: Vec<(K, V)>) where V: Clone
        ensures
            is_copy(self@, pairs@),
    {
        let mut pairs: Vec<(K, V)> = Vec::new();
        let mut at: usize = 0;
        while at < self.entries.len()
            invariant
                at <= self@.len(),
                pairs@.len() == at,
                forall|i: int|
                    0 <= i < at ==> (#[trigger] pairs@[i]).0@ == self@[i].0@ && cloned::<V>(
                        self@[i].1,
                        pairs@[i].1,
                    ),
            decreases self@.len() - at,
        {
            let pair = &self.entries[at];
            pairs.push((pair.0.duplicate(), pair.1.clone()));
            at += 1;
        }
        pairs
    }

    /// Copies the pairs out, in ascending order of the keys.
    pub fn to_vec(&self) -> (pairs: Vec<(K, V)>) where V: Clone
        requires
            self.wf(),
        ensures
            is_copy(self@, pairs@),
            ascending(pairs@),
    {
        proof {
            copy_ascending(self@);
        }
        self.copy_pairs()
    }

    /// The pair at position `at` of the ascending order.
    pub(crate) fn pair_at(&self, at: usize) -> (pair: &(K, V))
        requires
            at < self@.len(),
        ensures
            *pair == self@[at as int],
    {
        &self.entries[at]
    }

    /// Whether the container holds no pair.
    pub fn is_empty(&self) -> (empty: bool)
        ensures
            empty == (self@.len() == 0),
    {
        self.entries.is_empty()
    }

    /// The number of pairs held.
    pub fn len(&self) -> (n: usize)
        ensures
            n == self@.len(),
    {
        self.entries.len()
    }

    /// Takes every pair out.
    pub fn clear(&mut self)
        ensures
            final(self)@ == Seq::<(K, V)>::empty(),
            final(self).wf(),
    {
        self.entries.clear();
    }
}

} // verus!
