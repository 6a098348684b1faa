//! A finite map whose entries are kept in ascending key order.
//!
//! Every walk over a `SortedMap` visits its entries in the order of their
//! keys, so a computation that folds over a map gives the same result for
//! the same contents, however the map was built.

use vstd::prelude::*;
use crate::duplicate::Duplicate;

verus! {

/// A key type with a total order given by an injective rank.
pub trait MapKey: Sized {
    /// The position of the key in the order of its type.
    spec fn rank(self) -> int;

    /// Different keys have different ranks.
    proof fn rank_injective(self, other: Self)
        requires
            self.rank() == other.rank(),
        ensures
            self == other,
    ;

    /// Whether `self` comes strictly before `other`.
    fn precedes(&self, other: &Self) -> (b: bool)
        ensures
            b == (self.rank() < other.rank()),
    ;
}

impl MapKey for u32 {
    open spec fn rank(self) -> int {
        self as int
    }

    proof fn rank_injective(self, other: Self) {
    }

    fn precedes(&self, other: &Self) -> (b: bool) {
        *self < *other
    }
}

impl MapKey for u64 {
    open spec fn rank(self) -> int {
        self as int
    }

    proof fn rank_injective(self, other: Self) {
    }

    fn precedes(&self, other: &Self) -> (b: bool) {
        *self < *other
    }
}

impl MapKey for usize {
    open spec fn rank(self) -> int {
        self as int
    }

    proof fn rank_injective(self, other: Self) {
    }

    fn precedes(&self, other: &Self) -> (b: bool) {
        *self < *other
    }
}

impl MapKey for (u32, u32) {
    open spec fn rank(self) -> int {
        self.0 as int * 0x1_0000_0000 + self.1 as int
    }

    proof fn rank_injective(self, other: Self) {
    }

    fn precedes(&self, other: &Self) -> (b: bool) {
        self.0 < other.0 || (self.0 == other.0 && self.1 < other.1)
    }
}

/// Whether the ranks of `keys` increase strictly from left to right.
pub open spec fn ascending<K: MapKey>(keys: Seq<K>) -> bool {
    forall|i: int, j: int| 0 <= i < j < keys.len() ==> keys[i].rank() < keys[j].rank()
}

/// In an ascending sequence a key occurs at one index only.
pub proof fn lemma_ascending_unique<K: MapKey>(keys: Seq<K>, i: int, j: int)
    requires
        ascending(keys),
        0 <= i < keys.len(),
        0 <= j < keys.len(),
        keys[i] == keys[j],
    ensures
        i == j,
{
    if i < j {
        assert(keys[i].rank() < keys[j].rank());
    } else if j < i {
        assert(keys[j].rank() < keys[i].rank());
    }
}

/// Whether `keys` lists the keys of `m` in ascending order.
pub open spec fn is_listing<K: MapKey, V>(m: Map<K, V>, keys: Seq<K>) -> bool {
    &&& ascending(keys)
    &&& forall|k: K| m.contains_key(k) <==> keys.contains(k)
}

/// The keys of a finite map in ascending order.
pub open spec fn ordered_keys<K: MapKey, V>(m: Map<K, V>) -> Seq<K> {
    choose|keys: Seq<K>| is_listing(m, keys)
}

/// A map has at most one ascending listing of its keys.
pub proof fn lemma_listing_unique<K: MapKey, V>(m: Map<K, V>, s: Seq<K>, t: Seq<K>)
    requires
        is_listing(m, s),
        is_listing(m, t),
    ensures
        s == t,
    decreases s.len(),
{
    if s.len() == 0 {
        if t.len() > 0 {
            assert(t.contains(t[0]));
            assert(m.contains_key(t[0]));
            assert(s.contains(t[0]));
        }
        assert(s =~= t);
    } else {
        let a = s.last();
        assert(s.contains(a));
        assert(t.contains(a));
        let b = t.last();
        assert(t.contains(b));
        assert(s.contains(b));
        let ia = choose|i: int| 0 <= i < t.len() && t[i] == a;
        let ib = choose|i: int| 0 <= i < s.len() && s[i] == b;
        if ia < t.len() - 1 {
            assert(t[ia].rank() < b.rank());
        }
        if ib < s.len() - 1 {
            assert(s[ib].rank() < a.rank());
        }
        a.rank_injective(b);
        let m1 = m.remove(a);
        let s1 = s.drop_last();
        let t1 = t.drop_last();
        assert forall|k: K| m1.contains_key(k) <==> s1.contains(k) by {
            if m1.contains_key(k) {
                assert(s.contains(k));
                let i = choose|i: int| 0 <= i < s.len() && s[i] == k;
                assert(i != s.len() - 1);
                assert(s1[i] == k);
            }
            if s1.contains(k) {
                let i = choose|i: int| 0 <= i < s1.len() && s1[i] == k;
                assert(s[i] == k);
                assert(s[i].rank() < s[s.len() - 1].rank());
                assert(s.contains(k));
            }
        }
        assert forall|k: K| m1.contains_key(k) <==> t1.contains(k) by {
            if m1.contains_key(k) {
                assert(t.contains(k));
                let i = choose|i: int| 0 <= i < t.len() && t[i] == k;
                assert(i != t.len() - 1);
                assert(t1[i] == k);
            }
            if t1.contains(k) {
                let i = choose|i: int| 0 <= i < t1.len() && t1[i] == k;
                assert(t[i] == k);
                assert(t[i].rank() < t[t.len() - 1].rank());
                assert(t.contains(k));
            }
        }
        lemma_listing_unique(m1, s1, t1);
        assert(s =~= s1.push(a));
        assert(t =~= t1.push(b));
    }
}

#[derive(Clone, Debug, PartialEq, Eq)]
pub struct SortedMap<K, V> {
    keys: Vec<K>,
    vals: Vec<V>,
}

impl<K: MapKey, V> View for SortedMap<K, V> {
    type V = Map<K, V>;

    open spec fn view(&self) -> Map<K, V> {
        Map::new(
            |k: K| self.key_seq().contains(k),
            |k: K| self.val_seq()[self.key_seq().index_of(k)],
        )
    }
}

impl<K: MapKey, V: DeepView> DeepView for SortedMap<K, V> {
    type V = Map<K, V::V>;

    open spec fn deep_view(&self) -> Map<K, V::V> {
        Map::new(|k: K| self@.contains_key(k), |k: K| self@[k].deep_view())
    }
}

impl<K: MapKey, V> SortedMap<K, V> {
    /// The keys, in ascending order.
    pub closed spec fn key_seq(self) -> Seq<K> {
        self.keys@
    }

    /// The values, each at the index of its key in `key_seq`.
    pub closed spec fn val_seq(self) -> Seq<V> {
        self.vals@
    }

    /// The representation invariant: one value per key, keys ascending.
    pub open spec fn wf(self) -> bool {
        &&& self.key_seq().len() == self.val_seq().len()
        &&& ascending(self.key_seq())
    }

    /// The map holds exactly the pairs of `key_seq` and `val_seq`.
    pub proof fn lemma_entries(self)
        requires
            self.wf(),
        ensures
            self@.dom().finite(),
            self@.len() == self.key_seq().len(),
            forall|i: int|
                0 <= i < self.key_seq().len() ==> #[trigger] self@.contains_key(self.key_seq()[i])
                    && self@[self.key_seq()[i]] == self.val_seq()[i],
            forall|k: K|
                self@.contains_key(k) ==> 0 <= self.key_seq().index_of(k) < self.key_seq().len()
                    && self.key_seq()[self.key_seq().index_of(k)] == k,
    {
        let keys = self.key_seq();
        assert forall|i: int| 0 <= i < keys.len() implies #[trigger] self@.contains_key(keys[i])
            && self@[keys[i]] == self.val_seq()[i] by {
            assert(keys.contains(keys[i]));
            lemma_ascending_unique(keys, i, keys.index_of(keys[i]));
        }
        assert(self@.dom() =~= keys.to_set());
        keys.unique_seq_to_set();
        assert(keys.no_duplicates()) by {
            assert forall|i: int, j: int| 0 <= i < keys.len() && 0 <= j < keys.len() && i != j implies keys[i] != keys[j] by {
                if keys[i] == keys[j] {
                    lemma_ascending_unique(keys, i, j);
                }
            }
        }
        keys.unique_seq_to_set();
        vstd::seq_lib::seq_to_set_is_finite(keys);
    }


    /// The ascending listing of the map's keys is `key_seq`.
    pub proof fn lemma_ordered_keys(self)
        requires
            self.wf(),
        ensures
            is_listing(self@, self.key_seq()),
            ordered_keys(self@) == self.key_seq(),
    {
        self.lemma_entries();
        assert(is_listing(self@, self.key_seq()));
        lemma_listing_unique(self@, ordered_keys(self@), self.key_seq());
    }
}

impl<K: MapKey, V: DeepView> SortedMap<K, V> {
    /// The deep view has the keys of the view, and the deep views of its values.
    pub proof fn lemma_deep_view(self)
        requires
            self.wf(),
        ensures
            self.deep_view().dom() == self@.dom(),
            is_listing(self.deep_view(), self.key_seq()),
            ordered_keys(self.deep_view()) == self.key_seq(),
            forall|i: int|
                0 <= i < self.key_seq().len() ==> #[trigger] self.deep_view()[self.key_seq()[i]]
                    == self.val_seq()[i].deep_view(),
    {
        self.lemma_entries();
        assert(self.deep_view().dom() =~= self@.dom());
        assert(is_listing(self.deep_view(), self.key_seq()));
        lemma_listing_unique(self.deep_view(), ordered_keys(self.deep_view()), self.key_seq());
    }
}

impl<K: MapKey + Copy, V> SortedMap<K, V> {
    /// An empty map.
    pub fn new() -> (m: Self)
        ensures
            m.wf(),
            m@ == Map::<K, V>::empty(),
            m.key_seq().len() == 0,
    {
        let m = SortedMap { keys: Vec::new(), vals: Vec::new() };
        assert(m@ =~= Map::<K, V>::empty());
        m
    }

    /// The number of entries.
    pub fn len(&self) -> (n: usize)
        requires
            self.wf(),
        ensures
            n == self.key_seq().len(),
            n == self@.len(),
    {
        proof {
            self.lemma_entries();
        }
        self.keys.len()
    }

    pub fn is_empty(&self) -> (b: bool)
        requires
            self.wf(),
        ensures
            b == (self.key_seq().len() == 0),
            b == (self@.len() == 0),
    {
        proof {
            self.lemma_entries();
        }
        self.keys.len() == 0
    }

    /// The key of the entry at position `i` of the ascending order.
    pub fn key_at(&self, i: usize) -> (k: K)
        requires
            self.wf(),
            i < self.key_seq().len(),
        ensures
            k == self.key_seq()[i as int],
            self@.contains_key(k),
    {
        proof {
            self.lemma_entries();
        }
        self.keys[i]
    }

    /// The value of the entry at position `i` of the ascending order.
    pub fn value_at(&self, i: usize) -> (v: &V)
        requires
            self.wf(),
            i < self.key_seq().len(),
        ensures
            *v == self.val_seq()[i as int],
            *v == self@[self.key_seq()[i as int]],
    {
        proof {
            self.lemma_entries();
        }
        &self.vals[i]
    }

    /// The first position whose key does not come before `k`.
    fn lower_bound(&self, k: &K) -> (i: usize)
        requires
            self.wf(),
        ensures
            i <= self.key_seq().len(),
            forall|j: int| 0 <= j < i ==> self.key_seq()[j].rank() < k.rank(),
            forall|j: int| i <= j < self.key_seq().len() ==> self.key_seq()[j].rank() >= k.rank(),
    {
        let mut lo: usize = 0;
        let mut hi: usize = self.keys.len();
        while lo < hi
            invariant
                self.wf(),
                lo <= hi <= self.keys@.len(),
                forall|j: int| 0 <= j < lo ==> self.keys@[j].rank() < k.rank(),
                forall|j: int| hi <= j < self.keys@.len() ==> self.keys@[j].rank() >= k.rank(),
            decreases hi - lo,
        {
            let mid: usize = lo + (hi - lo) / 2;
            if self.keys[mid].precedes(k) {
                lo = mid + 1;
            } else {
                hi = mid;
            }
        }
        lo
    }

    /// The position of `k` in the ascending order, if the map holds it.
    pub fn position(&self, k: &K) -> (r: Option<usize>)
        requires
            self.wf(),
        ensures
            match r {
                Some(i) => i < self.key_seq().len() && self.key_seq()[i as int] == *k
                    && self@.contains_key(*k),
                None => !self@.contains_key(*k),
            },
    {
        let i = self.lower_bound(k);
        proof {
            self.lemma_entries();
        }
        if i < self.keys.len() && !k.precedes(&self.keys[i]) {
            proof {
                self.keys@[i as int].rank_injective(*k);
            }
            Some(i)
        } else {
            proof {
                if self@.contains_key(*k) {
                    let j = self.key_seq().index_of(*k);
                    assert(self.key_seq()[j] == *k);
                }
            }
            None
        }
    }

    pub fn contains_key(&self, k: &K) -> (b: bool)
        requires
            self.wf(),
        ensures
            b == self@.contains_key(*k),
    {
        self.position(k).is_some()
    }

    pub fn get(&self, k: &K) -> (r: Option<&V>)
        requires
            self.wf(),
        ensures
            match r {
                Some(v) => self@.contains_key(*k) && *v == self@[*k],
                None => !self@.contains_key(*k),
            },
    {
        match self.position(k) {
            Some(i) => {
                proof {
                    self.lemma_entries();
                }
                Some(&self.vals[i])
            },
            None => None,
        }
    }

    /// Binds `k` to `v` and hands back the value that `k` had before.
    pub fn insert(&mut self, k: K, v: V) -> (prev: Option<V>)
        requires
            old(self).wf(),
        ensures
            final(self).wf(),
            final(self)@ == old(self)@.insert(k, v),
            prev == if old(self)@.contains_key(k) {
                Some(old(self)@[k])
            } else {
                None::<V>
            },
    {
        let i = self.lower_bound(&k);
        proof {
            self.lemma_entries();
        }
        let ghost before = *self;
        if i < self.keys.len() && !k.precedes(&self.keys[i]) {
            proof {
                self.keys@[i as int].rank_injective(k);
            }
            let prev = self.vals.remove(i);
            self.vals.insert(i, v);
            proof {
                self.lemma_entries();
                assert(self.keys@ == before.keys@);
                assert forall|q: K| self@.contains_key(q) <==> before@.insert(k, v).contains_key(q) by {
                    if before@.contains_key(q) {
                        let j = before.key_seq().index_of(q);
                        assert(self.key_seq()[j] == q);
                    }
                }
                assert forall|q: K| self@.contains_key(q) implies self@[q] == before@.insert(k, v)[q] by {
                    let j = self.key_seq().index_of(q);
                    assert(before.key_seq()[j] == q);
                }
                assert(self@ =~= before@.insert(k, v));
            }
            Some(prev)
        } else {
            self.keys.insert(i, k);
            self.vals.insert(i, v);
            proof {
                assert(!before@.contains_key(k)) by {
                    if before@.contains_key(k) {
                        let j = before.key_seq().index_of(k);
                        assert(before.key_seq()[j] == k);
                    }
                }
                assert(ascending(self.key_seq())) by {
                    assert forall|a: int, b: int| 0 <= a < b < self.keys@.len() implies self.keys@[a].rank() < self.keys@[b].rank() by {
                        if b == i {
                            assert(self.keys@[a] == before.keys@[a]);
                        } else if a == i {
                            assert(self.keys@[b] == before.keys@[b - 1]);
                            if before.keys@[b - 1].rank() == k.rank() {
                                before.keys@[b - 1].rank_injective(k);
                                assert(before.key_seq().contains(k));
                            }
                        } else {
                            let a0 = if a < i { a } else { a - 1 };
                            let b0 = if b < i { b } else { b - 1 };
                            assert(self.keys@[a] == before.keys@[a0]);
                            assert(self.keys@[b] == before.keys@[b0]);
                        }
                    }
                }
                self.lemma_entries();
                assert(self.key_seq()[i as int] == k);
                assert forall|q: K| self@.contains_key(q) <==> before@.insert(k, v).contains_key(q) by {
                    if before@.contains_key(q) {
                        let j = before.key_seq().index_of(q);
                        let j1 = if j < i { j } else { j + 1 };
                        assert(self.key_seq()[j1] == q);
                    }
                    if self@.contains_key(q) && q != k {
                        let j = self.key_seq().index_of(q);
                        let j0 = if j < i { j } else { j - 1 };
                        assert(before.key_seq()[j0] == q);
                        assert(before.key_seq().contains(q));
                    }
                }
                assert forall|q: K| self@.contains_key(q) implies self@[q] == before@.insert(k, v)[q] by {
                    let j = self.key_seq().index_of(q);
                    if q != k {
                        let j0 = if j < i { j } else { j - 1 };
                        assert(before.key_seq()[j0] == q);
                        assert(before@[before.key_seq()[j0]] == before.val_seq()[j0]);
                    }
                }
                assert(self@ =~= before@.insert(k, v));
            }
            None
        }
    }

    /// Takes the entry of `k` out of the map, if there is one.
    pub fn remove(&mut self, k: &K) -> (prev: Option<V>)
        requires
            old(self).wf(),
        ensures
            final(self).wf(),
            final(self)@ == old(self)@.remove(*k),
            prev == if old(self)@.contains_key(*k) {
                Some(old(self)@[*k])
            } else {
                None::<V>
            },
    {
        let ghost before = *self;
        match self.position(k) {
            Some(i) => {
                proof {
                    self.lemma_entries();
                }
                self.keys.remove(i);
                let prev = self.vals.remove(i);
                proof {
                    assert(ascending(self.key_seq())) by {
                        assert forall|a: int, b: int| 0 <= a < b < self.keys@.len() implies self.keys@[a].rank() < self.keys@[b].rank() by {
                            let a0 = if a < i { a } else { a + 1 };
                            let b0 = if b < i { b } else { b + 1 };
                            assert(self.keys@[a] == before.keys@[a0]);
                            assert(self.keys@[b] == before.keys@[b0]);
                        }
                    }
                    self.lemma_entries();
                    assert forall|q: K| self@.contains_key(q) <==> before@.remove(*k).contains_key(q) by {
                        if self@.contains_key(q) {
                            let j = self.key_seq().index_of(q);
                            let j0 = if j < i { j } else { j + 1 };
                            assert(before.key_seq()[j0] == q);
                            assert(before.key_seq().contains(q));
                            lemma_ascending_unique(before.key_seq(), j0, before.key_seq().index_of(q));
                        }
                        if before@.contains_key(q) && q != *k {
                            let j = before.key_seq().index_of(q);
                            let j1 = if j < i { j } else { j - 1 };
                            assert(self.key_seq()[j1] == q);
                        }
                    }
                    assert forall|q: K| self@.contains_key(q) implies self@[q] == before@.remove(*k)[q] by {
                        let j = self.key_seq().index_of(q);
                        let j0 = if j < i { j } else { j + 1 };
                        assert(before.key_seq()[j0] == q);
                        assert(before@[before.key_seq()[j0]] == before.val_seq()[j0]);
                    }
                    assert(self@ =~= before@.remove(*k));
                }
                Some(prev)
            },
            None => {
                assert(self@ =~= before@.remove(*k));
                None
            },
        }
    }

    /// A mutable borrow of the value bound to `k`.
    pub fn get_mut(&mut self, k: &K) -> (r: Option<&mut V>)
        requires
            old(self).wf(),
        ensures
            match r {
                Some(v) => old(self)@.contains_key(*k) && *v == old(self)@[*k] && final(self).wf()
                    && final(self)@ == old(self)@.insert(*k, *final(v)),
                None => !old(self)@.contains_key(*k) && *final(self) == *old(self),
            },
    {
        match self.position(k) {
            Some(i) => {
                proof {
                    self.lemma_entries();
                }
                let ghost before = *self;
                let slot = &mut self.vals[i];
                proof {
                    let after = SortedMap::<K, V> { keys: before.keys, vals: after_borrow(self).vals };
                    assert(after_borrow(self).vals@ == before.vals@.update(i as int, *final(slot)));
                    lemma_update_entry(before, after_borrow(*self), i as int);
                }
                Some(slot)
            },
            None => None,
        }
    }
}

/// Replacing the value at one position rebinds the key of that position.
pub proof fn lemma_update_entry<K: MapKey, V>(before: SortedMap<K, V>, after: SortedMap<K, V>, i: int)
    requires
        before.wf(),
        0 <= i < before.key_seq().len(),
        after.key_seq() == before.key_seq(),
        after.val_seq() == before.val_seq().update(i, after.val_seq()[i]),
        after.val_seq().len() == before.val_seq().len(),
    ensures
        after.wf(),
        after@ == before@.insert(before.key_seq()[i], after.val_seq()[i]),
{
    before.lemma_entries();
    after.lemma_entries();
    let k = before.key_seq()[i];
    let v = after.val_seq()[i];
    assert forall|q: K| after@.contains_key(q) implies after@[q] == before@.insert(k, v)[q] by {
        let j = after.key_seq().index_of(q);
        if q == k {
            lemma_ascending_unique(before.key_seq(), i, j);
        } else {
            assert(before@[before.key_seq()[j]] == before.val_seq()[j]);
        }
    }
    assert(after@ =~= before@.insert(k, v));
}

impl<K: MapKey + Copy, V: Copy> SortedMap<K, V> {
    /// A copy with the same entries.
    pub fn copied(&self) -> (m: Self)
        ensures
            m.key_seq() == self.key_seq(),
            m.val_seq() == self.val_seq(),
            m@ == self@,
            m.wf() == self.wf(),
    {
        let mut keys: Vec<K> = Vec::new();
        let mut vals: Vec<V> = Vec::new();
        let mut i: usize = 0;
        while i < self.keys.len()
            invariant
                i <= self.keys@.len(),
                keys@ == self.keys@.subrange(0, i as int),
            decreases self.keys@.len() - i,
        {
            keys.push(self.keys[i]);
            i += 1;
            assert(keys@ =~= self.keys@.subrange(0, i as int));
        }
        assert(keys@ =~= self.keys@);
        let mut j: usize = 0;
        while j < self.vals.len()
            invariant
                j <= self.vals@.len(),
                vals@ == self.vals@.subrange(0, j as int),
            decreases self.vals@.len() - j,
        {
            vals.push(self.vals[j]);
            j += 1;
            assert(vals@ =~= self.vals@.subrange(0, j as int));
        }
        assert(vals@ =~= self.vals@);
        let m = SortedMap { keys, vals };
        assert(m@ =~= self@);
        m
    }
}

/// A map with `u32` keys in ascending order has at most `2^32` entries.
pub proof fn lemma_u32_keys_bound(keys: Seq<u32>, i: int)
    requires
        ascending(keys),
        0 <= i < keys.len(),
    ensures
        keys[i] >= i,
    decreases i,
{
    if i > 0 {
        lemma_u32_keys_bound(keys, i - 1);
        assert(keys[i - 1].rank() < keys[i].rank());
    }
}

/// Binding a key in a map binds it, by the value's deep view, in the deep view.
pub proof fn lemma_deep_insert<K: MapKey, V: DeepView>(
    before: SortedMap<K, V>,
    after: SortedMap<K, V>,
    k: K,
    v: V,
)
    requires
        after@ == before@.insert(k, v),
    ensures
        after.deep_view() == before.deep_view().insert(k, v.deep_view()),
{
    assert(after.deep_view() =~= before.deep_view().insert(k, v.deep_view()));
}

impl<K: MapKey + Copy, V: Duplicate> Duplicate for SortedMap<K, V> {
    open spec fn intact(&self) -> bool {
        self.wf() && forall|i: int| 0 <= i < self.val_seq().len() ==> (#[trigger] self.val_seq()[i]).intact()
    }

    fn duplicate(&self) -> (copy: Self) {
        let mut keys: Vec<K> = Vec::new();
        let mut vals: Vec<V> = Vec::new();
        let mut i: usize = 0;
        while i < self.keys.len()
            invariant
                i <= self.keys@.len(),
                keys@ == self.keys@.subrange(0, i as int),
            decreases self.keys@.len() - i,
        {
            keys.push(self.keys[i]);
            i += 1;
            assert(keys@ =~= self.keys@.subrange(0, i as int));
        }
        assert(keys@ =~= self.keys@);
        let mut j: usize = 0;
        while j < self.vals.len()
            invariant
                j <= self.vals@.len(),
                self.intact(),
                vals@.len() == j,
                forall|k: int|
                    0 <= k < j ==> (#[trigger] vals@[k]).deep_view() == self.vals@[k].deep_view() && vals@[k].intact(),
            decreases self.vals@.len() - j,
        {
            assert(self.val_seq()[j as int].intact());
            vals.push(self.vals[j].duplicate());
            j += 1;
        }
        let copy = SortedMap { keys, vals };
        proof {
            assert(copy.key_seq() == self.key_seq());
            self.lemma_entries();
            assert(copy@.dom() =~= self@.dom());
            assert forall|k: K| copy@.contains_key(k) implies #[trigger] copy@[k].deep_view()
                == self@[k].deep_view() by {
                let at = self.key_seq().index_of(k);
                assert(self.key_seq()[at] == k);
                assert(vals@[at].deep_view() == self.vals@[at].deep_view());
            }
            assert(copy.deep_view() =~= self.deep_view());
        }
        copy
    }
}

impl<K: MapKey + Copy, V: Duplicate> SortedMap<K, V> {
    /// A map is intact where it keeps its order and every value in it is intact.
    pub proof fn lemma_intact(self)
        requires
            self.wf(),
        ensures
            self.intact() <==> forall|k: K| self@.contains_key(k) ==> (#[trigger] self@[k]).intact(),
    {
        self.lemma_entries();
        if self.intact() {
            assert forall|k: K| self@.contains_key(k) implies (#[trigger] self@[k]).intact() by {
                let at = self.key_seq().index_of(k);
                assert(self.val_seq()[at].intact());
            }
        }
        if forall|k: K| self@.contains_key(k) ==> (#[trigger] self@[k]).intact() {
            assert forall|i: int| 0 <= i < self.val_seq().len() implies (#[trigger] self.val_seq()[i]).intact() by {
                assert(self@.contains_key(self.key_seq()[i]));
                assert(self@[self.key_seq()[i]].intact());
            }
        }
    }
}

} // verus!
