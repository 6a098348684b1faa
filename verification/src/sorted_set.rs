//! A finite set whose elements are kept in ascending order.

use vstd::prelude::*;
use crate::duplicate::Duplicate;
use crate::sorted_map::{ascending, lemma_ascending_unique, MapKey};

verus! {

#[derive(Clone, Debug, PartialEq, Eq)]
pub struct SortedSet<K> {
    items: Vec<K>,
}

impl<K: MapKey> View for SortedSet<K> {
    type V = Set<K>;

    open spec fn view(&self) -> Set<K> {
        Set::new(|k: K| self.item_seq().contains(k))
    }
}

impl<K: MapKey> DeepView for SortedSet<K> {
    type V = Set<K>;

    open spec fn deep_view(&self) -> Set<K> {
        self@
    }
}

impl<K: MapKey> SortedSet<K> {
    /// The elements, in ascending order.
    pub closed spec fn item_seq(self) -> Seq<K> {
        self.items@
    }

    /// The representation invariant: elements ascending, so none twice.
    pub open spec fn wf(self) -> bool {
        ascending(self.item_seq())
    }

    /// The set is finite and has one element per position of `item_seq`.
    pub proof fn lemma_items(self)
        requires
            self.wf(),
        ensures
            self@.finite(),
            self@.len() == self.item_seq().len(),
            self@ == self.item_seq().to_set(),
    {
        let items = self.item_seq();
        assert(self@ =~= items.to_set());
        assert(items.no_duplicates()) by {
            assert forall|i: int, j: int| 0 <= i < items.len() && 0 <= j < items.len() && i != j implies items[i] != items[j] by {
                if items[i] == items[j] {
                    lemma_ascending_unique(items, i, j);
                }
            }
        }
        items.unique_seq_to_set();
        vstd::seq_lib::seq_to_set_is_finite(items);
    }
}

impl<K: MapKey + Copy> SortedSet<K> {
    /// The empty set.
    pub fn new() -> (s: Self)
        ensures
            s.wf(),
            s@ == Set::<K>::empty(),
    {
        let s = SortedSet { items: Vec::new() };
        assert(s@ =~= Set::<K>::empty());
        s
    }

    /// The number of elements.
    pub fn len(&self) -> (n: usize)
        ensures
            n == self.item_seq().len(),
            self.wf() ==> n == self@.len(),
    {
        proof {
            if self.wf() {
                self.lemma_items();
            }
        }
        self.items.len()
    }

    pub fn is_empty(&self) -> (b: bool)
        ensures
            b == (self.item_seq().len() == 0),
            b == (self@ == Set::<K>::empty()),
    {
        proof {
            if self.items@.len() == 0 {
                assert(self@ =~= Set::<K>::empty());
            } else {
                assert(self.item_seq().contains(self.item_seq()[0]));
                assert(self@.contains(self.item_seq()[0]));
            }
        }
        self.items.len() == 0
    }

    /// The element at position `i` of the ascending order.
    pub fn item_at(&self, i: usize) -> (k: K)
        requires
            i < self.item_seq().len(),
        ensures
            k == self.item_seq()[i as int],
            self@.contains(k),
    {
        assert(self.item_seq().contains(self.item_seq()[i as int]));
        self.items[i]
    }

    /// The first position whose element does not come before `k`.
    fn lower_bound(&self, k: &K) -> (i: usize)
        requires
            self.wf(),
        ensures
            i <= self.item_seq().len(),
            forall|j: int| 0 <= j < i ==> self.item_seq()[j].rank() < k.rank(),
            forall|j: int| i <= j < self.item_seq().len() ==> self.item_seq()[j].rank() >= k.rank(),
    {
        let mut lo: usize = 0;
        let mut hi: usize = self.items.len();
        while lo < hi
            invariant
                self.wf(),
                lo <= hi <= self.items@.len(),
                forall|j: int| 0 <= j < lo ==> self.items@[j].rank() < k.rank(),
                forall|j: int| hi <= j < self.items@.len() ==> self.items@[j].rank() >= k.rank(),
            decreases hi - lo,
        {
            let mid: usize = lo + (hi - lo) / 2;
            if self.items[mid].precedes(k) {
                lo = mid + 1;
            } else {
                hi = mid;
            }
        }
        lo
    }

    pub fn contains(&self, k: &K) -> (b: bool)
        requires
            self.wf(),
        ensures
            b == self@.contains(*k),
    {
        let i = self.lower_bound(k);
        if i < self.items.len() && !k.precedes(&self.items[i]) {
            proof {
                self.items@[i as int].rank_injective(*k);
                assert(self.item_seq().contains(self.item_seq()[i as int]));
            }
            true
        } else {
            proof {
                if self@.contains(*k) {
                    let j = choose|j: int| 0 <= j < self.item_seq().len() && self.item_seq()[j] == *k;
                    assert(self.item_seq()[j].rank() == k.rank());
                }
            }
            false
        }
    }

    /// Adds `k`; says whether it was new.
    pub fn insert(&mut self, k: K) -> (fresh: bool)
        requires
            old(self).wf(),
        ensures
            final(self).wf(),
            final(self)@ == old(self)@.insert(k),
            fresh == !old(self)@.contains(k),
    {
        let i = self.lower_bound(&k);
        let ghost before = *self;
        if i < self.items.len() && !k.precedes(&self.items[i]) {
            proof {
                self.items@[i as int].rank_injective(k);
                assert(self.item_seq().contains(self.item_seq()[i as int]));
                assert(self@ =~= before@.insert(k));
            }
            false
        } else {
            self.items.insert(i, k);
            proof {
                assert(!before@.contains(k)) by {
                    if before@.contains(k) {
                        let j = choose|j: int| 0 <= j < before.item_seq().len() && before.item_seq()[j] == k;
                        assert(before.item_seq()[j].rank() == k.rank());
                    }
                }
                assert(ascending(self.item_seq())) by {
                    assert forall|a: int, b: int| 0 <= a < b < self.items@.len() implies self.items@[a].rank() < self.items@[b].rank() by {
                        if b == i {
                            assert(self.items@[a] == before.items@[a]);
                        } else if a == i {
                            assert(self.items@[b] == before.items@[b - 1]);
                            if before.items@[b - 1].rank() == k.rank() {
                                before.items@[b - 1].rank_injective(k);
                                assert(before.item_seq().contains(k));
                            }
                        } else {
                            let a0 = if a < i { a } else { a - 1 };
                            let b0 = if b < i { b } else { b - 1 };
                            assert(self.items@[a] == before.items@[a0]);
                            assert(self.items@[b] == before.items@[b0]);
                        }
                    }
                }
                assert forall|q: K| self@.contains(q) <==> before@.insert(k).contains(q) by {
                    if before@.contains(q) {
                        let j = choose|j: int| 0 <= j < before.item_seq().len() && before.item_seq()[j] == q;
                        let j1 = if j < i { j } else { j + 1 };
                        assert(self.item_seq()[j1] == q);
                    }
                    if q == k {
                        assert(self.item_seq()[i as int] == k);
                    }
                    if self@.contains(q) && q != k {
                        let j = choose|j: int| 0 <= j < self.item_seq().len() && self.item_seq()[j] == q;
                        let j0 = if j < i { j } else { j - 1 };
                        assert(before.item_seq()[j0] == q);
                        assert(before.item_seq().contains(q));
                    }
                }
                assert(self@ =~= before@.insert(k));
            }
            true
        }
    }
}

impl<K: MapKey + Copy> SortedSet<K> {
    /// A copy with the same elements.
    pub fn copied(&self) -> (copy: Self)
        ensures
            copy.item_seq() == self.item_seq(),
            copy@ == self@,
            copy.wf() == self.wf(),
    {
        let mut items: Vec<K> = Vec::new();
        let mut i: usize = 0;
        while i < self.items.len()
            invariant
                i <= self.items@.len(),
                items@ == self.items@.subrange(0, i as int),
            decreases self.items@.len() - i,
        {
            items.push(self.items[i]);
            i += 1;
            assert(items@ =~= self.items@.subrange(0, i as int));
        }
        assert(items@ =~= self.items@);
        SortedSet { items }
    }
}

impl<K: MapKey + Copy> Duplicate for SortedSet<K> {
    open spec fn intact(&self) -> bool {
        self.wf()
    }

    fn duplicate(&self) -> (copy: Self) {
        self.copied()
    }
}

} // verus!
