//! Copies that are known to equal what they were taken of.
//!
//! A state is copied before every step of an exploration. `duplicate` gives
//! a copy with the same model and the same representation invariant.

use vstd::prelude::*;

verus! {

pub trait Duplicate: Sized + DeepView {
    /// The representation invariant of the value: that of the maps and sets in it.
    spec fn intact(&self) -> bool;

    /// A copy with the same model.
    fn duplicate(&self) -> (copy: Self)
        requires
            self.intact(),
        ensures
            copy.deep_view() == self.deep_view(),
            copy.intact(),
    ;
}

/// A copy of a list of plain values.
pub fn copy_list<T: Copy>(list: &Vec<T>) -> (copy: Vec<T>)
    ensures
        copy@ == list@,
{
    let mut copy: Vec<T> = Vec::new();
    let mut i: usize = 0;
    while i < list.len()
        invariant
            i <= list@.len(),
            copy@ == list@.subrange(0, i as int),
        decreases list@.len() - i,
    {
        copy.push(list[i]);
        i += 1;
        assert(copy@ =~= list@.subrange(0, i as int));
    }
    assert(copy@ =~= list@);
    copy
}

impl<T: Duplicate> Duplicate for Vec<T> {
    open spec fn intact(&self) -> bool {
        forall|i: int| 0 <= i < self@.len() ==> (#[trigger] self@[i]).intact()
    }

    fn duplicate(&self) -> (copy: Self) {
        let mut copy: Vec<T> = Vec::new();
        let mut i: usize = 0;
        while i < self.len()
            invariant
                i <= self@.len(),
                self.intact(),
                copy@.len() == i,
                forall|j: int|
                    0 <= j < i ==> (#[trigger] copy@[j]).deep_view() == self@[j].deep_view() && copy@[j].intact(),
            decreases self@.len() - i,
        {
            copy.push(self[i].duplicate());
            i += 1;
        }
        assert(copy.deep_view() =~= self.deep_view());
        copy
    }
}

} // verus!
