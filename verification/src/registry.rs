//! An ordered collection of weak handles with explicit garbage collection.

use crate::collect::kept;
use crate::collect::lemma_kept_len;
use crate::collect::retain_marked;
use crate::weak::WeakRef;
use std::rc::Rc;
use vstd::prelude::*;

verus! {

/// The values that the handles of `slots` refer to, in the same order.
pub open spec fn targets<T: ?Sized>(slots: Seq<WeakRef<T>>) -> Seq<Rc<T>> {
    Seq::new(slots.len(), |i: int| slots[i].target())
}

/// The targets of the handles that are kept are the targets that are kept.
pub proof fn lemma_kept_targets<T: ?Sized>(slots: Seq<WeakRef<T>>, alive: Seq<bool>)
    ensures
        targets(kept(slots, alive)) == kept(targets(slots), alive),
    decreases slots.len(),
{
    if slots.len() > 0 {
        lemma_kept_targets(slots.drop_last(), alive);
        assert(targets(slots).drop_last() == targets(slots.drop_last()));
        assert(targets(kept(slots.drop_last(), alive).push(slots.last())) == targets(
            kept(slots.drop_last(), alive),
        ).push(slots.last().target()));
    } else {
        assert(targets(kept(slots, alive)) == kept(targets(slots), alive));
    }
}

/// An ordered collection of weak handles. It owns none of the values that
/// its handles refer to; handles whose target is gone stay in place until
/// the next collection pass.
#[verifier::reject_recursive_types(T)]
pub struct WeakVec<T: ?Sized>(Vec<WeakRef<T>>);

impl<T: ?Sized> View for WeakVec<T> {
    type V = Seq<WeakRef<T>>;

    closed spec fn view(&self) -> Seq<WeakRef<T>> {
        self.0@
    }
}

impl<T: ?Sized> WeakVec<T> {
    /// A collection holding the handles of `v`, in the same order.
    pub fn new(v: Vec<WeakRef<T>>) -> (registry: WeakVec<T>)
        ensures
            registry@ == v@,
    {
        WeakVec(v)
    }

    /// The handles, for changing them in place.
    pub fn get_mut(&mut self) -> (v: &mut Vec<WeakRef<T>>)
        ensures
            v@ == old(self)@,
            final(self)@ == final(v)@,
    {
        &mut self.0
    }

    /// The handles as they are stored, stale ones included.
    pub fn get(&self) -> (v: &Vec<WeakRef<T>>)
        ensures
            v@ == self@,
    {
        &self.0
    }

    /// Drops every handle that no longer resolves. The handles that stay
    /// keep their relative order.
    ///
    /// Which handles resolve is for the owners of their targets to decide:
    /// `alive` stands for what the pass found, one mark for each handle.
    pub fn gc(&mut self)
        ensures
            exists|alive: Seq<bool>|
                alive.len() == old(self)@.len() && final(self)@ == kept(old(self)@, alive),
            final(self)@.len() <= old(self)@.len(),
    {
        proof {
            assert forall|alive: Seq<bool>| #[trigger]
                kept(old(self)@, alive).len() <= old(self)@.len() by {
                lemma_kept_len(old(self)@, alive);
            }
        }
        let mut alive: Vec<bool> = Vec::new();
        let mut i: usize = 0;
        while i < self.0.len()
            invariant
                i <= self.0.len(),
                alive.len() == i,
                self.0 == old(self).0,
            decreases self.0.len() - i,
        {
            alive.push(self.0[i].upgrade().is_some());
            i += 1;
        }
        let mut slots: Vec<WeakRef<T>> = Vec::new();
        std::mem::swap(&mut self.0, &mut slots);
        self.0 = retain_marked(slots, &alive);
    }

    /// Appends `weak`, then runs a collection pass over all handles, the
    /// new one included.
    pub fn push(&mut self, weak: WeakRef<T>)
        ensures
            exists|alive: Seq<bool>|
                alive.len() == old(self)@.len() + 1 && final(self)@ == kept(
                    old(self)@.push(weak),
                    alive,
                ),
            final(self)@.len() <= old(self)@.len() + 1,
    {
        self.get_mut().push(weak);
        self.gc();
    }
}

} // verus!
