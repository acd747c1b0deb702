//! The multiplexer: an ordered list of weakly held listeners for one item
//! type, and the pass that offers an item to them.

use crate::collect::kept;
use crate::collect::lemma_kept_concat;
use crate::collect::lemma_kept_step;
use crate::observer::may_reply;
use crate::observer::Observer;
use crate::registry::lemma_kept_targets;
use crate::registry::targets;
use crate::registry::WeakVec;
use crate::relay::lemma_relays_join;
use crate::relay::lemma_relays_nobody;
use crate::relay::lemma_relays_one;
use crate::relay::relays;
use crate::weak::WeakRef;
use std::marker::PhantomData;
use std::rc::Rc;
use vstd::prelude::*;

verus! {

/// One step of a pass: offers `current` to the listener of one slot, given
/// what resolving that slot's handle gave.
///
/// A slot whose listener is gone is transparent: the item goes on as it
/// is. A listener that is there is handed the item, and its answer is the
/// answer of the step: the item to go on with, or `None` to end the pass.
/// The strong pointer is let go of when the listener has answered.
pub fn offer<T, L: Observer<Item = T> + ?Sized>(
    resolved: Option<Rc<L>>,
    current: T,
) -> (reply: Option<T>)
    ensures
        match resolved {
            Some(listener) => may_reply(&*listener, current, reply),
            None => reply == Some(current),
        },
{
    match resolved {
        Some(listener) => listener.handle(current),
        None => Some(current),
    }
}

/// Offers items to listeners in the order of their registration. The
/// multiplexer holds its listeners weakly: it never keeps one alive.
///
/// `L` is the type of the listeners. Left out, it is
/// `dyn Observer<Item = T>`, and listeners of any type register side by side.
#[verifier::reject_recursive_types(T)]
#[verifier::reject_recursive_types(L)]
pub struct Multiplexer<T, L: ?Sized = dyn Observer<Item = T>> {
    listeners: WeakVec<L>,
    item: PhantomData<T>,
}

impl<T, L: Observer<Item = T> + ?Sized> View for Multiplexer<T, L> {
    type V = Seq<Rc<L>>;

    /// The registered listeners in the order of registration, those
    /// included that are gone and not collected yet.
    closed spec fn view(&self) -> Seq<Rc<L>> {
        targets(self.listeners@)
    }
}

impl<T, L: Observer<Item = T> + ?Sized> Multiplexer<T, L> {
    /// A multiplexer without listeners.
    pub fn new() -> (mp: Multiplexer<T, L>)
        ensures
            mp@ == Seq::<Rc<L>>::empty(),
    {
        Multiplexer { listeners: WeakVec::new(Vec::new()), item: PhantomData }
    }

    /// The handles of the registered listeners as they are stored.
    pub fn listeners(&self) -> (registry: &WeakVec<L>)
        ensures
            targets(registry@) == self@,
    {
        &self.listeners
    }

    /// Drops from the list every listener that is gone, and adds `listener`
    /// behind those that stay, holding it weakly.
    ///
    /// This leaves the list as pushing the new handle onto the registry
    /// would: `listener` is alive while it is being registered.
    pub fn register(&mut self, listener: Rc<L>)
        ensures
            exists|alive: Seq<bool>|
                alive.len() == old(self)@.len() && final(self)@ == kept(old(self)@, alive).push(
                    listener,
                ),
    {
        let handle = WeakRef::downgrade(&listener);
        self.listeners.gc();
        let ghost survivors = self.listeners@;
        self.listeners.get_mut().push(handle);
        proof {
            let alive = choose|alive: Seq<bool>|
                alive.len() == old(self).listeners@.len() && survivors == kept(
                    old(self).listeners@,
                    alive,
                );
            lemma_kept_targets(old(self).listeners@, alive);
            assert(targets(survivors.push(handle)) == targets(survivors).push(listener));
        }
    }

    /// Offers `item` to the listeners in the order of their registration.
    ///
    /// A listener that is gone is passed over. Each of the others gets what
    /// the one before it handed back. The first that consumes the item ends
    /// the pass, and the result is `None`; otherwise the result is what the
    /// last listener handed back. Nothing is collected on the way.
    ///
    /// A slot is resolved when the pass comes to it, not before, and `offer`
    /// makes the step with what resolving gave.
    ///
    /// In the contract `alive` stands for what the pass found: the mark of
    /// a listener says whether it was still there when the pass came to it.
    /// Listeners behind the one that consumed the item are not looked at.
    ///
    /// The multiplexer stays borrowed for the whole pass, so no listener can
    /// register another one on it from within its `handle`.
    pub fn distribute(&self, item: T) -> (out: Option<T>)
        ensures
            exists|alive: Seq<bool>|
                alive.len() == self@.len() && relays(kept(self@, alive), item, out),
            self@.len() == 0 ==> out == Some(item),
    {
        let slots = self.listeners.get();
        let ghost all = self@;
        let ghost mut alive = Seq::<bool>::empty();
        let mut current = item;
        let mut i: usize = 0;
        proof {
            lemma_relays_nobody(kept(all.take(0), alive), item, Some(current));
        }
        while i < slots.len()
            invariant
                slots@ == self.listeners@,
                all == self@,
                i <= slots.len(),
                alive.len() == i,
                relays(kept(all.take(i as int), alive), item, Some(current)),
                all.len() == 0 ==> current == item,
            decreases slots.len() - i,
        {
            let ghost before = kept(all.take(i as int), alive);
            let resolved = slots[i].upgrade();
            let ghost live = resolved is Some;
            let reply = offer(resolved, current);
            proof {
                lemma_kept_step(all, alive, live);
                alive = alive.push(live);
                if live {
                    let one = seq![all[i as int]];
                    lemma_relays_one(one, current, reply);
                    lemma_relays_join(before, one, item, Some(current), reply);
                    assert(before + one == kept(all.take(i + 1), alive));
                }
            }
            match reply {
                Some(next) => {
                    current = next;
                },
                None => {
                    proof {
                        let reached = all.take(i + 1);
                        let rest = all.skip(i + 1);
                        let unseen = Seq::new(rest.len(), |k: int| false);
                        lemma_kept_concat(reached, alive, rest, unseen);
                        lemma_relays_join(
                            kept(reached, alive),
                            kept(rest, unseen),
                            item,
                            None,
                            None,
                        );
                        assert(reached + rest == all);
                        assert((alive + unseen).len() == all.len());
                    }
                    return None;
                },
            }
            i += 1;
        }
        proof {
            assert(all.take(i as int) == all);
        }
        Some(current)
    }
}

} // verus!
