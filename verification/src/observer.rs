//! The listener capability.

use vstd::prelude::*;

verus! {

/// A listener for items of type `Item`.
///
/// `handle` looks at an item and either hands an item back, possibly a
/// different one, to let it travel on, or returns `None` to consume it.
/// A listener may keep state of its own behind the shared reference.
pub trait Observer {
    type Item;

    fn handle(&self, item: Self::Item) -> (out: Option<Self::Item>);
}

/// Whether `listener` can answer `item` with `out`, as far as the contract
/// of its `handle` tells.
pub open spec fn may_reply<T, L: Observer<Item = T> + ?Sized>(
    listener: &L,
    item: T,
    out: Option<T>,
) -> bool {
    call_ensures(L::handle, (listener, item), out)
}

} // verus!
