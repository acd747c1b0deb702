//! Closures as listeners.

use crate::observer::Observer;
use std::marker::PhantomData;
use std::rc::Rc;
use vstd::prelude::*;

verus! {

/// A listener made of a function value: it answers an item with what the
/// function returns for it.
#[verifier::reject_recursive_types(T)]
pub struct FnObserver<T, F: Fn(T) -> Option<T>> {
    respond: F,
    item: PhantomData<T>,
}

impl<T, F: Fn(T) -> Option<T>> FnObserver<T, F> {
    /// The function that answers for this listener.
    pub closed spec fn function(&self) -> F {
        self.respond
    }

    /// The function accepts every item.
    #[verifier::type_invariant]
    spec fn total(&self) -> bool {
        forall|item: T| call_requires(self.respond, (item,))
    }
}

impl<T, F: Fn(T) -> Option<T>> Observer for FnObserver<T, F> {
    type Item = T;

    fn handle(&self, item: T) -> (out: Option<T>)
        ensures
            call_ensures(self.function(), (item,), out),
    {
        proof {
            use_type_invariant(self);
        }
        (self.respond)(item)
    }
}

/// Wraps `f` as a listener, ready to be registered.
pub fn box_obs<T, F>(f: F) -> (listener: Rc<FnObserver<T, F>>) where
    F: Fn(T) -> Option<T> + 'static,
    requires
        forall|item: T| call_requires(f, (item,)),
    ensures
        listener.function() == f,
{
    Rc::new(FnObserver { respond: f, item: PhantomData })
}

} // verus!
