//! A non-owning handle to a reference-counted value.

use std::rc::Rc;
use std::rc::Weak;
use vstd::prelude::*;

verus! {

/// The pointer inside a handle: a `std::rc::Weak`, opaque to the verifier.
#[verifier::external_body]
#[verifier::reject_recursive_types(T)]
struct RawWeak<T: ?Sized> {
    inner: Weak<T>,
}

/// `Rc::downgrade`: a new weak pointer to the allocation of `strong`.
/// Nothing is stated of the pointer here; `made_from` is the name for
/// what a call of this function has returned.
#[verifier::external_body]
fn raw_downgrade<T: ?Sized>(strong: &Rc<T>) -> (ptr: RawWeak<T>) {
    RawWeak { inner: Rc::downgrade(strong) }
}

/// Whether `ptr` is a weak pointer that downgrading `strong` has returned.
spec fn made_from<T: ?Sized>(ptr: RawWeak<T>, strong: Rc<T>) -> bool {
    call_ensures(raw_downgrade::<T>, (&strong,), ptr)
}

/// `Weak::upgrade`: a strong pointer to the allocation that the weak pointer
/// was made from, or `None` once the value in it has been dropped. Which of
/// the two comes back is not stated. When it is a strong pointer, it equals
/// every strong pointer that `ptr` was made from by downgrading.
#[verifier::external_body]
fn raw_upgrade<T: ?Sized>(ptr: &RawWeak<T>) -> (out: Option<Rc<T>>)
    ensures
        forall|origin: Rc<T>| #[trigger]
            made_from(*ptr, origin) ==> (out matches Some(strong) ==> strong == origin),
{
    ptr.inner.upgrade()
}

/// A non-owning handle to a value that some `Rc` owns elsewhere.
///
/// The handle never keeps its target alive. Its model is the target it was
/// made from; whether that target is still alive is not part of the model,
/// since it changes whenever an owner elsewhere lets go.
#[verifier::reject_recursive_types(T)]
pub struct WeakRef<T: ?Sized> {
    ptr: RawWeak<T>,
    target: Ghost<Rc<T>>,
}

impl<T: ?Sized> WeakRef<T> {
    /// The pointer was made from the target.
    #[verifier::type_invariant]
    spec fn linked(&self) -> bool {
        made_from(self.ptr, self.target@)
    }

    /// The value that this handle refers to.
    pub closed spec fn target(&self) -> Rc<T> {
        self.target@
    }

    /// Makes a handle to the value that `strong` owns, without sharing in
    /// the ownership.
    pub fn downgrade(strong: &Rc<T>) -> (handle: Self)
        ensures
            handle.target() == *strong,
    {
        WeakRef { ptr: raw_downgrade(strong), target: Ghost(*strong) }
    }

    /// Resolves the handle to a temporary strong pointer to its target, or
    /// to `None` when every owner of the target has let go of it.
    ///
    /// Whether an owner is left is settled elsewhere and can change between
    /// two calls, so the contract does not say when a pointer comes back. It
    /// says which one: the target, and no other value.
    pub fn upgrade(&self) -> (out: Option<Rc<T>>)
        ensures
            out matches Some(strong) ==> strong == self.target(),
    {
        proof {
            use_type_invariant(self);
        }
        raw_upgrade(&self.ptr)
    }
}

} // verus!
