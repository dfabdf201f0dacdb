//! A short-lived, checked reference to one element of an arena.

use crate::dynvec::{DynVec, Handle};
use core::ops::Deref;
use vstd::prelude::*;

verus! {

/// A view of one live element of an arena: a shared borrow of the arena and
/// a handle that resolves in it.
///
/// The borrow keeps the arena from changing for as long as the view lives,
/// so a view that exists can always be dereferenced. A view is to be had
/// only from [`Elem::new`], which refuses a stale handle; every dereference
/// looks the handle up again.
pub struct Elem<'a, T> {
    parent: &'a DynVec<T>,
    handle: Handle,
}

impl<'a, T> Elem<'a, T> {
    /// Holds of every view at all times: the handle resolves.
    #[verifier::type_invariant]
    spec fn live(self) -> bool {
        self.parent@.resolves(self.handle)
    }

    /// The arena that this view looks into.
    pub closed spec fn arena(self) -> DynVec<T> {
        *self.parent
    }

    /// The handle that this view looks up.
    pub closed spec fn target(self) -> Handle {
        self.handle
    }

    /// A view of the element behind `handle`, or `None` if the handle does
    /// not resolve in `parent`.
    pub fn new(parent: &'a DynVec<T>, handle: Handle) -> (r: Option<Self>)
        ensures
            r is Some <==> parent@.resolves(handle),
            r matches Some(e) ==> e.arena() == *parent && e.target() == handle,
    {
        match parent.get(handle) {
            Some(_) => Some(Elem { parent, handle }),
            None => None,
        }
    }

    /// The arena that this view looks into.
    pub fn parent(&self) -> (r: &'a DynVec<T>)
        ensures
            *r == self.arena(),
            r@.resolves(self.target()),
    {
        proof {
            use_type_invariant(self);
        }
        self.parent
    }

    /// The handle that this view looks up.
    pub fn handle(&self) -> (r: Handle)
        ensures
            r == self.target(),
            self.arena()@.resolves(r),
    {
        proof {
            use_type_invariant(self);
        }
        self.handle
    }
}

impl<'a, T> Deref for Elem<'a, T> {
    type Target = T;

    /// The element, looked up anew.
    fn deref(&self) -> (r: &T)
        ensures
            self.arena()@.lookup(self.target()) == Some(*r),
    {
        proof {
            use_type_invariant(self);
        }
        self.parent.get(self.handle).expect("use-after-invalidate: element no longer valid")
    }
}

} // verus!
