//! A single slot under the same generation protocol as the arena: one
//! payload, always present, whose every replacement invalidates the handles
//! issued before it.

use crate::model::next_generation;
use vstd::prelude::*;

verus! {

/// A handle that stays valid until the variant's generation changes.
#[derive(Clone, Copy, Debug, PartialEq, Eq, Hash, Structural)]
pub struct Handle {
    pub generation: u32,
}

/// The payload of a [`GenVariant`]: one of three shapes.
#[derive(Debug)]
pub enum MyVariant {
    Int(i32),
    Text(String),
    Bool(bool),
}

/// One payload and the generation it was stored at.
#[derive(Debug)]
pub struct GenVariant {
    inner: MyVariant,
    generation: u32,
}

impl GenVariant {
    /// The payload held now.
    pub closed spec fn payload(&self) -> MyVariant {
        self.inner
    }

    /// The present generation: the number of replacements so far, modulo
    /// `2^32`.
    pub closed spec fn generation(&self) -> u32 {
        self.generation
    }

    /// A lookup through `h` succeeds: `h` was issued at the present
    /// generation.
    pub open spec fn resolves(&self, h: Handle) -> bool {
        h.generation == self.generation()
    }

    /// A slot that holds `inner` at generation zero.
    pub fn new(inner: MyVariant) -> (r: Self)
        ensures
            r.payload() == inner,
            r.generation() == 0,
    {
        Self { inner, generation: 0 }
    }

    /// A handle to the present contents.
    pub fn handle(&self) -> (h: Handle)
        ensures
            h.generation == self.generation(),
            self.resolves(h),
    {
        Handle { generation: self.generation }
    }

    /// The payload, if `h` was issued at the present generation.
    pub fn get(&self, h: Handle) -> (r: Option<&MyVariant>)
        ensures
            r is Some <==> self.resolves(h),
            r matches Some(v) ==> *v == self.payload(),
    {
        if h.generation == self.generation {
            Some(&self.inner)
        } else {
            None
        }
    }

    /// Replaces the payload and moves on to the next generation. No handle
    /// issued before the call resolves after it.
    pub fn set(&mut self, new_inner: MyVariant)
        ensures
            final(self).payload() == new_inner,
            final(self).generation() == next_generation(old(self).generation()),
            forall|h: Handle| old(self).resolves(h) ==> !final(self).resolves(h),
    {
        self.inner = new_inner;
        self.generation = self.generation.wrapping_add(1);
    }
}

} // verus!
