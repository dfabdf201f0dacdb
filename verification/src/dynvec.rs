//! The arena: a pool of reusable slots, each with a generation counter, and
//! handles that are valid only for the generation they were issued at.

use crate::model::{
    lemma_clear, lemma_clear_below, lemma_insert, lemma_occupied_step, lemma_put, lemma_remove,
    lemma_write, next_generation, ArenaView,
};
use vstd::prelude::*;

verus! {

/// A capability to attempt access to one slot of a [`DynVec`]: the slot's
/// index and the generation the handle was issued at. It owns nothing, and
/// it is dead for good once the slot has moved on to another generation.
#[derive(Clone, Copy, Debug, PartialEq, Eq, Hash, Structural)]
pub struct Handle {
    pub idx: usize,
    pub generation: u32,
}

/// One storage cell: its present generation and its payload. A slot
/// without a payload is vacant and waits for reuse.
#[derive(Debug)]
pub struct Slot<T> {
    pub generation: u32,
    pub val: Option<T>,
}

/// A vector of elements behind generational handles.
///
/// `free` lists the vacant slots: each vacant slot once, and no other. The
/// last index listed is reused first. Every value of this type keeps that
/// agreement between vacancy and the free list, so no operation has a
/// precondition on the arena.
#[derive(Debug)]
pub struct DynVec<T> {
    slots: Vec<Slot<T>>,
    free: Vec<usize>,
}

impl<T> View for DynVec<T> {
    type V = ArenaView<T>;

    closed spec fn view(&self) -> ArenaView<T> {
        ArenaView { slots: self.slots@, free: self.free@ }
    }
}

impl<T> Default for DynVec<T> {
    /// An arena without slots.
    fn default() -> (r: Self)
        ensures
            r@ == ArenaView::<T>::empty(),
            r@.wf(),
    {
        Self { slots: Vec::new(), free: Vec::new() }
    }
}

impl<T> DynVec<T> {
    /// Holds of every arena at all times.
    #[verifier::type_invariant]
    spec fn inv(self) -> bool {
        self@.wf()
    }

    /// An arena without slots.
    pub fn new() -> (r: Self)
        ensures
            r@ == ArenaView::<T>::empty(),
            r@.wf(),
    {
        Self::default()
    }

    /// The number of slots, vacant ones included.
    pub fn len(&self) -> (n: usize)
        ensures
            n == self@.slots.len(),
    {
        self.slots.len()
    }

    /// The payload behind `h`, if `h` names an occupied slot at its present
    /// generation. A stale handle yields `None`.
    pub fn get(&self, h: Handle) -> (r: Option<&T>)
        ensures
            r is Some <==> self@.resolves(h),
            r matches Some(v) ==> self@.lookup(h) == Some(*v),
    {
        if h.idx >= self.slots.len() {
            return None;
        }
        let slot = &self.slots[h.idx];
        if slot.generation != h.generation {
            return None;
        }
        slot.val.as_ref()
    }

    /// The payload behind `h`, for mutation in place, under the same test as
    /// [`DynVec::get`]. Whatever is written through the reference, the slot
    /// keeps its generation: `h` and every other handle resolve afterwards
    /// exactly if they did before.
    pub fn get_mut(&mut self, h: Handle) -> (r: Option<&mut T>)
        ensures
            r is Some <==> old(self)@.resolves(h),
            r matches Some(p) ==> ({
                &&& old(self)@.lookup(h) == Some(*p)
                &&& final(self)@ == old(self)@.write(h, *final(p))
            }),
            r is None ==> final(self)@ == old(self)@,
            final(self)@.wf(),
            r is Some ==> final(self)@.resolves(h),
    {
        proof {
            use_type_invariant(&*self);
            assert forall|v: T| (#[trigger] self@.write(h, v)).wf() by {
                lemma_write(self@, h, v);
            }
        }
        payload_mut(&mut self.slots, h)
    }

    /// Stores `value` and gives out the handle to it. The slot vacated last
    /// is reused, at the generation its vacating left it with; where no slot
    /// is vacant, a new one is added at generation zero.
    pub fn insert(&mut self, value: T) -> (h: Handle)
        ensures
            h == old(self)@.next_handle(),
            final(self)@ == old(self)@.insert(value),
            final(self)@.wf(),
            final(self)@.lookup(h) == Some(value),
    {
        proof {
            use_type_invariant(&*self);
        }
        let (mut slots, mut free) = self.take_parts();
        let h = match free.pop() {
            Some(idx) => {
                let generation = slots[idx].generation;
                slots[idx].val = Some(value);
                Handle { idx, generation }
            },
            None => {
                let idx = slots.len();
                slots.push(Slot { generation: 0, val: Some(value) });
                Handle { idx, generation: 0 }
            },
        };
        proof {
            assert(slots.len() == slots@.len());
            lemma_insert(old(self)@, value);
        }
        *self = DynVec { slots, free };
        h
    }

    /// Puts `value` in the place of the payload behind `h` and moves the slot
    /// on to its next generation. On success the handle returned is the only
    /// one that resolves to the slot: `h` is stale. Fails, and changes
    /// nothing, unless `h` resolves.
    pub fn replace(&mut self, h: Handle, value: T) -> (r: Result<Handle, ()>)
        ensures
            r is Ok <==> old(self)@.resolves(h),
            r matches Ok(h2) ==> h2 == (Handle {
                idx: h.idx,
                generation: next_generation(h.generation),
            }),
            final(self)@ == old(self)@.replace(h, value),
            final(self)@.wf(),
            r matches Ok(h2) ==> ({
                &&& h2.generation != h.generation
                &&& !final(self)@.resolves(h)
                &&& final(self)@.lookup(h2) == Some(value)
            }),
    {
        proof {
            use_type_invariant(&*self);
        }
        if !self.resolves(h) {
            return Err(());
        }
        let (mut slots, free) = self.take_parts();
        let generation = slots[h.idx].generation.wrapping_add(1);
        slots[h.idx].generation = generation;
        let _replaced = slots[h.idx].val.take();
        slots[h.idx].val = Some(value);
        *self = DynVec { slots, free };
        // `_replaced` is dropped on return, when the arena is whole again.
        Ok(Handle { idx: h.idx, generation })
    }

    /// Takes out the payload behind `h` and moves the slot on to its next
    /// generation. The slot is vacant afterwards and the next to be reused.
    /// Yields `None`, and changes nothing, unless `h` resolves.
    pub fn remove(&mut self, h: Handle) -> (r: Option<T>)
        ensures
            r == old(self)@.lookup(h),
            final(self)@ == old(self)@.remove(h),
            final(self)@.wf(),
            !final(self)@.resolves(h),
    {
        proof {
            use_type_invariant(&*self);
            lemma_remove(self@, h);
        }
        if !self.resolves(h) {
            return None;
        }
        let (mut slots, mut free) = self.take_parts();
        let removed = slots[h.idx].val.take();
        slots[h.idx].generation = slots[h.idx].generation.wrapping_add(1);
        free.push(h.idx);
        proof {
            assert(slots@ =~= old(self)@.remove(h).slots);
        }
        *self = DynVec { slots, free };
        removed
    }

    /// Vacates every occupied slot and moves it on to its next generation,
    /// so that no handle issued before resolves. Vacant slots stay as they
    /// are, and the number of slots does not change.
    ///
    /// Each payload is dropped once its slot is vacated and listed as free.
    /// Should a drop panic, the slots up to that payload's own are cleared
    /// and the others are as they were.
    pub fn clear(&mut self)
        ensures
            final(self)@ == old(self)@.clear(),
            final(self)@.wf(),
            final(self)@.slots.len() == old(self)@.slots.len(),
            forall|h: Handle| !final(self)@.resolves(h),
    {
        let ghost before = self@;
        proof {
            use_type_invariant(&*self);
            lemma_clear(before);
        }
        let n = self.slots.len();
        let mut i: usize = 0;
        while i < n
            invariant
                i <= n,
                n == before.slots.len(),
                before.wf(),
                self@ == before.clear_below(i as nat),
            decreases n - i,
        {
            proof {
                lemma_occupied_step(before, i as nat);
                lemma_clear_below(before, (i + 1) as nat);
            }
            if self.slots[i].val.is_some() {
                let (mut slots, mut free) = self.take_parts();
                let _vacated = slots[i].val.take();
                slots[i].generation = slots[i].generation.wrapping_add(1);
                free.push(i);
                proof {
                    assert(slots@ =~= before.clear_below((i + 1) as nat).slots);
                }
                *self = DynVec { slots, free };
                // `_vacated` is dropped here, when the arena is whole again.
            }
            i += 1;
        }
    }

    /// Exchanges the payloads behind `a` and `b`. No generation changes and
    /// no slot is vacated: both handles go on resolving, each to what the
    /// other resolved to, and every other handle resolves as before. Fails,
    /// and changes nothing, unless both handles resolve.
    pub fn swap(&mut self, a: Handle, b: Handle) -> (r: Result<(), ()>)
        ensures
            r is Ok <==> old(self)@.resolves(a) && old(self)@.resolves(b),
            r is Err ==> final(self)@ == old(self)@,
            final(self)@ == old(self)@.swap(a, b),
            final(self)@.wf(),
            r is Ok ==> ({
                &&& final(self)@.free == old(self)@.free
                &&& final(self)@.resolves(a)
                &&& final(self)@.resolves(b)
                &&& final(self)@.lookup(a) == old(self)@.lookup(b)
                &&& final(self)@.lookup(b) == old(self)@.lookup(a)
            }),
    {
        proof {
            use_type_invariant(&*self);
        }
        if !self.resolves(a) || !self.resolves(b) {
            return Err(());
        }
        if a.idx == b.idx {
            return Ok(());
        }
        let (mut slots, free) = self.take_parts();
        let va = slots[a.idx].val.take();
        let vb = slots[b.idx].val.take();
        slots[a.idx].val = vb;
        slots[b.idx].val = va;
        *self = DynVec { slots, free };
        Ok(())
    }

    /// Hands the payload of the slot that `h` names to `f`, stores what `f`
    /// returns, and moves the slot on to its next generation: whatever `f`
    /// did, every handle issued before is stale. A vacant slot hands `None`
    /// to `f`; a slot left vacant waits for reuse. Fails, and changes
    /// nothing, unless `h` names a slot at its present generation.
    ///
    /// While `f` runs the slot is vacant at its next generation and listed
    /// as free, and so it stays should `f` panic.
    pub fn map_invalidate<F>(&mut self, h: Handle, f: F) -> (r: Result<(), ()>) where
        F: FnOnce(Option<T>) -> Option<T>,

        requires
            old(self)@.current(h) ==> f.requires((old(self)@.slots[h.idx as int].val,)),
        ensures
            r is Ok <==> old(self)@.current(h),
            r is Ok ==> ({
                let out = final(self)@.slots[h.idx as int].val;
                &&& f.ensures((old(self)@.slots[h.idx as int].val,), out)
                &&& final(self)@ == old(self)@.put(h, out)
            }),
            r is Err ==> final(self)@ == old(self)@,
            final(self)@.wf(),
    {
        proof {
            use_type_invariant(&*self);
        }
        if !self.is_current(h) {
            return Err(());
        }
        let (mut slots, mut free) = self.take_parts();
        let was = slots[h.idx].val.take();
        let was_full = was.is_some();
        slots[h.idx].generation = slots[h.idx].generation.wrapping_add(1);
        if was_full {
            free.push(h.idx);
        }
        proof {
            lemma_put(old(self)@, h, None);
            assert(slots@ =~= old(self)@.put(h, None).slots);
        }
        *self = DynVec { slots, free };
        let out = f(was);
        if out.is_some() {
            let (mut slots, mut free) = self.take_parts();
            slots[h.idx].val = out;
            if was_full {
                free.pop();
            } else {
                forget(&mut free, h.idx);
            }
            proof {
                lemma_put(old(self)@, h, out);
                assert(slots@ =~= old(self)@.put(h, out).slots);
                assert(free@ =~= old(self)@.put(h, out).free);
            }
            *self = DynVec { slots, free };
        }
        Ok(())
    }

    /// Whether `h` names a slot at its present generation.
    fn is_current(&self, h: Handle) -> (b: bool)
        ensures
            b == self@.current(h),
    {
        h.idx < self.slots.len() && self.slots[h.idx].generation == h.generation
    }

    /// Whether a lookup through `h` would succeed.
    fn resolves(&self, h: Handle) -> (b: bool)
        ensures
            b == self@.resolves(h),
    {
        h.idx < self.slots.len() && self.slots[h.idx].generation == h.generation
            && self.slots[h.idx].val.is_some()
    }

    /// Moves the storage out and leaves an empty arena behind, so that the
    /// caller can rebuild the arena from the parts it has changed. Between
    /// the two, nothing of the payload type runs: no function handed in, and
    /// no drop of a payload. A panic in such code finds the arena whole.
    fn take_parts(&mut self) -> (parts: (Vec<Slot<T>>, Vec<usize>))
        ensures
            parts.0@ == old(self)@.slots,
            parts.1@ == old(self)@.free,
            final(self)@ == ArenaView::<T>::empty(),
    {
        let mut taken = DynVec { slots: Vec::new(), free: Vec::new() };
        core::mem::swap(self, &mut taken);
        let DynVec { slots, free } = taken;
        (slots, free)
    }
}

/// Takes the first `idx` out of `free`, if there is one.
fn forget(free: &mut Vec<usize>, idx: usize)
    ensures
        final(free)@ == old(free)@.remove_value(idx),
{
    let mut k: usize = 0;
    while k < free.len()
        invariant
            k <= free.len(),
            free@ == old(free)@,
            forall|j: int| 0 <= j < k ==> free@[j] != idx,
        decreases free.len() - k,
    {
        if free[k] == idx {
            proof {
                free@.index_of_first_ensures(idx);
            }
            free.remove(k);
            return ;
        }
        k += 1;
    }
    proof {
        free@.index_of_first_ensures(idx);
    }
}

/// The payload of the occupied slot that `h` names at its present
/// generation, borrowed out of `slots`. The slot stays occupied and keeps
/// its generation.
fn payload_mut<T>(slots: &mut Vec<Slot<T>>, h: Handle) -> (r: Option<&mut T>)
    ensures
        r is Some <==> ({
            &&& h.idx < old(slots)@.len()
            &&& old(slots)@[h.idx as int].generation == h.generation
            &&& old(slots)@[h.idx as int].val is Some
        }),
        r matches Some(p) ==> ({
            &&& old(slots)@[h.idx as int].val == Some(*p)
            &&& final(slots)@ == old(slots)@.update(
                h.idx as int,
                Slot { generation: h.generation, val: Some(*final(p)) },
            )
        }),
        r is None ==> final(slots)@ == old(slots)@,
    no_unwind
{
    if h.idx >= slots.len() {
        return None;
    }
    if slots[h.idx].generation != h.generation {
        return None;
    }
    match &mut slots[h.idx].val {
        Some(p) => Some(p),
        None => None,
    }
}

} // verus!
