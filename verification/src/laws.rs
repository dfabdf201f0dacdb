//! What holds of every arena, whatever was done to it: proved once, over the
//! model, for all states and all arguments.

use crate::dynvec::Handle;
use crate::model::{
    lemma_clear, lemma_insert, lemma_occupied_below, lemma_put, lemma_remove, lemma_replace,
    lemma_swap, lemma_write, next_generation, ArenaView,
};
use vstd::prelude::*;

verus! {

/// One change to an arena: a call of one of its mutating operations, with
/// its arguments.
pub enum Op<T> {
    /// `insert`: store a new value.
    Insert(T),
    /// A write through `get_mut`: overwrite in place the payload behind a
    /// handle.
    Write(Handle, T),
    /// `replace`: put a new payload behind a handle and invalidate the
    /// handle.
    Replace(Handle, T),
    /// `remove`: take out the payload behind a handle.
    Remove(Handle),
    /// `swap`: exchange the payloads behind two handles.
    Swap(Handle, Handle),
    /// `map_invalidate`: store what the function made of the payload of the
    /// slot that a handle names.
    Put(Handle, Option<T>),
    /// `clear`: vacate every slot.
    Clear,
}

impl<T> Op<T> {
    /// This change is not made through `h`, and does not reach every slot.
    pub open spec fn spares(self, h: Handle) -> bool {
        match self {
            Op::Insert(_) => true,
            Op::Write(g, _) => g != h,
            Op::Replace(g, _) => g != h,
            Op::Remove(g) => g != h,
            Op::Swap(g1, g2) => g1 != h && g2 != h,
            Op::Put(g, _) => g != h,
            Op::Clear => false,
        }
    }
}

impl<T> ArenaView<T> {
    /// The state after one change.
    pub open spec fn apply(self, op: Op<T>) -> Self {
        match op {
            Op::Insert(value) => self.insert(value),
            Op::Write(h, value) => self.write(h, value),
            Op::Replace(h, value) => self.replace(h, value),
            Op::Remove(h) => self.remove(h),
            Op::Swap(a, b) => self.swap(a, b),
            Op::Put(h, out) => self.put(h, out),
            Op::Clear => self.clear(),
        }
    }

    /// The state after a sequence of changes, the first of them first.
    pub open spec fn run(self, ops: Seq<Op<T>>) -> Self
        decreases ops.len(),
    {
        if ops.len() == 0 {
            self
        } else {
            self.run(ops.drop_last()).apply(ops.last())
        }
    }
}

/// Every change keeps the state well formed, provided that an insertion
/// finds room. No change drops a slot, and at most one slot is added.
pub proof fn lemma_apply_wf<T>(a: ArenaView<T>, op: Op<T>)
    requires
        a.wf(),
        op is Insert ==> a.has_room(),
    ensures
        a.apply(op).wf(),
        a.slots.len() <= a.apply(op).slots.len() <= a.slots.len() + 1,
{
    match op {
        Op::Insert(value) => lemma_insert(a, value),
        Op::Write(h, value) => lemma_write(a, h, value),
        Op::Replace(h, value) => lemma_replace(a, h, value),
        Op::Remove(h) => lemma_remove(a, h),
        Op::Swap(x, y) => lemma_swap(a, x, y),
        Op::Put(h, out) => lemma_put(a, h, out),
        Op::Clear => lemma_clear(a),
    }
}

/// How many times a slot at generation `from` has to move on to be at
/// generation `to`.
pub open spec fn generation_steps(from: u32, to: u32) -> int {
    if to >= from {
        to - from
    } else {
        to - from + 0x1_0000_0000
    }
}

/// A generation never goes back: under every change each slot keeps its
/// generation or moves on to the next one.
pub proof fn lemma_generations_advance<T>(a: ArenaView<T>, op: Op<T>, i: int)
    requires
        a.wf(),
        0 <= i < a.slots.len(),
    ensures
        i < a.apply(op).slots.len(),
        a.apply(op).slots[i].generation == a.slots[i].generation || a.apply(op).slots[i].generation
            == next_generation(a.slots[i].generation),
        0 <= generation_steps(a.slots[i].generation, a.apply(op).slots[i].generation) <= 1,
{
}

/// A handle that resolves keeps resolving, to the same payload, under every
/// change that is made through other handles: nothing but the handle itself,
/// or a clearing of the whole arena, reaches its slot.
pub proof fn lemma_spared_handle_unchanged<T>(a: ArenaView<T>, h: Handle, op: Op<T>)
    requires
        a.wf(),
        a.resolves(h),
        op.spares(h),
    ensures
        a.apply(op).resolves(h),
        a.apply(op).lookup(h) == a.lookup(h),
{
}

/// A slot is vacated only together with a move to its next generation: a
/// handle that resolves, and whose slot is at the same generation after a
/// change, resolves after it.
pub proof fn lemma_vacated_only_at_new_generation<T>(a: ArenaView<T>, h: Handle, op: Op<T>)
    requires
        a.wf(),
        a.resolves(h),
        a.apply(op).current(h),
    ensures
        a.apply(op).resolves(h),
{
}

/// Every sequence of changes keeps the state well formed, as long as the
/// slots it may add fit.
pub proof fn lemma_run_wf<T>(a: ArenaView<T>, ops: Seq<Op<T>>)
    requires
        a.wf(),
        a.slots.len() + ops.len() <= usize::MAX,
    ensures
        a.run(ops).wf(),
        a.slots.len() <= a.run(ops).slots.len() <= a.slots.len() + ops.len(),
    decreases ops.len(),
{
    if ops.len() > 0 {
        lemma_run_wf(a, ops.drop_last());
        lemma_apply_wf(a.run(ops.drop_last()), ops.last());
    }
}

/// After any sequence of changes to a new arena, the handle that an
/// insertion gives out resolves to the value inserted.
pub proof fn lemma_inserted_handle_resolves<T>(ops: Seq<Op<T>>, value: T)
    requires
        ops.len() < usize::MAX,
    ensures
        ({
            let before = ArenaView::<T>::empty().run(ops);
            before.insert(value).lookup(before.next_handle()) == Some(value)
        }),
{
    let before = ArenaView::<T>::empty().run(ops);
    lemma_run_wf(ArenaView::<T>::empty(), ops);
    lemma_insert(before, value);
}

/// A handle that resolves keeps resolving, to the same payload, across
/// every sequence of changes none of which is made through it.
pub proof fn lemma_handle_survives<T>(a: ArenaView<T>, h: Handle, ops: Seq<Op<T>>)
    requires
        a.wf(),
        a.slots.len() + ops.len() <= usize::MAX,
        a.resolves(h),
        forall|i: int| 0 <= i < ops.len() ==> (#[trigger] ops[i]).spares(h),
    ensures
        a.run(ops).resolves(h),
        a.run(ops).lookup(h) == a.lookup(h),
    decreases ops.len(),
{
    if ops.len() > 0 {
        let earlier = ops.drop_last();
        lemma_handle_survives(a, h, earlier);
        lemma_run_wf(a, earlier);
        lemma_spared_handle_unchanged(a.run(earlier), h, ops.last());
    }
}

/// Across a sequence of changes a slot moves on at most once for each
/// change.
pub proof fn lemma_run_generations<T>(a: ArenaView<T>, ops: Seq<Op<T>>, i: int)
    requires
        a.wf(),
        a.slots.len() + ops.len() <= usize::MAX,
        0 <= i < a.slots.len(),
    ensures
        i < a.run(ops).slots.len(),
        0 <= generation_steps(a.slots[i].generation, a.run(ops).slots[i].generation) <= ops.len(),
    decreases ops.len(),
{
    if ops.len() > 0 {
        let earlier = ops.drop_last();
        lemma_run_generations(a, earlier, i);
        lemma_run_wf(a, earlier);
        lemma_generations_advance(a.run(earlier), ops.last(), i);
    }
}

/// A stale handle stays stale until its slot has come all the way round:
/// a handle that is `d` generations behind its slot cannot be current again
/// before `2^32 - d` further changes have been made.
pub proof fn lemma_stale_stays_stale<T>(a: ArenaView<T>, h: Handle, ops: Seq<Op<T>>)
    requires
        a.wf(),
        a.slots.len() + ops.len() <= usize::MAX,
        h.idx < a.slots.len(),
        !a.current(h),
        generation_steps(h.generation, a.slots[h.idx as int].generation) + ops.len()
            < 0x1_0000_0000,
    ensures
        !a.run(ops).current(h),
        !a.run(ops).resolves(h),
        a.run(ops).next_handle() != h,
{
    lemma_run_generations(a, ops, h.idx as int);
    lemma_run_wf(a, ops);
}

/// After a removal the handle no longer resolves. Where the handle did
/// resolve, the next insertion reuses its slot, and the handle it gives out
/// is of another generation: the old handle stays dead, the new one resolves
/// to the new value.
pub proof fn lemma_remove_then_insert<T>(a: ArenaView<T>, h: Handle, value: T)
    requires
        a.wf(),
    ensures
        !a.remove(h).resolves(h),
        a.resolves(h) ==> ({
            let removed = a.remove(h);
            let h2 = removed.next_handle();
            &&& h2.idx == h.idx
            &&& h2.generation == next_generation(h.generation)
            &&& h2.generation != h.generation
            &&& !removed.insert(value).resolves(h)
            &&& removed.insert(value).lookup(h2) == Some(value)
        }),
{
}

/// A handle that was removed stays dead across the next `2^32 - 2`
/// changes, whatever they are: it does not resolve, and no insertion gives
/// it out again.
pub proof fn lemma_removed_handle_stays_dead<T>(a: ArenaView<T>, h: Handle, ops: Seq<Op<T>>)
    requires
        a.wf(),
        a.resolves(h),
        a.slots.len() + ops.len() <= usize::MAX,
        ops.len() <= 0xFFFF_FFFE,
    ensures
        !a.remove(h).run(ops).resolves(h),
        a.remove(h).run(ops).next_handle() != h,
{
    lemma_remove(a, h);
    lemma_stale_stays_stale(a.remove(h), h, ops);
}

/// Replacing through a handle that resolves gives a handle of the next
/// generation for the same slot: the old handle no longer resolves, the new
/// one resolves to the new value.
pub proof fn lemma_replace_invalidates<T>(a: ArenaView<T>, h: Handle, value: T)
    requires
        a.resolves(h),
    ensures
        ({
            let h2 = Handle { idx: h.idx, generation: next_generation(h.generation) };
            &&& h2.generation != h.generation
            &&& !a.replace(h, value).resolves(h)
            &&& a.replace(h, value).lookup(h2) == Some(value)
        }),
{
}

/// Overwriting a payload in place changes no generation and leaves the free
/// list alone: every handle resolves after it exactly if it did before.
pub proof fn lemma_write_keeps_handles<T>(a: ArenaView<T>, h: Handle, value: T)
    requires
        a.resolves(h),
    ensures
        a.write(h, value).lookup(h) == Some(value),
        a.write(h, value).free == a.free,
        a.write(h, value).slots.len() == a.slots.len(),
        forall|i: int|
            0 <= i < a.slots.len() ==> (#[trigger] a.write(h, value).slots[i]).generation
                == a.slots[i].generation,
        forall|g: Handle| a.write(h, value).resolves(g) == a.resolves(g),
        forall|g: Handle| g != h ==> a.write(h, value).lookup(g) == a.lookup(g),
{
}

/// Exchanging through two handles that resolve changes no generation and
/// vacates no slot: each of the two resolves to what the other resolved to,
/// and every handle resolves after it exactly if it did before, a handle to
/// any other slot to the same payload.
pub proof fn lemma_swap_exchanges<T>(s: ArenaView<T>, a: Handle, b: Handle)
    requires
        s.resolves(a),
        s.resolves(b),
    ensures
        s.swap(a, b).resolves(a),
        s.swap(a, b).resolves(b),
        s.swap(a, b).lookup(a) == s.lookup(b),
        s.swap(a, b).lookup(b) == s.lookup(a),
        s.swap(a, b).free == s.free,
        s.swap(a, b).slots.len() == s.slots.len(),
        forall|i: int|
            0 <= i < s.slots.len() ==> (#[trigger] s.swap(a, b).slots[i]).generation
                == s.slots[i].generation,
        forall|g: Handle| s.swap(a, b).resolves(g) == s.resolves(g),
        forall|g: Handle|
            g.idx != a.idx && g.idx != b.idx ==> s.swap(a, b).lookup(g) == s.lookup(g),
{
}

/// Clearing leaves no handle that resolves, keeps the number of slots, and
/// changes nothing when done again.
pub proof fn lemma_clear_invalidates_all<T>(a: ArenaView<T>)
    requires
        a.wf(),
    ensures
        forall|h: Handle| !a.clear().resolves(h),
        a.clear().slots.len() == a.slots.len(),
        a.clear().clear() == a.clear(),
{
    lemma_clear(a);
    let once = a.clear();
    let left = once.occupied_below(once.slots.len());
    lemma_occupied_below(once, once.slots.len());
    assert(left.len() == 0) by {
        if left.len() > 0 {
            assert(once.slots[left[0] as int].val is Some);
        }
    }
}

} // verus!
