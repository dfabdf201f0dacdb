//! The mathematical model of an arena: what its slots hold and which of them
//! are waiting for reuse, with every operation as a function on that state.

use crate::dynvec::{Handle, Slot};
use vstd::prelude::*;

verus! {

/// The generation that follows `g`: one more, wrapping to zero after
/// `u32::MAX`.
///
/// A slot that is invalidated `2^32` times comes back to a generation it
/// had before, so a handle kept across that many invalidations of one slot
/// can match again. This bound is accepted, not guarded against.
pub open spec fn next_generation(g: u32) -> u32 {
    if g == u32::MAX {
        0
    } else {
        (g + 1) as u32
    }
}

/// The abstract state of an arena.
#[verifier::ext_equal]
pub struct ArenaView<T> {
    /// Every slot ever created, by position. Slots are never dropped.
    pub slots: Seq<Slot<T>>,
    /// The indices of the vacant slots. The last one is reused first.
    pub free: Seq<usize>,
}

impl<T> ArenaView<T> {
    /// The state of a new arena: no slots.
    pub open spec fn empty() -> Self {
        ArenaView { slots: Seq::empty(), free: Seq::empty() }
    }

    /// Vacancy and the free list agree: the free list names each vacant slot
    /// exactly once, and nothing else. Every slot has an index that fits a
    /// handle.
    pub open spec fn wf(self) -> bool {
        &&& self.slots.len() <= usize::MAX
        &&& self.free.no_duplicates()
        &&& forall|k: int|
            0 <= k < self.free.len() ==> (#[trigger] self.free[k]) < self.slots.len()
                && self.slots[self.free[k] as int].val is None
        &&& forall|i: int|
            0 <= i < self.slots.len() && (#[trigger] self.slots[i]).val is None
                ==> self.free.contains(i as usize)
    }

    /// `h` names an existing slot at that slot's present generation.
    pub open spec fn current(self, h: Handle) -> bool {
        &&& h.idx < self.slots.len()
        &&& self.slots[h.idx as int].generation == h.generation
    }

    /// `h` is current and its slot is occupied: a lookup through `h`
    /// succeeds.
    pub open spec fn resolves(self, h: Handle) -> bool {
        &&& self.current(h)
        &&& self.slots[h.idx as int].val is Some
    }

    /// What a lookup through `h` yields.
    pub open spec fn lookup(self, h: Handle) -> Option<T> {
        if self.resolves(h) {
            self.slots[h.idx as int].val
        } else {
            None
        }
    }

    /// The handle that the next insertion hands out: the vacant slot freed
    /// last, at the generation its removal left it with, or else a new slot
    /// at generation zero.
    pub open spec fn next_handle(self) -> Handle {
        if self.free.len() > 0 {
            Handle {
                idx: self.free.last(),
                generation: self.slots[self.free.last() as int].generation,
            }
        } else {
            Handle { idx: self.slots.len() as usize, generation: 0 }
        }
    }

    /// An insertion finds a slot whose index fits a handle. Only an arena
    /// with `usize::MAX` slots, all of them occupied, has no room.
    pub open spec fn has_room(self) -> bool {
        self.free.len() > 0 || self.slots.len() < usize::MAX
    }

    /// The state after inserting `value`.
    pub open spec fn insert(self, value: T) -> Self {
        let h = self.next_handle();
        let slot = Slot { generation: h.generation, val: Some(value) };
        if self.free.len() > 0 {
            ArenaView { slots: self.slots.update(h.idx as int, slot), free: self.free.drop_last() }
        } else {
            ArenaView { slots: self.slots.push(slot), free: self.free }
        }
    }

    /// The state after overwriting in place the payload that `h` resolves
    /// to. Nothing changes where `h` does not resolve.
    pub open spec fn write(self, h: Handle, value: T) -> Self {
        if self.resolves(h) {
            ArenaView {
                slots: self.slots.update(
                    h.idx as int,
                    Slot { generation: h.generation, val: Some(value) },
                ),
                free: self.free,
            }
        } else {
            self
        }
    }

    /// The state after replacing the payload behind `h`: the slot moves on
    /// to its next generation and takes `value`. Nothing changes where `h`
    /// does not resolve.
    pub open spec fn replace(self, h: Handle, value: T) -> Self {
        if self.resolves(h) {
            ArenaView {
                slots: self.slots.update(
                    h.idx as int,
                    Slot { generation: next_generation(h.generation), val: Some(value) },
                ),
                free: self.free,
            }
        } else {
            self
        }
    }

    /// The state after removing the payload behind `h`: the slot moves on to
    /// its next generation, is vacant, and is the next to be reused.
    /// Nothing changes where `h` does not resolve.
    pub open spec fn remove(self, h: Handle) -> Self {
        if self.resolves(h) {
            ArenaView {
                slots: self.slots.update(
                    h.idx as int,
                    Slot { generation: next_generation(h.generation), val: None },
                ),
                free: self.free.push(h.idx),
            }
        } else {
            self
        }
    }

    /// The indices below `n` of the occupied slots, in increasing order.
    pub open spec fn occupied_below(self, n: nat) -> Seq<usize> {
        Seq::new(n, |i: int| i as usize).filter(|i: usize| self.slots[i as int].val is Some)
    }

    /// The state when a clearing has gone through the slots below `n`: those
    /// are vacated, the others are as they were.
    pub open spec fn clear_below(self, n: nat) -> Self {
        ArenaView {
            slots: Seq::new(
                self.slots.len(),
                |i: int|
                    if i < n {
                        self.slots[i].vacated()
                    } else {
                        self.slots[i]
                    },
            ),
            free: self.free + self.occupied_below(n),
        }
    }

    /// The state after clearing: every occupied slot moves on to its next
    /// generation and is vacant; the vacant slots stay as they are. The
    /// slots vacated join the free list in increasing order, so that the
    /// highest of them is reused first.
    pub open spec fn clear(self) -> Self {
        ArenaView {
            slots: self.slots.map_values(|s: Slot<T>| s.vacated()),
            free: self.free + self.occupied_below(self.slots.len()),
        }
    }

    /// The state after exchanging the payloads behind `a` and `b`. Both
    /// slots stay occupied and keep their generations, and the free list is
    /// left alone. Nothing changes unless both handles resolve.
    pub open spec fn swap(self, a: Handle, b: Handle) -> Self {
        if self.resolves(a) && self.resolves(b) {
            ArenaView {
                slots: self.slots.update(
                    a.idx as int,
                    Slot { generation: a.generation, val: self.slots[b.idx as int].val },
                ).update(
                    b.idx as int,
                    Slot { generation: b.generation, val: self.slots[a.idx as int].val },
                ),
                free: self.free,
            }
        } else {
            self
        }
    }

    /// The state after the payload of the slot that `h` names, occupied or
    /// vacant, has been turned into `out`: the slot moves on to its next
    /// generation and holds `out`. A slot that became vacant is the next to
    /// be reused; a slot that became occupied leaves the free list. Nothing
    /// changes unless `h` is current.
    pub open spec fn put(self, h: Handle, out: Option<T>) -> Self {
        if self.current(h) {
            let was = self.slots[h.idx as int].val;
            ArenaView {
                slots: self.slots.update(
                    h.idx as int,
                    Slot { generation: next_generation(h.generation), val: out },
                ),
                free: if was is Some && out is None {
                    self.free.push(h.idx)
                } else if was is None && out is Some {
                    self.free.remove_value(h.idx)
                } else {
                    self.free
                },
            }
        } else {
            self
        }
    }
}

impl<T> Slot<T> {
    /// This slot once vacated: an occupied slot loses its payload and moves
    /// on to its next generation, a vacant slot is unchanged.
    pub open spec fn vacated(self) -> Self {
        if self.val is Some {
            Slot { generation: next_generation(self.generation), val: None }
        } else {
            self
        }
    }
}

/// Inserting keeps the state well formed, and the handle given out resolves
/// to the inserted value.
pub proof fn lemma_insert<T>(a: ArenaView<T>, value: T)
    requires
        a.wf(),
        a.has_room(),
    ensures
        a.insert(value).wf(),
        a.insert(value).lookup(a.next_handle()) == Some(value),
{
    let b = a.insert(value);
    if a.free.len() > 0 {
        assert forall|i: int|
            0 <= i < b.slots.len() && (#[trigger] b.slots[i]).val is None implies b.free.contains(
            i as usize,
        ) by {
            let k = a.free.index_of(i as usize);
            assert(b.free[k] == i as usize);
        }
    }
}

/// Overwriting a payload in place keeps the state well formed.
pub proof fn lemma_write<T>(a: ArenaView<T>, h: Handle, value: T)
    requires
        a.wf(),
    ensures
        a.write(h, value).wf(),
{
}

/// Replacing keeps the state well formed.
pub proof fn lemma_replace<T>(a: ArenaView<T>, h: Handle, value: T)
    requires
        a.wf(),
    ensures
        a.replace(h, value).wf(),
{
}

/// Removing keeps the state well formed.
pub proof fn lemma_remove<T>(a: ArenaView<T>, h: Handle)
    requires
        a.wf(),
    ensures
        a.remove(h).wf(),
{
    let b = a.remove(h);
    if a.resolves(h) {
        assert forall|i: int|
            0 <= i < b.slots.len() && (#[trigger] b.slots[i]).val is None implies b.free.contains(
            i as usize,
        ) by {
            let k = if i == h.idx {
                a.free.len() as int
            } else {
                a.free.index_of(i as usize)
            };
            assert(b.free[k] == i as usize);
        }
    }
}

/// Looking one slot further finds one more occupied index, or none.
pub proof fn lemma_occupied_step<T>(a: ArenaView<T>, n: nat)
    requires
        n < a.slots.len() <= usize::MAX,
    ensures
        a.occupied_below(n + 1) == if a.slots[n as int].val is Some {
            a.occupied_below(n).push(n as usize)
        } else {
            a.occupied_below(n)
        },
{
    reveal(Seq::filter);
    let wider = Seq::new(n + 1, |i: int| i as usize);
    let narrower = Seq::new(n, |i: int| i as usize);
    assert(wider.drop_last() =~= narrower);
}

/// What `occupied_below` holds: exactly the occupied indices below `n`, in
/// strictly increasing order.
pub proof fn lemma_occupied_below<T>(a: ArenaView<T>, n: nat)
    requires
        n <= a.slots.len() <= usize::MAX,
    ensures
        forall|k: int|
            0 <= k < a.occupied_below(n).len() ==> (#[trigger] a.occupied_below(n)[k]) < n
                && a.slots[a.occupied_below(n)[k] as int].val is Some,
        forall|i: int|
            0 <= i < n && (#[trigger] a.slots[i]).val is Some ==> a.occupied_below(n).contains(
                i as usize,
            ),
        forall|j: int, k: int|
            0 <= j < k < a.occupied_below(n).len() ==> a.occupied_below(n)[j] < a.occupied_below(
                n,
            )[k],
    decreases n,
{
    if n == 0 {
        reveal(Seq::filter);
    } else {
        let m = (n - 1) as nat;
        lemma_occupied_below(a, m);
        lemma_occupied_step(a, m);
        let before = a.occupied_below(m);
        let now = a.occupied_below(n);
        assert forall|i: int| 0 <= i < n && (#[trigger] a.slots[i]).val is Some implies now.contains(
            i as usize,
        ) by {
            let k = if i < m {
                before.index_of(i as usize)
            } else {
                now.len() - 1
            };
            assert(now[k] == i as usize);
        }
    }
}

/// A clearing keeps the state well formed at every slot it has reached. It
/// starts from the state as it is, and has cleared the arena when it has
/// gone through all slots.
pub proof fn lemma_clear_below<T>(a: ArenaView<T>, n: nat)
    requires
        a.wf(),
        n <= a.slots.len(),
    ensures
        a.clear_below(n).wf(),
        a.clear_below(0) == a,
        a.clear_below(a.slots.len()) == a.clear(),
{
    let b = a.clear_below(n);
    let occ = a.occupied_below(n);
    lemma_occupied_below(a, n);
    assert forall|i: int|
        0 <= i < b.slots.len() && (#[trigger] b.slots[i]).val is None implies b.free.contains(
        i as usize,
    ) by {
        let k = if a.slots[i].val is None {
            a.free.index_of(i as usize)
        } else {
            a.free.len() + occ.index_of(i as usize)
        };
        assert(b.free[k] == i as usize);
    }
}

/// Clearing keeps the state well formed and the number of slots, and
/// leaves no handle that resolves.
pub proof fn lemma_clear<T>(a: ArenaView<T>)
    requires
        a.wf(),
    ensures
        a.clear().wf(),
        a.clear().slots.len() == a.slots.len(),
        forall|h: Handle| !a.clear().resolves(h),
{
    lemma_clear_below(a, a.slots.len());
}

/// Exchanging two payloads keeps the state well formed.
pub proof fn lemma_swap<T>(s: ArenaView<T>, a: Handle, b: Handle)
    requires
        s.wf(),
    ensures
        s.swap(a, b).wf(),
{
}

/// Turning one payload into another keeps the state well formed.
pub proof fn lemma_put<T>(a: ArenaView<T>, h: Handle, out: Option<T>)
    requires
        a.wf(),
    ensures
        a.put(h, out).wf(),
{
    let b = a.put(h, out);
    if a.current(h) {
        let was = a.slots[h.idx as int].val;
        if was is Some && out is None {
            assert forall|i: int|
                0 <= i < b.slots.len() && (#[trigger] b.slots[i]).val is None implies b.free.contains(
                i as usize,
            ) by {
                let k = if i == h.idx {
                    a.free.len() as int
                } else {
                    a.free.index_of(i as usize)
                };
                assert(b.free[k] == i as usize);
            }
        } else if was is None && out is Some {
            a.free.index_of_first_ensures(h.idx);
            let p = a.free.index_of_first(h.idx).unwrap();
            assert forall|i: int|
                0 <= i < b.slots.len() && (#[trigger] b.slots[i]).val is None implies b.free.contains(
                i as usize,
            ) by {
                let k = a.free.index_of(i as usize);
                assert(b.free[if k < p { k } else { k - 1 }] == i as usize);
            }
        }
    }
}

} // verus!
