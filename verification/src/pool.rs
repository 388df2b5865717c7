//! Generational slot pool: the sole owner of all live node storage.
//!
//! A slot is either occupied by a value, free (and recorded on a LIFO free
//! stack), or temporarily reserved while its value is detached through the
//! take / put-back protocol.  Every slot carries a generation counter; a
//! [`Handle`] addresses a slot and is valid exactly while the slot is
//! occupied at the handle's generation.  Destroying an occupant bumps the
//! slot's generation, so every handle to the old occupant is invalidated
//! before the slot can be reused.
//!
//! Generation exhaustion policy: a slot whose generation counter would
//! saturate at `u32::MAX` is retired when freed — it is never put on the
//! free stack, so it is never reused and a stale handle can never be
//! revalidated by a wrapped counter.

use vstd::prelude::*;

verus! {

/// A generation-checked reference to a pool slot.  A handle carries no
/// ownership: the pool checks `index` and `generation` on every access.
#[derive(Clone, Copy, Debug, PartialEq, Eq, Structural)]
pub struct Handle {
    pub index: u32,
    pub generation: u32,
}

/// Receipt for a value detached by [`Pool::take`]; [`Pool::put_back`]
/// restores the value to the same slot at the same generation.
#[derive(Clone, Copy, Debug, PartialEq, Eq, Structural)]
pub struct PoolTicket {
    pub index: u32,
    pub generation: u32,
}

/// One storage cell of a pool.
pub enum Slot<T> {
    Occupied { generation: u32, value: T },
    Reserved { generation: u32 },
    Free { generation: u32 },
}

impl<T> Slot<T> {
    /// The generation counter of the slot, in any state.
    pub open spec fn generation_of(self) -> u32 {
        match self {
            Slot::Occupied { generation, .. } => generation,
            Slot::Reserved { generation } => generation,
            Slot::Free { generation } => generation,
        }
    }

    /// The occupant of an occupied slot.
    pub open spec fn value_of(self) -> T
        recommends
            self is Occupied,
    {
        match self {
            Slot::Occupied { value, .. } => value,
            _ => arbitrary(),
        }
    }
}

/// Growable array of generation-checked slots with LIFO slot reuse.
pub struct Pool<T> {
    slots: Vec<Slot<T>>,
    free_stack: Vec<u32>,
}

impl<T> Pool<T> {
    /// The slots, in index order.
    pub closed spec fn slots_view(self) -> Seq<Slot<T>> {
        self.slots@
    }

    /// The free stack; the last element is the most recently freed slot.
    pub closed spec fn free_view(self) -> Seq<u32> {
        self.free_stack@
    }

    pub open spec fn slot_count(self) -> nat {
        self.slots_view().len()
    }

    pub open spec fn slot_at(self, i: int) -> Slot<T>
        recommends
            0 <= i < self.slot_count(),
    {
        self.slots_view()[i]
    }

    /// A handle is valid iff its slot is occupied at the handle's generation.
    pub open spec fn valid(self, h: Handle) -> bool {
        &&& (h.index as int) < self.slot_count()
        &&& self.slot_at(h.index as int) is Occupied
        &&& self.slot_at(h.index as int).generation_of() == h.generation
    }

    /// The value a valid handle refers to.
    pub open spec fn value_at(self, h: Handle) -> T
        recommends
            self.valid(h),
    {
        self.slot_at(h.index as int).value_of()
    }

    /// A ticket refers to the reserved slot it was issued for.
    pub open spec fn reserved_for(self, t: PoolTicket) -> bool {
        &&& (t.index as int) < self.slot_count()
        &&& self.slot_at(t.index as int) is Reserved
        &&& self.slot_at(t.index as int).generation_of() == t.generation
    }

    /// Number of occupied slots among the first `n`.
    pub open spec fn occupied_count(s: Seq<Slot<T>>, n: int) -> int
        decreases n,
    {
        if n <= 0 {
            0
        } else {
            Self::occupied_count(s, n - 1) + if s[n - 1] is Occupied {
                1int
            } else {
                0int
            }
        }
    }

    /// Number of live values in the pool.
    pub open spec fn live_count(self) -> int {
        Self::occupied_count(self.slots_view(), self.slots_view().len() as int)
    }

    proof fn lemma_occupied_count_update(s: Seq<Slot<T>>, i: int, slot: Slot<T>, n: int)
        requires
            0 <= i < s.len(),
            n <= s.len(),
        ensures
            Self::occupied_count(s.update(i, slot), n) == Self::occupied_count(s, n) + if i < n {
                (if slot is Occupied { 1int } else { 0int }) - (if s[i] is Occupied { 1int } else { 0int })
            } else {
                0int
            },
        decreases n,
    {
        if n > 0 {
            Self::lemma_occupied_count_update(s, i, slot, n - 1);
        }
    }

    proof fn lemma_occupied_count_push(s: Seq<Slot<T>>, slot: Slot<T>, n: int)
        requires
            n <= s.len(),
        ensures
            Self::occupied_count(s.push(slot), n) == Self::occupied_count(s, n),
        decreases n,
    {
        if n > 0 {
            Self::lemma_occupied_count_push(s, slot, n - 1);
        }
    }

    /// Internal consistency: indices fit in `u32`; the free stack holds
    /// exactly the free slots whose generation has not been exhausted, each
    /// at most once.
    pub closed spec fn wf(self) -> bool {
        &&& self.slots@.len() <= u32::MAX as int
        &&& forall|k: int|
            0 <= k < self.free_stack@.len() ==> {
                &&& (#[trigger] self.free_stack@[k] as int) < self.slots@.len()
                &&& self.slots@[self.free_stack@[k] as int] is Free
                &&& self.slots@[self.free_stack@[k] as int].generation_of() < u32::MAX
            }
        &&& forall|k1: int, k2: int|
            0 <= k1 < k2 < self.free_stack@.len()
                ==> #[trigger] self.free_stack@[k1] != #[trigger] self.free_stack@[k2]
        &&& forall|i: int|
            0 <= i < self.slots@.len() && (#[trigger] self.slots@[i]) is Free
                && self.slots@[i].generation_of() < u32::MAX
                ==> exists|k: int|
                    0 <= k < self.free_stack@.len() && #[trigger] self.free_stack@[k] as int == i
    }

    /// The slot array never outgrows the handle index space.
    pub proof fn lemma_slot_count_bound(self)
        requires
            self.wf(),
        ensures
            self.slot_count() <= u32::MAX as nat,
    {
    }

    /// An empty pool.
    pub fn new() -> (r: Pool<T>)
        ensures
            r.wf(),
            r.slots_view() == Seq::<Slot<T>>::empty(),
            r.free_view() == Seq::<u32>::empty(),
    {
        Pool { slots: Vec::new(), free_stack: Vec::new() }
    }

    pub fn vec_len(&self) -> (n: usize)
        ensures
            n == self.slot_count(),
    {
        self.slots.len()
    }

    /// Whether `h` currently refers to a live occupant.
    pub fn is_valid(&self, h: Handle) -> (b: bool)
        ensures
            b == self.valid(h),
    {
        let idx = h.index as usize;
        if idx < self.slots.len() {
            match &self.slots[idx] {
                Slot::Occupied { generation, .. } => *generation == h.generation,
                _ => false,
            }
        } else {
            false
        }
    }

    /// Inserts a value, reusing the most recently freed slot if one exists
    /// (at that slot's already-bumped generation), else appending a fresh
    /// slot at generation zero.  The returned handle is valid immediately.
    pub fn add(&mut self, value: T) -> (h: Handle)
        requires
            old(self).wf(),
            old(self).slot_count() < u32::MAX as nat,
        ensures
            final(self).wf(),
            final(self).valid(h),
            final(self).value_at(h) == value,
            !old(self).valid(h),
            final(self).live_count() == old(self).live_count() + 1,
            h.generation < u32::MAX,
            old(self).slot_count() <= final(self).slot_count(),
            final(self).slot_count() <= old(self).slot_count() + 1,
            forall|j: int|
                0 <= j < old(self).slot_count() && j != h.index as int ==> final(self).slot_at(j)
                    == old(self).slot_at(j),
            (h.index as int) < old(self).slot_count() ==> old(self).slot_at(h.index as int) is Free
                && h.generation == old(self).slot_at(h.index as int).generation_of(),
            forall|j: int|
                0 <= j < final(self).slot_count() && (#[trigger] final(self).slot_at(j)) is Free
                    ==> j < old(self).slot_count() && old(self).slot_at(j) == final(self).slot_at(
                    j,
                ),
            old(self).free_view().len() == 0 ==> h.index as int == old(self).slot_count()
                && h.generation == 0 && final(self).slots_view() == old(self).slots_view().push(
                Slot::Occupied { generation: 0, value },
            ) && final(self).free_view() == old(self).free_view(),
            old(self).free_view().len() > 0 ==> h.index == old(self).free_view().last()
                && old(self).slot_at(h.index as int) is Free && h.generation == old(self).slot_at(
                h.index as int,
            ).generation_of() && final(self).slots_view() == old(self).slots_view().update(
                h.index as int,
                Slot::Occupied { generation: h.generation, value },
            ) && final(self).free_view() == old(self).free_view().drop_last(),
            forall|h2: Handle| h2 != h ==> final(self).valid(h2) == old(self).valid(h2),
            forall|h2: Handle|
                h2 != h && old(self).valid(h2) ==> final(self).value_at(h2) == old(
                    self,
                ).value_at(h2),
    {
        let h = match self.free_stack.pop() {
            Some(i) => {
                let idx = i as usize;
                let generation = match &self.slots[idx] {
                    Slot::Free { generation } => *generation,
                    _ => unreached(),
                };
                self.slots.set(idx, Slot::Occupied { generation, value });
                Handle { index: i, generation }
            },
            None => {
                let index = self.slots.len() as u32;
                self.slots.push(Slot::Occupied { generation: 0, value });
                Handle { index, generation: 0 }
            },
        };
        proof {
            let oldp = *old(self);
            if oldp.free_stack@.len() > 0 {
                Self::lemma_occupied_count_update(
                    oldp.slots@,
                    h.index as int,
                    self.slots@[h.index as int],
                    oldp.slots@.len() as int,
                );
            } else {
                Self::lemma_occupied_count_push(
                    oldp.slots@,
                    self.slots@[oldp.slots@.len() as int],
                    oldp.slots@.len() as int,
                );
            }
            if oldp.free_stack@.len() > 0 {
                let last = oldp.free_stack@.len() - 1;
                assert forall|k: int| 0 <= k < self.free_stack@.len() implies {
                    &&& (#[trigger] self.free_stack@[k] as int) < self.slots@.len()
                    &&& self.slots@[self.free_stack@[k] as int] is Free
                    &&& self.slots@[self.free_stack@[k] as int].generation_of() < u32::MAX
                } by {
                    assert(self.free_stack@[k] == oldp.free_stack@[k]);
                    assert(oldp.free_stack@[k] != oldp.free_stack@[last]);
                }
                assert forall|i2: int|
                    0 <= i2 < self.slots@.len() && (#[trigger] self.slots@[i2]) is Free
                        && self.slots@[i2].generation_of() < u32::MAX implies exists|k: int|
                    0 <= k < self.free_stack@.len() && #[trigger] self.free_stack@[k] as int
                        == i2 by {
                    assert(i2 != h.index as int);
                    assert(oldp.slots@[i2] is Free);
                    let k0 = choose|k: int|
                        0 <= k < oldp.free_stack@.len() && #[trigger] oldp.free_stack@[k] as int
                            == i2;
                    assert(k0 != last);
                    assert(self.free_stack@[k0] as int == i2);
                }
            } else {
                assert forall|i2: int|
                    0 <= i2 < self.slots@.len() && (#[trigger] self.slots@[i2]) is Free
                        && self.slots@[i2].generation_of() < u32::MAX implies exists|k: int|
                    0 <= k < self.free_stack@.len() && #[trigger] self.free_stack@[k] as int
                        == i2 by {
                    assert(i2 < oldp.slots@.len());
                    assert(oldp.slots@[i2] is Free);
                }
            }
        }
        h
    }

    /// Frees the slot of a valid handle, bumping its generation (saturating;
    /// a slot that reaches the last generation is retired, never reused).
    /// Every handle to the destroyed occupant is invalid afterwards.
    pub fn destroy(&mut self, h: Handle)
        requires
            old(self).wf(),
            old(self).valid(h),
        ensures
            final(self).wf(),
            !final(self).valid(h),
            forall|h2: Handle| final(self).valid(h2) <==> (old(self).valid(h2) && h2 != h),
            forall|h2: Handle|
                h2 != h && old(self).valid(h2) ==> final(self).value_at(h2) == old(
                    self,
                ).value_at(h2),
            final(self).slots_view() == old(self).slots_view().update(
                h.index as int,
                Slot::Free {
                    generation: if h.generation < u32::MAX {
                        (h.generation + 1) as u32
                    } else {
                        u32::MAX
                    },
                },
            ),
            final(self).free_view() == if h.generation + 1 < u32::MAX {
                old(self).free_view().push(h.index)
            } else {
                old(self).free_view()
            },
            final(self).live_count() == old(self).live_count() - 1,
    {
        let new_generation = if h.generation < u32::MAX {
            h.generation + 1
        } else {
            u32::MAX
        };
        self.slots.set(h.index as usize, Slot::Free { generation: new_generation });
        proof {
            let oldp = *old(self);
            Self::lemma_occupied_count_update(
                oldp.slots@,
                h.index as int,
                Slot::Free { generation: new_generation },
                oldp.slots@.len() as int,
            );
            assert forall|k: int| 0 <= k < oldp.free_stack@.len() implies oldp.free_stack@[k]
                != h.index by {
                assert(oldp.slots@[oldp.free_stack@[k] as int] is Free);
            }
        }
        if new_generation < u32::MAX {
            self.free_stack.push(h.index);
        }
        proof {
            let oldp = *old(self);
            assert forall|i2: int|
                0 <= i2 < self.slots@.len() && (#[trigger] self.slots@[i2]) is Free
                    && self.slots@[i2].generation_of() < u32::MAX implies exists|k: int|
                0 <= k < self.free_stack@.len() && #[trigger] self.free_stack@[k] as int
                    == i2 by {
                if i2 == h.index as int {
                    assert(self.free_stack@[self.free_stack@.len() - 1] as int == i2);
                } else {
                    assert(oldp.slots@[i2] is Free);
                    let k0 = choose|k: int|
                        0 <= k < oldp.free_stack@.len() && #[trigger] oldp.free_stack@[k] as int
                            == i2;
                    assert(self.free_stack@[k0] as int == i2);
                }
            }
        }
    }

    /// Fatal-on-misuse access: the handle must be valid.
    pub fn borrow(&self, h: Handle) -> (r: &T)
        requires
            self.valid(h),
        ensures
            *r == self.value_at(h),
    {
        match &self.slots[h.index as usize] {
            Slot::Occupied { value, .. } => value,
            _ => unreached(),
        }
    }

    /// Returns the occupant if `h` is still valid, absence otherwise.
    pub fn try_borrow(&self, h: Handle) -> (r: Option<&T>)
        ensures
            match r {
                Some(v) => self.valid(h) && *v == self.value_at(h),
                None => !self.valid(h),
            },
    {
        let idx = h.index as usize;
        if idx < self.slots.len() {
            match &self.slots[idx] {
                Slot::Occupied { generation, value } => if *generation == h.generation {
                    Some(value)
                } else {
                    None
                },
                _ => None,
            }
        } else {
            None
        }
    }

    /// Fatal-on-misuse mutable access: the handle must be valid.  The final
    /// pool holds whatever the caller leaves behind the returned reference;
    /// nothing else changes.
    pub fn borrow_mut(&mut self, h: Handle) -> (r: &mut T)
        requires
            old(self).valid(h),
        ensures
            *r == old(self).value_at(h),
            final(self).slots_view() == old(self).slots_view().update(
                h.index as int,
                Slot::Occupied { generation: h.generation, value: *final(r) },
            ),
            final(self).free_view() == old(self).free_view(),
            old(self).wf() ==> final(self).wf(),
            final(self).live_count() == old(self).live_count(),
    {
        proof {
            assert forall|slot: Slot<T>| slot is Occupied implies Self::occupied_count(
                old(self).slots@.update(h.index as int, slot),
                old(self).slots@.len() as int,
            ) == Self::occupied_count(old(self).slots@, old(self).slots@.len() as int) by {
                Self::lemma_occupied_count_update(
                    old(self).slots@,
                    h.index as int,
                    slot,
                    old(self).slots@.len() as int,
                );
            }
        }
        match &mut self.slots[h.index as usize] {
            Slot::Occupied { value, .. } => value,
            _ => unreached(),
        }
    }

    /// Detaches the occupant of a valid handle, marking the slot reserved,
    /// so the caller can hold the value while still using the rest of the
    /// pool.  The handle is invalid until the matching [`Self::put_back`].
    pub fn take(&mut self, h: Handle) -> (r: (PoolTicket, T))
        requires
            old(self).wf(),
            old(self).valid(h),
        ensures
            final(self).wf(),
            r.0.index == h.index,
            r.0.generation == h.generation,
            r.1 == old(self).value_at(h),
            final(self).reserved_for(r.0),
            !final(self).valid(h),
            final(self).slots_view() == old(self).slots_view().update(
                h.index as int,
                Slot::Reserved { generation: h.generation },
            ),
            final(self).free_view() == old(self).free_view(),
            final(self).live_count() == old(self).live_count() - 1,
            forall|h2: Handle| h2 != h ==> final(self).valid(h2) == old(self).valid(h2),
            forall|h2: Handle|
                h2 != h && old(self).valid(h2) ==> final(self).value_at(h2) == old(
                    self,
                ).value_at(h2),
    {
        let generation = h.generation;
        let mut tmp = Slot::Reserved { generation };
        let idx = h.index as usize;
        core::mem::swap(&mut tmp, &mut self.slots[idx]);
        let value = match tmp {
            Slot::Occupied { value, .. } => value,
            _ => unreached(),
        };
        proof {
            Self::lemma_occupied_count_update(
                old(self).slots@,
                h.index as int,
                Slot::Reserved { generation: h.generation },
                old(self).slots@.len() as int,
            );
        }
        (PoolTicket { index: h.index, generation }, value)
    }

    /// Detaches the occupant if `h` is still valid, absence otherwise —
    /// the expected-absence counterpart of [`Self::take`]; the pool is
    /// untouched when the handle is stale.
    pub fn try_take(&mut self, h: Handle) -> (r: Option<(PoolTicket, T)>)
        requires
            old(self).wf(),
        ensures
            final(self).wf(),
            r is Some <==> old(self).valid(h),
            match r {
                Some(tv) => {
                    &&& tv.0.index == h.index
                    &&& tv.0.generation == h.generation
                    &&& tv.1 == old(self).value_at(h)
                    &&& final(self).reserved_for(tv.0)
                    &&& final(self).slots_view() == old(self).slots_view().update(
                        h.index as int,
                        Slot::Reserved { generation: h.generation },
                    )
                    &&& final(self).free_view() == old(self).free_view()
                    &&& final(self).live_count() == old(self).live_count() - 1
                    &&& forall|h2: Handle| h2 != h ==> final(self).valid(h2) == old(self).valid(h2)
                    &&& forall|h2: Handle|
                        h2 != h && old(self).valid(h2) ==> final(self).value_at(h2) == old(
                            self,
                        ).value_at(h2)
                },
                None => *final(self) == *old(self),
            },
    {
        if self.is_valid(h) {
            Some(self.take(h))
        } else {
            None
        }
    }

    /// Mutable access if `h` is still valid, absence otherwise; the pool
    /// is untouched when the handle is stale.
    pub fn try_borrow_mut(&mut self, h: Handle) -> (r: Option<&mut T>)
        ensures
            r is Some <==> old(self).valid(h),
            match r {
                Some(v) => {
                    &&& *v == old(self).value_at(h)
                    &&& final(self).slots_view() == old(self).slots_view().update(
                        h.index as int,
                        Slot::Occupied { generation: h.generation, value: *final(v) },
                    )
                    &&& final(self).free_view() == old(self).free_view()
                    &&& (old(self).wf() ==> final(self).wf())
                },
                None => *final(self) == *old(self),
            },
    {
        if self.is_valid(h) {
            match &mut self.slots[h.index as usize] {
                Slot::Occupied { value, .. } => Some(value),
                _ => unreached(),
            }
        } else {
            None
        }
    }

    /// Restores a detached value to its reserved slot, at the unchanged
    /// generation: every handle that was valid before the take is valid
    /// again and sees the restored value.
    pub fn put_back(&mut self, ticket: PoolTicket, value: T)
        requires
            old(self).wf(),
            old(self).reserved_for(ticket),
        ensures
            final(self).wf(),
            final(self).valid(Handle { index: ticket.index, generation: ticket.generation }),
            final(self).value_at(Handle { index: ticket.index, generation: ticket.generation })
                == value,
            final(self).slots_view() == old(self).slots_view().update(
                ticket.index as int,
                Slot::Occupied { generation: ticket.generation, value },
            ),
            final(self).free_view() == old(self).free_view(),
            final(self).live_count() == old(self).live_count() + 1,
            forall|h2: Handle|
                h2.index != ticket.index ==> final(self).valid(h2) == old(self).valid(h2),
            forall|h2: Handle|
                h2.index != ticket.index && old(self).valid(h2) ==> final(self).value_at(h2)
                    == old(self).value_at(h2),
    {
        self.slots.set(ticket.index as usize, Slot::Occupied {
            generation: ticket.generation,
            value,
        });
        proof {
            Self::lemma_occupied_count_update(
                old(self).slots@,
                ticket.index as int,
                Slot::Occupied { generation: ticket.generation, value },
                old(self).slots@.len() as int,
            );
        }
    }

    /// Reconstructs a handle for a slot index using the slot's current
    /// generation, so index-ordered iteration never aliases a stale handle.
    pub fn handle_from_index(&self, index: usize) -> (h: Handle)
        requires
            index < self.slot_count(),
            self.slot_count() <= u32::MAX as nat,
        ensures
            h.index as int == index,
            h.generation == self.slot_at(index as int).generation_of(),
            self.slot_at(index as int) is Occupied ==> self.valid(h),
            self.valid(h) <==> self.slot_at(index as int) is Occupied,
    {
        let generation = match &self.slots[index] {
            Slot::Occupied { generation, .. } => *generation,
            Slot::Reserved { generation } => *generation,
            Slot::Free { generation } => *generation,
        };
        Handle { index: index as u32, generation }
    }

    /// What any one mutating call guarantees about the handles it does not
    /// touch: `add` touches only the handle it returns, `destroy` only its
    /// argument, and both ensure exactly this frame for every other handle.
    pub open spec fn pool_step(p0: Pool<T>, p1: Pool<T>, touched: Handle) -> bool {
        &&& forall|h2: Handle| h2 != touched ==> #[trigger] p1.valid(h2) == p0.valid(h2)
        &&& forall|h2: Handle|
            h2 != touched && p0.valid(h2) ==> #[trigger] p1.value_at(h2) == p0.value_at(h2)
    }

    /// The step from chain position `j` to `j + 1` is an operation that
    /// does not touch `h`.
    pub open spec fn step_avoids(ps: Seq<Pool<T>>, h: Handle, j: int) -> bool {
        exists|t: Handle| t != h && #[trigger] Self::pool_step(ps[j], ps[j + 1], t)
    }

    /// Handle-lifetime law: along any chain of pool states in which each
    /// step is an add or destroy that does not touch `h` — i.e. `h` was
    /// not the destroyed handle, and, generations being checked, cannot be
    /// the freshly returned one — a handle valid at the start stays valid
    /// the whole way through, still referring to the same value.
    pub proof fn lemma_handle_survives_steps(ps: Seq<Pool<T>>, h: Handle, i: int)
        requires
            0 <= i < ps.len(),
            ps[0].valid(h),
            forall|j: int| 0 <= j < ps.len() - 1 ==> #[trigger] Self::step_avoids(ps, h, j),
        ensures
            ps[i].valid(h),
            ps[i].value_at(h) == ps[0].value_at(h),
        decreases i,
    {
        if i > 0 {
            Self::lemma_handle_survives_steps(ps, h, i - 1);
            assert(Self::step_avoids(ps, h, i - 1));
            let t = choose|t: Handle| t != h && #[trigger] Self::pool_step(ps[i - 1], ps[i], t);
            assert(Self::pool_step(ps[i - 1], ps[i], t));
            assert(ps[i].valid(h) == ps[i - 1].valid(h) && ps[i].value_at(h) == ps[i - 1].value_at(
                h,
            ));
        }
    }

    /// Reuse law: destroying the occupant of a slot and then inserting a
    /// new value reuses that slot at a strictly greater generation, so the
    /// old occupant's handle never satisfies validity against the new one.
    /// The three states are related exactly as the contracts of
    /// [`Self::destroy`] (on a non-retired slot, with the freed slot on
    /// top of the free stack) and [`Self::add`] leave them.
    pub proof fn lemma_destroy_then_add_reuses_slot(
        p0: Pool<T>,
        p1: Pool<T>,
        h: Handle,
        h2: Handle,
    )
        requires
            p0.valid(h),
            h.generation + 1 < u32::MAX,
            p1.slots_view() == p0.slots_view().update(
                h.index as int,
                Slot::Free { generation: (h.generation + 1) as u32 },
            ),
            p1.free_view() == p0.free_view().push(h.index),
            h2.index == p1.free_view().last(),
            h2.generation == p1.slot_at(h2.index as int).generation_of(),
        ensures
            h2.index == h.index,
            h2.generation == h.generation + 1,
            h2 != h,
    {
    }

    /// At most one handle value is valid for a given slot at any time:
    /// validity pins both the index and the current generation.  After an
    /// occupant is destroyed and its slot reused, the handles to the old
    /// occupant therefore never satisfy validity against the new one, whose
    /// generation is strictly greater.
    pub proof fn lemma_at_most_one_valid_handle_per_slot(self, h1: Handle, h2: Handle)
        requires
            self.valid(h1),
            self.valid(h2),
            h1.index == h2.index,
        ensures
            h1 == h2,
    {
    }
}

} // verus!
