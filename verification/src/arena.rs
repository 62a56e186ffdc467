//! Generation-tagged entity arenas. Entities live in contiguous slots and are
//! addressed by handles that carry the slot's generation, so a handle to a
//! despawned entity can never reach whatever is spawned into the slot later:
//! removal bumps the generation, and a slot whose generation is exhausted is
//! never reused.

use vstd::prelude::*;

verus! {

/// A stable reference to one entity in an arena: a slot index plus the
/// generation the slot had when the entity was inserted.
#[derive(Clone, Copy, PartialEq, Eq, Structural, Debug)]
pub struct Handle {
    pub idx: usize,
    pub gen: u64,
}

/// One arena slot: its current generation and the entity it holds, if any.
#[derive(Clone, Copy, Debug)]
pub struct Slot<T> {
    pub gen: u64,
    pub val: Option<T>,
}

/// A pool of same-typed entities addressed by generation-tagged handles.
pub struct Arena<T> {
    pub slots: Vec<Slot<T>>,
}

/// How many of the first `n` slots hold an entity.
pub open spec fn alive_upto<T>(s: Seq<Slot<T>>, n: int) -> int
    decreases n,
{
    if n <= 0 {
        0
    } else {
        alive_upto(s, n - 1) + if s[n - 1].val is Some {
            1int
        } else {
            0int
        }
    }
}

/// The prefix count only reads whether each slot is occupied.
pub proof fn lemma_alive_upto_congruent<T>(s1: Seq<Slot<T>>, s2: Seq<Slot<T>>, n: int)
    requires
        forall|j: int| 0 <= j < n ==> (s1[j].val is Some) == (s2[j].val is Some),
    ensures
        alive_upto(s1, n) == alive_upto(s2, n),
    decreases n,
{
    if n > 0 {
        lemma_alive_upto_congruent(s1, s2, n - 1);
    }
}

/// Updating one slot changes the prefix count by the occupancy difference of
/// that slot, when the slot lies in the prefix, and not at all otherwise.
pub proof fn lemma_alive_upto_update<T>(s: Seq<Slot<T>>, i: int, x: Slot<T>, n: int)
    requires
        0 <= i < s.len(),
        0 <= n <= s.len(),
    ensures
        alive_upto(s.update(i, x), n) == alive_upto(s, n) + if i < n {
            (if x.val is Some { 1int } else { 0int })
                - (if s[i].val is Some { 1int } else { 0int })
        } else {
            0int
        },
    decreases n,
{
    if n > 0 {
        lemma_alive_upto_update(s, i, x, n - 1);
    }
}

/// A prefix with no occupied slot counts zero.
pub proof fn lemma_alive_upto_zero<T>(s: Seq<Slot<T>>, n: int)
    requires
        forall|j: int| 0 <= j < n ==> !(#[trigger] s[j].val is Some),
    ensures
        alive_upto(s, n) == 0,
    decreases n,
{
    if n > 0 {
        lemma_alive_upto_zero(s, n - 1);
    }
}

impl<T: Copy> Arena<T> {
    /// The slot `i` currently holds an entity.
    pub open spec fn slot_alive(self, i: int) -> bool {
        0 <= i < self.slots@.len() && self.slots@[i].val is Some
    }

    /// The entity in slot `i`.
    pub open spec fn at(self, i: int) -> T {
        self.slots@[i].val->0
    }

    /// The handle that currently addresses slot `i`.
    pub open spec fn handle_of(self, i: int) -> Handle {
        Handle { idx: i as usize, gen: self.slots@[i].gen }
    }

    /// `h` addresses a live entity: the slot is occupied and the generations
    /// agree.
    pub open spec fn is_alive(self, h: Handle) -> bool {
        self.slot_alive(h.idx as int) && self.slots@[h.idx as int].gen == h.gen
    }

    /// Number of live entities.
    pub open spec fn alive_count(self) -> int {
        alive_upto(self.slots@, self.slots@.len() as int)
    }

    /// Occupied slots have room left in their generation counter, so removal
    /// can always bump it and retire every outstanding handle.
    pub open spec fn wf(self) -> bool {
        forall|i: int|
            0 <= i < self.slots@.len() && #[trigger] self.slots@[i].val is Some
                ==> self.slots@[i].gen < u64::MAX
    }

    pub fn new() -> (a: Arena<T>)
        ensures
            a.slots@.len() == 0,
            a.wf(),
            a.alive_count() == 0,
    {
        Arena { slots: Vec::new() }
    }

    /// How many slots the arena has, live or free.
    pub fn slot_count(&self) -> (n: usize)
        ensures
            n == self.slots@.len(),
    {
        self.slots.len()
    }

    /// Whether `h` still addresses a live entity.
    pub fn alive(&self, h: Handle) -> (r: bool)
        ensures
            r == self.is_alive(h),
    {
        h.idx < self.slots.len() && self.slots[h.idx].gen == h.gen
            && self.slots[h.idx].val.is_some()
    }

    /// The entity `h` addresses, if it is still alive.
    pub fn get(&self, h: Handle) -> (r: Option<T>)
        ensures
            r is Some <==> self.is_alive(h),
            self.is_alive(h) ==> r == Some(self.at(h.idx as int)),
    {
        if h.idx < self.slots.len() && self.slots[h.idx].gen == h.gen {
            self.slots[h.idx].val
        } else {
            None
        }
    }

    /// Replace the entity `h` addresses. Only that slot changes.
    pub fn set(&mut self, h: Handle, v: T)
        requires
            old(self).wf(),
            old(self).is_alive(h),
        ensures
            final(self).wf(),
            final(self).slots@.len() == old(self).slots@.len(),
            final(self).slots@ == old(self).slots@.update(
                h.idx as int,
                Slot { gen: h.gen, val: Some(v) },
            ),
            final(self).is_alive(h),
            final(self).at(h.idx as int) == v,
            final(self).alive_count() == old(self).alive_count(),
            forall|i: int|
                0 <= i < old(self).slots@.len() && i != h.idx
                    ==> final(self).slots@[i] == old(self).slots@[i],
            forall|h2: Handle|
                old(self).is_alive(h2) ==> final(self).is_alive(h2),
            forall|h2: Handle|
                !old(self).is_alive(h2) ==> !final(self).is_alive(h2),
    {
        let ghost pre = self.slots@;
        let i = h.idx;
        self.slots[i] = Slot { gen: h.gen, val: Some(v) };
        proof {
            lemma_alive_upto_update(
                pre,
                i as int,
                Slot { gen: h.gen, val: Some(v) },
                pre.len() as int,
            );
        }
    }

    /// Insert a fresh entity, reusing a free slot when one is available. The
    /// returned handle is live, every previously live handle stays live and
    /// unchanged, and the live count grows by one.
    pub fn insert(&mut self, v: T) -> (h: Handle)
        requires
            old(self).wf(),
            old(self).slots@.len() < 1_000_000_000,
        ensures
            final(self).wf(),
            final(self).is_alive(h),
            final(self).at(h.idx as int) == v,
            final(self).alive_count() == old(self).alive_count() + 1,
            old(self).slots@.len() <= final(self).slots@.len()
                <= old(self).slots@.len() + 1,
            h.idx < final(self).slots@.len(),
            final(self).slots@.len() == old(self).slots@.len() + 1
                ==> h.idx == old(self).slots@.len(),
            !old(self).slot_alive(h.idx as int),
            forall|i: int|
                0 <= i < old(self).slots@.len() && i != h.idx
                    ==> final(self).slots@[i] == old(self).slots@[i],
            forall|h2: Handle|
                old(self).is_alive(h2)
                    ==> final(self).is_alive(h2) && h2.idx != h.idx
                        && final(self).at(h2.idx as int) == old(self).at(h2.idx as int),
            forall|h2: Handle|
                !old(self).is_alive(h2) && h2 != h ==> !final(self).is_alive(h2),
    {
        let ghost pre = self.slots@;
        let n = self.slots.len();
        let mut i: usize = 0;
        while i < n
            invariant
                n == self.slots@.len(),
                self.slots@ == pre,
                pre == old(self).slots@,
                old(self).wf(),
                i <= n,
                forall|j: int|
                    0 <= j < i
                        ==> (#[trigger] pre[j].val is Some || pre[j].gen == u64::MAX),
            decreases n - i,
        {
            if self.slots[i].val.is_none() && self.slots[i].gen < u64::MAX {
                let g = self.slots[i].gen;
                self.slots[i] = Slot { gen: g, val: Some(v) };
                proof {
                    lemma_alive_upto_update(
                        pre,
                        i as int,
                        Slot { gen: g, val: Some(v) },
                        pre.len() as int,
                    );
                }
                return Handle { idx: i, gen: g };
            }
            i = i + 1;
        }
        self.slots.push(Slot { gen: 0, val: Some(v) });
        proof {
            lemma_alive_upto_congruent(pre, self.slots@, pre.len() as int);
            assert(alive_upto(self.slots@, self.slots@.len() as int)
                == alive_upto(self.slots@, pre.len() as int) + 1);
        }
        Handle { idx: n, gen: 0 }
    }

    /// Remove the entity `h` addresses and retire the handle: the slot's
    /// generation is bumped, so `h` (and every other handle to the removed
    /// entity) is dead from here on, while all other entities are untouched.
    pub fn remove(&mut self, h: Handle)
        requires
            old(self).wf(),
            old(self).is_alive(h),
        ensures
            final(self).wf(),
            final(self).slots@.len() == old(self).slots@.len(),
            !final(self).is_alive(h),
            final(self).slots@[h.idx as int].val is None,
            final(self).slots@[h.idx as int].gen == h.gen + 1,
            final(self).alive_count() == old(self).alive_count() - 1,
            forall|i: int|
                0 <= i < old(self).slots@.len() && i != h.idx
                    ==> final(self).slots@[i] == old(self).slots@[i],
            forall|h2: Handle|
                old(self).is_alive(h2) && h2.idx != h.idx
                    ==> final(self).is_alive(h2)
                        && final(self).at(h2.idx as int) == old(self).at(h2.idx as int),
            forall|h2: Handle| !old(self).is_alive(h2) ==> !final(self).is_alive(h2),
    {
        let ghost pre = self.slots@;
        let i = h.idx;
        let g = self.slots[i].gen;
        self.slots[i] = Slot { gen: g + 1, val: None };
        proof {
            lemma_alive_upto_update(
                pre,
                i as int,
                Slot { gen: (g + 1) as u64, val: None },
                pre.len() as int,
            );
        }
    }

    /// Count the live entities.
    pub fn count_alive(&self) -> (n: usize)
        ensures
            n == self.alive_count(),
    {
        let len = self.slots.len();
        let mut n: usize = 0;
        let mut i: usize = 0;
        while i < len
            invariant
                len == self.slots@.len(),
                i <= len,
                n == alive_upto(self.slots@, i as int),
                n <= i,
            decreases len - i,
        {
            if self.slots[i].val.is_some() {
                n = n + 1;
            }
            i = i + 1;
        }
        n
    }
}

} // verus!
