//! Enemies and the health/death pipeline: damage events accumulate into
//! enemy health, death resolution removes every enemy at or below zero health
//! in one atomic pass and emits exactly one pickup-spawn event per death, and
//! the targetability gate reclassifies every enemy from its live position.

use vstd::prelude::*;
use crate::arena::{Arena, Handle, Slot};
use crate::events::{ExperienceSpawnEvent, TransmitDamage};
use crate::grid::Grid;
use crate::rng::draw_in;
use crate::vec2::{Vec2i, ACCUM_LIMIT, COORD_LIMIT};

verus! {

/// The movement accumulator of a horde enemy: contributions from seeking,
/// avoidance and noise sum here before one integration step consumes them.
#[derive(Clone, Copy, PartialEq, Eq, Structural, Debug)]
pub struct HordeMover {
    pub dxdy: Vec2i,
}

impl Default for HordeMover {
    /// A zeroed movement accumulator.
    fn default() -> (m: HordeMover)
        ensures
            m.dxdy == (Vec2i { x: 0, y: 0 }),
    {
        HordeMover { dxdy: Vec2i { x: 0, y: 0 } }
    }
}

impl HordeMover {
    /// Overwrite the accumulator with fresh uniform noise in `[-100, 100]`
    /// on each axis, to be consumed next tick; this keeps the horde from
    /// settling into a rigid lattice.
    pub fn noise(&mut self)
        ensures
            -100 <= final(self).dxdy.x <= 100,
            -100 <= final(self).dxdy.y <= 100,
    {
        let nx = draw_in(-100, 101);
        let ny = draw_in(-100, 101);
        self.dxdy = Vec2i { x: nx, y: ny };
    }
}

/// A triangle-shaped horde enemy: its position, health, movement accumulator
/// and the targetability flag, recomputed from its position every tick.
#[derive(Clone, Copy, PartialEq, Eq, Structural, Debug)]
pub struct Triangle {
    pub pos: Vec2i,
    pub mover: HordeMover,
    pub health: i64,
    pub targetable: bool,
}

/// Health can sink far below zero within a tick (damage is not clamped
/// mid-tick), but stays representable.
pub const HEALTH_FLOOR: i64 = -4_000_000_000_000_000;

/// Bounds under which all enemy arithmetic stays inside `i64`.
pub open spec fn enemy_ok(t: Triangle) -> bool {
    &&& t.pos.bounded(COORD_LIMIT as int)
    &&& t.mover.dxdy.bounded(ACCUM_LIMIT as int)
    &&& HEALTH_FLOOR <= t.health <= 1_000_000
}

/// Every live enemy of the arena is within bounds.
pub open spec fn enemies_ok(a: Arena<Triangle>) -> bool {
    forall|i: int| #[trigger] a.slot_alive(i) ==> enemy_ok(a.at(i))
}

/// How the targetability gate changes the arena: every live enemy's flag
/// equals whether its position lies in the playable rectangle (boundaries
/// included), and nothing else about any slot moved.
pub open spec fn gate_post(pre: Arena<Triangle>, post: Arena<Triangle>, grid: Grid) -> bool {
    &&& post.wf()
    &&& post.slots@.len() == pre.slots@.len()
    &&& post.alive_count() == pre.alive_count()
    &&& forall|i: int|
        #![trigger post.slot_alive(i)]
        0 <= i < pre.slots@.len()
            ==> post.slot_alive(i) == pre.slot_alive(i)
                && post.slots@[i].gen == pre.slots@[i].gen
    &&& forall|i: int|
        pre.slot_alive(i)
            ==> #[trigger] post.at(i) == (Triangle {
                targetable: grid.spec_contains(pre.at(i).pos),
                ..pre.at(i)
            })
}

/// Recompute the targetability of every enemy from its live position: an
/// enemy is targetable exactly when it lies in the playable rectangle,
/// boundaries included. Nothing else about any enemy changes.
pub fn update_enemy_targetable(enemies: &mut Arena<Triangle>, grid: &Grid)
    requires
        old(enemies).wf(),
    ensures
        gate_post(*old(enemies), *final(enemies), *grid),
{
    let ghost pre = enemies.slots@;
    let n = enemies.slots.len();
    let mut i: usize = 0;
    while i < n
        invariant
            old(enemies).wf(),
            pre == old(enemies).slots@,
            n == pre.len(),
            enemies.slots@.len() == n,
            i <= n,
            forall|j: int| i <= j < n ==> enemies.slots@[j] == pre[j],
            forall|j: int|
                0 <= j < i
                    ==> (#[trigger] enemies.slots@[j].val is Some) == (pre[j].val is Some)
                        && enemies.slots@[j].gen == pre[j].gen,
            forall|j: int|
                0 <= j < i && pre[j].val is Some
                    ==> #[trigger] enemies.slots@[j].val == Some(Triangle {
                        targetable: grid.spec_contains(pre[j].val->0.pos),
                        ..pre[j].val->0
                    }),
        decreases n - i,
    {
        let s = enemies.slots[i];
        if s.val.is_some() {
            let t = s.val.unwrap();
            let tgt = grid.contains(t.pos);
            enemies.slots[i] = Slot {
                gen: s.gen,
                val: Some(Triangle { pos: t.pos, mover: t.mover, health: t.health, targetable: tgt }),
            };
        }
        i = i + 1;
    }
    proof {
        crate::arena::lemma_alive_upto_congruent(pre, enemies.slots@, n as int);
    }
}

/// Damage aimed at `h` among the first `k` events.
pub open spec fn dmg_upto(evs: Seq<TransmitDamage>, h: Handle, k: int) -> int
    decreases k,
{
    if k <= 0 {
        0
    } else {
        dmg_upto(evs, h, k - 1) + if evs[k - 1].target == h {
            evs[k - 1].damage as int
        } else {
            0int
        }
    }
}

/// Total damage aimed at `h` in a buffer of events.
pub open spec fn dmg_total(evs: Seq<TransmitDamage>, h: Handle) -> int {
    dmg_upto(evs, h, evs.len() as int)
}

/// Each event carries at most `lim` damage, so any prefix sum is bounded.
pub proof fn lemma_dmg_upto_bounds(evs: Seq<TransmitDamage>, h: Handle, k: int, lim: int)
    requires
        0 <= k <= evs.len(),
        0 <= lim,
        forall|j: int| 0 <= j < evs.len() ==> 0 <= #[trigger] evs[j].damage <= lim,
    ensures
        0 <= dmg_upto(evs, h, k) <= k * lim,
    decreases k,
{
    if k > 0 {
        lemma_dmg_upto_bounds(evs, h, k - 1, lim);
        assert((k - 1) * lim + lim == k * lim) by (nonlinear_arith);
    }
}

/// How one damage pass changes the arena: each live enemy's health fell by
/// exactly the summed damage of the events aimed at its live handle, with no
/// mid-tick clamping; events aimed at dead or stale handles had no effect,
/// and nothing besides health moved.
pub open spec fn damage_post(
    pre: Arena<Triangle>,
    post: Arena<Triangle>,
    evs: Seq<TransmitDamage>,
) -> bool {
    &&& post.wf()
    &&& post.slots@.len() == pre.slots@.len()
    &&& post.alive_count() == pre.alive_count()
    &&& forall|i: int|
        #![trigger post.slot_alive(i)]
        0 <= i < pre.slots@.len()
            ==> post.slot_alive(i) == pre.slot_alive(i)
                && post.slots@[i].gen == pre.slots@[i].gen
    &&& forall|i: int|
        pre.slot_alive(i)
            ==> #[trigger] post.at(i) == (Triangle {
                health: (pre.at(i).health - dmg_total(evs, pre.handle_of(i))) as i64,
                ..pre.at(i)
            })
}

/// Apply a buffer of damage events to the enemies: each live target loses
/// the summed damage of all events aimed at it, with no mid-tick clamping.
/// Events aimed at dead or stale handles have no effect, and nothing besides
/// health changes.
pub fn damage_enemies(enemies: &mut Arena<Triangle>, events: &Vec<TransmitDamage>)
    requires
        old(enemies).wf(),
        enemies_ok(*old(enemies)),
        events@.len() <= 1_000_000,
        forall|k: int| 0 <= k < events@.len() ==> 0 <= #[trigger] events@[k].damage <= 1_000_000_000,
    ensures
        damage_post(*old(enemies), *final(enemies), events@),
{
    let ghost pre = enemies.slots@;
    let n_ev = events.len();
    let mut k: usize = 0;
    while k < n_ev
        invariant
            old(enemies).wf(),
            pre == old(enemies).slots@,
            n_ev == events@.len(),
            events@.len() <= 1_000_000,
            forall|j: int|
                0 <= j < events@.len() ==> 0 <= #[trigger] events@[j].damage <= 1_000_000_000,
            enemies_ok(*old(enemies)),
            enemies.slots@.len() == pre.len(),
            k <= n_ev,
            forall|j: int|
                0 <= j < pre.len()
                    ==> (#[trigger] enemies.slots@[j].val is Some) == (pre[j].val is Some)
                        && enemies.slots@[j].gen == pre[j].gen,
            forall|j: int|
                0 <= j < pre.len() && pre[j].val is Some
                    ==> #[trigger] enemies.slots@[j].val == Some(Triangle {
                        health: (pre[j].val->0.health
                            - dmg_upto(events@, Handle { idx: j as usize, gen: pre[j].gen },
                                k as int)) as i64,
                        ..pre[j].val->0
                    }),
        decreases n_ev - k,
    {
        let ev = events[k];
        let idx = ev.target.idx;
        if idx < enemies.slots.len() && enemies.slots[idx].gen == ev.target.gen
            && enemies.slots[idx].val.is_some() {
            let s = enemies.slots[idx];
            let t = s.val.unwrap();
            proof {
                assert(old(enemies).slot_alive(idx as int));
                lemma_dmg_upto_bounds(events@, ev.target, k as int, 1_000_000_000);
            }
            enemies.slots[idx] = Slot {
                gen: s.gen,
                val: Some(Triangle {
                    pos: t.pos,
                    mover: t.mover,
                    health: t.health - ev.damage,
                    targetable: t.targetable,
                }),
            };
            proof {
                assert forall|j: int| 0 <= j < pre.len() && pre[j].val is Some
                    implies #[trigger] enemies.slots@[j].val == Some(Triangle {
                        health: (pre[j].val->0.health
                            - dmg_upto(events@, Handle { idx: j as usize, gen: pre[j].gen },
                                k + 1)) as i64,
                        ..pre[j].val->0
                    }) by {
                    let hj = Handle { idx: j as usize, gen: pre[j].gen };
                    if j == idx as int {
                        assert(ev.target == hj);
                    } else {
                        assert(ev.target != hj);
                    }
                }
            }
        } else {
            proof {
                assert forall|j: int| 0 <= j < pre.len() && pre[j].val is Some
                    implies ev.target != (Handle { idx: j as usize, gen: pre[j].gen }) by {
                    if ev.target == (Handle { idx: j as usize, gen: pre[j].gen }) {
                        assert(enemies.slots@[j].val is Some);
                    }
                }
            }
        }
        k = k + 1;
    }
    proof {
        crate::arena::lemma_alive_upto_congruent(pre, enemies.slots@, pre.len() as int);
    }
}

/// The pickup-spawn events produced by scanning the first `k` slots for dead
/// enemies: one event, at the enemy's last position, per dead enemy, in slot
/// order.
pub open spec fn deaths_upto(s: Seq<Slot<Triangle>>, k: int) -> Seq<ExperienceSpawnEvent>
    decreases k,
{
    if k <= 0 {
        Seq::empty()
    } else {
        deaths_upto(s, k - 1) + if s[k - 1].val is Some && s[k - 1].val->0.health <= 0 {
            seq![ExperienceSpawnEvent(s[k - 1].val->0.pos)]
        } else {
            Seq::empty()
        }
    }
}

/// How one death-resolution pass changes the arena: enemies at positive
/// health stand untouched, every enemy at or below zero health is removed
/// with its handle retired, no slot appears, and every survivor has positive
/// health — so a second pass would remove nothing.
pub open spec fn death_post(pre: Arena<Triangle>, post: Arena<Triangle>) -> bool {
    &&& post.wf()
    &&& post.slots@.len() == pre.slots@.len()
    &&& forall|i: int|
        pre.slot_alive(i) && pre.at(i).health > 0 ==> post.slots@[i] == pre.slots@[i]
    &&& forall|i: int|
        pre.slot_alive(i) && pre.at(i).health <= 0
            ==> !post.slot_alive(i) && post.slots@[i].gen == pre.slots@[i].gen + 1
    &&& forall|i: int|
        0 <= i < pre.slots@.len() && !pre.slot_alive(i) ==> post.slots@[i] == pre.slots@[i]
    &&& forall|i: int| #[trigger] post.slot_alive(i) ==> post.at(i).health > 0
    &&& forall|h: Handle| post.is_alive(h) ==> pre.is_alive(h)
}

/// Death resolution: scan every enemy once; each one at or below zero health
/// is removed and emits exactly one pickup-spawn event at its last position.
/// Removal and detection are one atomic pass, so a dead enemy cannot be
/// damaged or targeted again, and a second pass would emit nothing.
pub fn check_health(enemies: &mut Arena<Triangle>, xp_events: &mut Vec<ExperienceSpawnEvent>)
    requires
        old(enemies).wf(),
        old(xp_events)@.len() <= 1_000_000_000,
        old(enemies).slots@.len() <= 1_000_000_000,
    ensures
        death_post(*old(enemies), *final(enemies)),
        final(xp_events)@ == old(xp_events)@ + deaths_upto(old(enemies).slots@,
            old(enemies).slots@.len() as int),
    {
    let ghost pre = enemies.slots@;
    let ghost pre_ev = xp_events@;
    let n = enemies.slots.len();
    let mut i: usize = 0;
    while i < n
        invariant
            old(enemies).wf(),
            pre == old(enemies).slots@,
            pre_ev == old(xp_events)@,
            pre_ev.len() <= 1_000_000_000,
            n == pre.len(),
            n <= 1_000_000_000,
            enemies.slots@.len() == n,
            i <= n,
            forall|j: int| i <= j < n ==> enemies.slots@[j] == pre[j],
            forall|j: int|
                0 <= j < i && pre[j].val is Some && pre[j].val->0.health > 0
                    ==> enemies.slots@[j] == pre[j],
            forall|j: int|
                0 <= j < i && pre[j].val is Some && pre[j].val->0.health <= 0
                    ==> (#[trigger] enemies.slots@[j]) == (Slot {
                        gen: (pre[j].gen + 1) as u64,
                        val: None::<Triangle>,
                    }),
            forall|j: int|
                0 <= j < i && pre[j].val is None ==> enemies.slots@[j] == pre[j],
            xp_events@ == pre_ev + deaths_upto(pre, i as int),
            enemies.wf(),
        decreases n - i,
    {
        let s = enemies.slots[i];
        proof {
            assert(deaths_upto(pre, i + 1).len() <= i + 1) by {
                lemma_deaths_upto_len(pre, i + 1);
            }
        }
        if s.val.is_some() {
            let t = s.val.unwrap();
            if t.health <= 0 {
                proof {
                    assert(old(enemies).slot_alive(i as int));
                }
                enemies.slots[i] = Slot { gen: s.gen + 1, val: None };
                xp_events.push(ExperienceSpawnEvent(t.pos));
                proof {
                    assert(xp_events@ =~= pre_ev + deaths_upto(pre, i + 1));
                }
            } else {
                proof {
                    assert(xp_events@ =~= pre_ev + deaths_upto(pre, i + 1));
                }
            }
        } else {
            proof {
                assert(xp_events@ =~= pre_ev + deaths_upto(pre, i + 1));
            }
        }
        i = i + 1;
    }
}

/// At most one pickup-spawn event arises per scanned slot.
pub proof fn lemma_deaths_upto_len(s: Seq<Slot<Triangle>>, k: int)
    requires
        0 <= k,
    ensures
        deaths_upto(s, k).len() <= k,
    decreases k,
{
    if k > 0 {
        lemma_deaths_upto_len(s, k - 1);
    }
}

/// Every pickup-spawn event stands at the position of an in-bounds enemy.
pub proof fn lemma_deaths_upto_bounds(s: Seq<Slot<Triangle>>, k: int)
    requires
        0 <= k <= s.len(),
        forall|j: int|
            0 <= j < s.len() && #[trigger] s[j].val is Some
                ==> s[j].val->0.pos.bounded(COORD_LIMIT as int),
    ensures
        forall|j: int|
            0 <= j < deaths_upto(s, k).len()
                ==> (#[trigger] deaths_upto(s, k)[j]).0.bounded(COORD_LIMIT as int),
    decreases k,
{
    if k > 0 {
        lemma_deaths_upto_bounds(s, k - 1);
        assert forall|j: int| 0 <= j < deaths_upto(s, k).len()
            implies (#[trigger] deaths_upto(s, k)[j]).0.bounded(COORD_LIMIT as int) by {
            if j < deaths_upto(s, k - 1).len() {
                assert(deaths_upto(s, k)[j] == deaths_upto(s, k - 1)[j]);
            } else {
                assert(deaths_upto(s, k)[j].0 == s[k - 1].val->0.pos);
            }
        }
    }
}

} // verus!
