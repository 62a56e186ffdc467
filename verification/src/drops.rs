//! Experience pickups. A pickup spawns where an enemy died, carrying a
//! randomly drawn reward tier; pickups near the player are vacuumed toward
//! it at a speed proportional to how far inside the attraction radius they
//! are, and on overlap with the player they convert into a reward-delivery
//! event.

use vstd::prelude::*;
use crate::abilities::{aabb_overlap, spec_overlap};
use crate::arena::{Arena, Handle, Slot};
use crate::config::Config;
use crate::events::{ExperienceSpawnEvent, SendExperienceEvent};
use crate::experience::{spec_value, Experience};
use crate::steering::{clamp_coord, clamp_to_world};
use crate::vec2::{
    dist_sq, floor_sqrt, isqrt, lemma_floor_sqrt, lemma_floor_sqrt_unique, norm_step, step_x,
    step_y, Vec2i, COORD_LIMIT,
};

verus! {

/// Pickups closer to the player than this default distance are attracted.
pub const DROPS_DISTANCE_THRESHOLD: i64 = 200;

/// Capacity guard on the pickup arena; far beyond anything a session
/// produces, it only exists so the arena length provably stays bounded.
pub const PICKUP_CAP: usize = 10_000;

/// One experience pickup lying in the world.
#[derive(Clone, Copy, PartialEq, Eq, Structural, Debug)]
pub struct Pickup {
    pub pos: Vec2i,
    pub xp: Experience,
}

/// The pickup stands at the position of one of the spawn events.
pub open spec fn from_events(p: Pickup, evs: Seq<ExperienceSpawnEvent>) -> bool {
    exists|k: int| 0 <= k < evs.len() && p.pos == (#[trigger] evs[k]).0
}

/// Every live pickup's position is within the coordinate limit.
pub open spec fn pickups_ok(a: Arena<Pickup>) -> bool {
    forall|i: int| #[trigger] a.slot_alive(i) ==> a.at(i).pos.bounded(COORD_LIMIT as int)
}

/// `m` lists, per event, the slot of the pickup that event produced: the
/// k-th event's pickup is live at slot `m[k]` (a fresh slot, not live
/// before) and stands exactly at that event's position; distinct events got
/// distinct slots; and every fresh pickup is one of the listed slots. So no
/// event was dropped or processed twice, and none landed anywhere but its
/// own position.
pub open spec fn spawn_matches(
    pre: Arena<Pickup>,
    post: Arena<Pickup>,
    evs: Seq<ExperienceSpawnEvent>,
    m: Seq<int>,
) -> bool {
    &&& m.len() == evs.len()
    &&& forall|k: int|
        0 <= k < m.len()
            ==> post.slot_alive(#[trigger] m[k]) && !pre.slot_alive(m[k])
                && post.at(m[k]).pos == evs[k].0
    &&& forall|k1: int, k2: int| 0 <= k1 < k2 < m.len() ==> m[k1] != m[k2]
    &&& forall|i: int|
        #![trigger post.slot_alive(i)]
        post.slot_alive(i) && !pre.slot_alive(i)
            ==> exists|k: int| 0 <= k < m.len() && (#[trigger] m[k]) == i
}

/// How one pickup-spawn pass changes the arena: previously live pickups
/// stand untouched; every fresh pickup stands at a consumed event's
/// position; and (below the formal capacity) there is an exact one-to-one
/// correspondence between events and fresh pickups, each at its own event's
/// position.
pub open spec fn pickup_spawn_post(
    pre: Arena<Pickup>,
    post: Arena<Pickup>,
    evs: Seq<ExperienceSpawnEvent>,
) -> bool {
    &&& post.wf()
    &&& (pickups_ok(pre) ==> pickups_ok(post))
    &&& post.slots@.len() <= vstd::math::max(pre.slots@.len() as int, PICKUP_CAP as int)
    &&& forall|h2: Handle|
        pre.is_alive(h2) ==> post.is_alive(h2) && post.at(h2.idx as int) == pre.at(h2.idx as int)
    &&& forall|i: int|
        post.slot_alive(i) && !pre.slot_alive(i)
            ==> from_events(#[trigger] post.at(i), evs)
    &&& pre.slots@.len() + evs.len() <= PICKUP_CAP
        ==> post.alive_count() == pre.alive_count() + evs.len()
            && exists|m: Seq<int>| spawn_matches(pre, post, evs, m)
}

/// Consume every pickup-spawn event: for each, spawn one pickup at exactly
/// the event's position with a freshly drawn reward tier, then clear the
/// buffer. Existing pickups are untouched; below the formal capacity, events
/// and fresh pickups correspond one to one. (Should the arena ever be at
/// capacity, remaining events are dropped; the capacity is far beyond real
/// sessions.)
pub fn spawn_experience(pickups: &mut Arena<Pickup>, events: &mut Vec<ExperienceSpawnEvent>)
    requires
        old(pickups).wf(),
        old(events)@.len() <= 1_000_000,
        forall|k: int|
            0 <= k < old(events)@.len()
                ==> (#[trigger] old(events)@[k]).0.bounded(COORD_LIMIT as int),
    ensures
        pickup_spawn_post(*old(pickups), *final(pickups), old(events)@),
        final(events)@.len() == 0,
{
    let n_ev = events.len();
    let ghost mut m: Seq<int> = Seq::empty();
    let mut k: usize = 0;
    while k < n_ev
        invariant
            old(pickups).wf(),
            n_ev == old(events)@.len(),
            events@ == old(events)@,
            n_ev <= 1_000_000,
            forall|k2: int|
                0 <= k2 < old(events)@.len()
                    ==> (#[trigger] old(events)@[k2]).0.bounded(COORD_LIMIT as int),
            k <= n_ev,
            pickups.wf(),
            pickups.slots@.len() <= vstd::math::max(old(pickups).slots@.len() as int,
                PICKUP_CAP as int),
            old(pickups).slots@.len() <= pickups.slots@.len(),
            old(pickups).slots@.len() + old(events)@.len() <= PICKUP_CAP
                ==> pickups.alive_count() == old(pickups).alive_count() + k
                    && pickups.slots@.len() <= old(pickups).slots@.len() + k,
            forall|i: int|
                0 <= i < old(pickups).slots@.len() && old(pickups).slot_alive(i)
                    ==> #[trigger] pickups.slots@[i] == old(pickups).slots@[i],
            forall|i: int|
                pickups.slot_alive(i) && !old(pickups).slot_alive(i)
                    ==> from_events(#[trigger] pickups.at(i), old(events)@),
            old(pickups).slots@.len() + old(events)@.len() <= PICKUP_CAP ==> {
                &&& m.len() == k
                &&& forall|k2: int|
                    0 <= k2 < m.len()
                        ==> pickups.slot_alive(#[trigger] m[k2])
                            && !old(pickups).slot_alive(m[k2])
                            && pickups.at(m[k2]).pos == old(events)@[k2].0
                &&& forall|k1: int, k2: int| 0 <= k1 < k2 < m.len() ==> m[k1] != m[k2]
                &&& forall|i: int|
                    #![trigger pickups.slot_alive(i)]
                    pickups.slot_alive(i) && !old(pickups).slot_alive(i)
                        ==> exists|k2: int| 0 <= k2 < m.len() && (#[trigger] m[k2]) == i
            },
        decreases n_ev - k,
    {
        let ev = events[k];
        if pickups.slot_count() < PICKUP_CAP {
            let ghost before = *pickups;
            let ghost m_before = m;
            let xp = Experience::generate();
            let h = pickups.insert(Pickup { pos: ev.0, xp });
            proof {
                m = m.push(h.idx as int);
                assert forall|i: int|
                    0 <= i < old(pickups).slots@.len() && old(pickups).slot_alive(i)
                        implies #[trigger] pickups.slots@[i] == old(pickups).slots@[i] by {
                    assert(before.slot_alive(i));
                    assert(i != h.idx as int);
                }
                assert forall|i: int|
                    pickups.slot_alive(i) && !old(pickups).slot_alive(i)
                        implies from_events(#[trigger] pickups.at(i), old(events)@) by {
                    if i == h.idx as int {
                        assert(pickups.at(i) == (Pickup { pos: ev.0, xp }));
                        assert(ev == old(events)@[k as int]);
                        assert(0 <= k < old(events)@.len()
                            && pickups.at(i).pos == old(events)@[k as int].0);
                    } else {
                        assert(0 <= i < before.slots@.len());
                        assert(pickups.slots@[i] == before.slots@[i]);
                        assert(before.slot_alive(i));
                        assert(pickups.at(i) == before.at(i));
                    }
                }
                if old(pickups).slots@.len() + old(events)@.len() <= PICKUP_CAP {
                    assert forall|k2: int|
                        0 <= k2 < m.len()
                            implies pickups.slot_alive(#[trigger] m[k2])
                                && !old(pickups).slot_alive(m[k2])
                                && pickups.at(m[k2]).pos == old(events)@[k2].0 by {
                        if k2 < m_before.len() {
                            assert(m[k2] == m_before[k2]);
                            assert(before.slot_alive(m_before[k2]));
                            assert(m_before[k2] != h.idx as int);
                            assert(pickups.slots@[m_before[k2]]
                                == before.slots@[m_before[k2]]);
                        } else {
                            assert(m[k2] == h.idx as int);
                            assert(pickups.at(h.idx as int) == (Pickup { pos: ev.0, xp }));
                            assert(ev == old(events)@[k as int]);
                            if old(pickups).slot_alive(h.idx as int) {
                                assert(before.slots@[h.idx as int]
                                    == old(pickups).slots@[h.idx as int]);
                            }
                        }
                    }
                    assert forall|k1: int, k2: int| 0 <= k1 < k2 < m.len()
                        implies m[k1] != m[k2] by {
                        if k2 == m_before.len() {
                            assert(m[k1] == m_before[k1]);
                            assert(before.slot_alive(m_before[k1]));
                            assert(!before.slot_alive(h.idx as int));
                        }
                    }
                    assert forall|i: int|
                        #![trigger pickups.slot_alive(i)]
                        pickups.slot_alive(i) && !old(pickups).slot_alive(i)
                            implies exists|k2: int|
                            0 <= k2 < m.len() && (#[trigger] m[k2]) == i by {
                        if i == h.idx as int {
                            assert(0 <= m.len() - 1 < m.len() && m[m.len() - 1] == i);
                        } else {
                            assert(0 <= i < before.slots@.len());
                            assert(pickups.slots@[i] == before.slots@[i]);
                            assert(before.slot_alive(i));
                            let k2 = choose|k2: int|
                                0 <= k2 < m_before.len() && (#[trigger] m_before[k2]) == i;
                            assert(m[k2] == i);
                        }
                    }
                }
            }
        }
        k = k + 1;
    }
    events.clear();
    proof {
        if pickups_ok(*old(pickups)) {
            assert forall|i2: int| pickups.slot_alive(i2)
                implies pickups.at(i2).pos.bounded(COORD_LIMIT as int) by {
                if old(pickups).slot_alive(i2) {
                    assert(pickups.slots@[i2] == old(pickups).slots@[i2]);
                } else {
                    assert(from_events(pickups.at(i2), old(events)@));
                    let k2 = choose|k2: int|
                        0 <= k2 < old(events)@.len() && pickups.at(i2).pos == (
                        #[trigger] old(events)@[k2]).0;
                    assert(old(events)@[k2].0.bounded(COORD_LIMIT as int));
                }
            }
        }
        if old(pickups).slots@.len() + old(events)@.len() <= PICKUP_CAP {
            assert(spawn_matches(*old(pickups), *final(pickups), old(events)@, m));
        }
    }
}

/// How one attraction pass changes the arena: pickups at or beyond the
/// attraction radius stand untouched; a pickup strictly inside it moved one
/// normalised step toward the player, scaled by
/// `(threshold - distance) × pull × dt / 1000` (clamped into the
/// representable range), so closer pickups move faster; and a pickup at the
/// player's exact position did not move.
pub open spec fn attract_post(
    pre: Arena<Pickup>,
    post: Arena<Pickup>,
    player_pos: Vec2i,
    cfg: Config,
    dt: int,
) -> bool {
    &&& post.wf()
    &&& pickups_ok(post)
    &&& post.slots@.len() == pre.slots@.len()
    &&& post.alive_count() == pre.alive_count()
    &&& forall|i: int|
        #![trigger post.slot_alive(i)]
        0 <= i < pre.slots@.len()
            ==> post.slot_alive(i) == pre.slot_alive(i)
                && post.slots@[i].gen == pre.slots@[i].gen
    &&& forall|i: int|
        pre.slot_alive(i) && floor_sqrt(dist_sq(pre.at(i).pos, player_pos))
            >= cfg.drops_threshold ==> post.slots@[i] == pre.slots@[i]
    &&& forall|i: int|
        pre.slot_alive(i) && floor_sqrt(dist_sq(pre.at(i).pos, player_pos))
            < cfg.drops_threshold
            ==> #[trigger] post.at(i) == (Pickup {
                pos: Vec2i {
                    x: clamp_coord(pre.at(i).pos.x + step_x(
                        Vec2i {
                            x: (player_pos.x - pre.at(i).pos.x) as i64,
                            y: (player_pos.y - pre.at(i).pos.y) as i64,
                        },
                        (cfg.drops_threshold - floor_sqrt(dist_sq(pre.at(i).pos, player_pos)))
                            * cfg.drops_pull * dt,
                        1000,
                    )) as i64,
                    y: clamp_coord(pre.at(i).pos.y + step_y(
                        Vec2i {
                            x: (player_pos.x - pre.at(i).pos.x) as i64,
                            y: (player_pos.y - pre.at(i).pos.y) as i64,
                        },
                        (cfg.drops_threshold - floor_sqrt(dist_sq(pre.at(i).pos, player_pos)))
                            * cfg.drops_pull * dt,
                        1000,
                    )) as i64,
                },
                ..pre.at(i)
            })
    &&& forall|i: int|
        pre.slot_alive(i) && pre.at(i).pos == player_pos
            ==> (#[trigger] post.at(i)).pos == player_pos
}

/// Attraction: a pickup strictly inside the attraction radius moves one step
/// toward the player, its speed proportional to `threshold - distance`, so
/// closer pickups accelerate — a vacuum effect near the player. A pickup at
/// the player's exact position does not move (its direction has zero
/// length), and pickups at or beyond the radius are untouched.
#[verifier::rlimit(50)]
pub fn move_drops(pickups: &mut Arena<Pickup>, player_pos: Vec2i, cfg: &Config, dt_ms: i64)
    requires
        old(pickups).wf(),
        cfg.wf(),
        1 <= dt_ms <= 10_000,
        pickups_ok(*old(pickups)),
        player_pos.bounded(COORD_LIMIT as int),
    ensures
        attract_post(*old(pickups), *final(pickups), player_pos, *cfg, dt_ms as int),
{
    let ghost pre = pickups.slots@;
    let n = pickups.slots.len();
    let mut i: usize = 0;
    while i < n
        invariant
            old(pickups).wf(),
            pre == old(pickups).slots@,
            cfg.wf(),
            1 <= dt_ms <= 10_000,
            pickups_ok(*old(pickups)),
            player_pos.bounded(COORD_LIMIT as int),
            n == pre.len(),
            pickups.slots@.len() == n,
            i <= n,
            forall|j: int| i <= j < n ==> pickups.slots@[j] == pre[j],
            forall|j: int|
                0 <= j < i
                    ==> (#[trigger] pickups.slots@[j].val is Some) == (pre[j].val is Some)
                        && pickups.slots@[j].gen == pre[j].gen,
            forall|j: int|
                0 <= j < i && pre[j].val is Some && floor_sqrt(dist_sq(pre[j].val->0.pos,
                    player_pos)) >= cfg.drops_threshold ==> pickups.slots@[j] == pre[j],
            forall|j: int|
                0 <= j < i && pre[j].val is Some && floor_sqrt(dist_sq(pre[j].val->0.pos,
                    player_pos)) < cfg.drops_threshold
                    ==> #[trigger] pickups.slots@[j].val == Some(Pickup {
                        pos: Vec2i {
                            x: clamp_coord(pre[j].val->0.pos.x + step_x(
                                Vec2i {
                                    x: (player_pos.x - pre[j].val->0.pos.x) as i64,
                                    y: (player_pos.y - pre[j].val->0.pos.y) as i64,
                                },
                                (cfg.drops_threshold - floor_sqrt(dist_sq(pre[j].val->0.pos,
                                    player_pos))) * cfg.drops_pull * dt_ms,
                                1000,
                            )) as i64,
                            y: clamp_coord(pre[j].val->0.pos.y + step_y(
                                Vec2i {
                                    x: (player_pos.x - pre[j].val->0.pos.x) as i64,
                                    y: (player_pos.y - pre[j].val->0.pos.y) as i64,
                                },
                                (cfg.drops_threshold - floor_sqrt(dist_sq(pre[j].val->0.pos,
                                    player_pos))) * cfg.drops_pull * dt_ms,
                                1000,
                            )) as i64,
                        },
                        ..pre[j].val->0
                    }),
        decreases n - i,
    {
        let s = pickups.slots[i];
        if s.val.is_some() {
            let p = s.val.unwrap();
            proof {
                assert(old(pickups).slot_alive(i as int));
            }
            let dxv = player_pos.x - p.pos.x;
            let dyv = player_pos.y - p.pos.y;
            proof {
                assert(0 <= dxv * dxv <= 4_000_000_000_000_000_000
                    && 0 <= dyv * dyv <= 4_000_000_000_000_000_000
                    && dxv * dxv + dyv * dyv == dist_sq(p.pos, player_pos)) by (nonlinear_arith)
                    requires
                        -2_000_000_000 <= dxv <= 2_000_000_000,
                        -2_000_000_000 <= dyv <= 2_000_000_000,
                        dxv == player_pos.x - p.pos.x,
                        dyv == player_pos.y - p.pos.y,
                ;
            }
            let d2: i64 = dxv * dxv + dyv * dyv;
            let m: i64 = isqrt(d2 as u64) as i64;
            proof {
                lemma_floor_sqrt(dist_sq(p.pos, player_pos));
                lemma_floor_sqrt_unique(d2 as int, m as int,
                    floor_sqrt(dist_sq(p.pos, player_pos)));
            }
            if m < cfg.drops_threshold {
                proof {
                    assert(1 <= (cfg.drops_threshold - m) * cfg.drops_pull <= 10_000
                        && 1 <= (cfg.drops_threshold - m) * cfg.drops_pull * dt_ms
                        <= 100_000_000) by (nonlinear_arith)
                        requires
                            1 <= cfg.drops_threshold - m <= 100_000,
                            1 <= cfg.drops_pull <= 100,
                            1 <= dt_ms <= 10_000,
                            cfg.drops_threshold * cfg.drops_pull <= 10_000,
                            m >= 0,
                            cfg.drops_threshold >= 1,
                    ;
                }
                let num: i64 = (cfg.drops_threshold - m) * cfg.drops_pull * dt_ms;
                let stp = norm_step(Vec2i { x: dxv, y: dyv }, num, 1000);
                let nx = clamp_to_world(p.pos.x + stp.x);
                let ny = clamp_to_world(p.pos.y + stp.y);
                pickups.slots[i] = Slot {
                    gen: s.gen,
                    val: Some(Pickup { pos: Vec2i { x: nx, y: ny }, xp: p.xp }),
                };
            }
        }
        i = i + 1;
    }
    proof {
        crate::arena::lemma_alive_upto_congruent(pre, pickups.slots@, n as int);
        assert forall|i2: int| 0 <= i2 < pre.len()
            implies final(pickups).slot_alive(i2) == old(pickups).slot_alive(i2)
                && final(pickups).slots@[i2].gen == old(pickups).slots@[i2].gen by {
            assert((final(pickups).slots@[i2].val is Some) == (pre[i2].val is Some));
        }
        assert forall|i2: int| final(pickups).slot_alive(i2)
            implies final(pickups).at(i2).pos.bounded(COORD_LIMIT as int) by {
            assert(old(pickups).slot_alive(i2));
        }
        assert forall|i2: int|
            old(pickups).slot_alive(i2) && old(pickups).at(i2).pos == player_pos
            implies final(pickups).at(i2).pos == player_pos by {
            crate::vec2::lemma_floor_sqrt_zero();
            crate::steering::lemma_zero_vector_zero_step(
                (cfg.drops_threshold - floor_sqrt(dist_sq(old(pickups).at(i2).pos, player_pos)))
                    * cfg.drops_pull * dt_ms,
                1000,
            );
        }
    }
}

/// The reward events produced by scanning the first `k` pickup slots: one
/// per pickup overlapping the player, carrying that pickup's tier value, in
/// slot order.
pub open spec fn collects_upto(
    s: Seq<Slot<Pickup>>,
    player_pos: Vec2i,
    cfg: Config,
    k: int,
) -> Seq<SendExperienceEvent>
    decreases k,
{
    if k <= 0 {
        Seq::empty()
    } else {
        collects_upto(s, player_pos, cfg, k - 1) + if s[k - 1].val is Some && spec_overlap(
            player_pos,
            cfg.player_hit as int,
            s[k - 1].val->0.pos,
            cfg.pickup_hit as int,
        ) {
            seq![SendExperienceEvent(spec_value(s[k - 1].val->0.xp) as u64)]
        } else {
            Seq::empty()
        }
    }
}

/// At most one reward event arises per scanned pickup slot, and every value
/// is one of the three tier values.
pub proof fn lemma_collects_upto_bounds(
    s: Seq<Slot<Pickup>>,
    player_pos: Vec2i,
    cfg: Config,
    k: int,
)
    requires
        0 <= k,
    ensures
        collects_upto(s, player_pos, cfg, k).len() <= k,
        forall|j: int|
            0 <= j < collects_upto(s, player_pos, cfg, k).len()
                ==> 1 <= (#[trigger] collects_upto(s, player_pos, cfg, k)[j]).0 <= 10_000,
    decreases k,
{
    if k > 0 {
        lemma_collects_upto_bounds(s, player_pos, cfg, k - 1);
    }
}

/// How one collection pass changes the arena: pickups overlapping the
/// player are removed with their handles retired, all others stand
/// untouched.
pub open spec fn collect_post(
    pre: Arena<Pickup>,
    post: Arena<Pickup>,
    player_pos: Vec2i,
    cfg: Config,
) -> bool {
    &&& post.wf()
    &&& pickups_ok(post)
    &&& post.slots@.len() == pre.slots@.len()
    &&& forall|i: int|
        pre.slot_alive(i) && !spec_overlap(player_pos, cfg.player_hit as int, pre.at(i).pos,
            cfg.pickup_hit as int) ==> post.slots@[i] == pre.slots@[i]
    &&& forall|i: int|
        pre.slot_alive(i) && spec_overlap(player_pos, cfg.player_hit as int, pre.at(i).pos,
            cfg.pickup_hit as int)
            ==> !post.slot_alive(i) && post.slots@[i].gen == pre.slots@[i].gen + 1
    &&& forall|i: int|
        0 <= i < pre.slots@.len() && !pre.slot_alive(i) ==> post.slots@[i] == pre.slots@[i]
}

/// Collection: every pickup whose hit region overlaps the player's is
/// consumed — removed from the world, with one reward-delivery event
/// carrying its tier's value appended in slot order. The reward is not
/// applied here; the progression consumer decides levelling.
pub fn player_collect(
    pickups: &mut Arena<Pickup>,
    player_pos: Vec2i,
    rewards: &mut Vec<SendExperienceEvent>,
    cfg: &Config,
)
    requires
        old(pickups).wf(),
        cfg.wf(),
        pickups_ok(*old(pickups)),
        player_pos.bounded(COORD_LIMIT as int),
        old(rewards)@.len() <= 1_000_000_000,
        old(pickups).slots@.len() <= 1_000_000_000,
    ensures
        collect_post(*old(pickups), *final(pickups), player_pos, *cfg),
        final(rewards)@ == old(rewards)@ + collects_upto(old(pickups).slots@, player_pos, *cfg,
            old(pickups).slots@.len() as int),
{
    let ghost pre = pickups.slots@;
    let ghost pre_ev = rewards@;
    let n = pickups.slots.len();
    let mut i: usize = 0;
    while i < n
        invariant
            old(pickups).wf(),
            pre == old(pickups).slots@,
            pre_ev == old(rewards)@,
            cfg.wf(),
            pickups_ok(*old(pickups)),
            player_pos.bounded(COORD_LIMIT as int),
            n == pre.len(),
            pickups.slots@.len() == n,
            i <= n,
            pickups.wf(),
            forall|j: int| i <= j < n ==> pickups.slots@[j] == pre[j],
            forall|j: int|
                0 <= j < i && pre[j].val is Some && !spec_overlap(player_pos,
                    cfg.player_hit as int, pre[j].val->0.pos, cfg.pickup_hit as int)
                    ==> pickups.slots@[j] == pre[j],
            forall|j: int|
                0 <= j < i && pre[j].val is Some && spec_overlap(player_pos,
                    cfg.player_hit as int, pre[j].val->0.pos, cfg.pickup_hit as int)
                    ==> (#[trigger] pickups.slots@[j]) == (Slot {
                        gen: (pre[j].gen + 1) as u64,
                        val: None::<Pickup>,
                    }),
            forall|j: int| 0 <= j < i && pre[j].val is None ==> pickups.slots@[j] == pre[j],
            rewards@ == pre_ev + collects_upto(pre, player_pos, *cfg, i as int),
        decreases n - i,
    {
        let s = pickups.slots[i];
        if s.val.is_some() {
            let p = s.val.unwrap();
            proof {
                assert(old(pickups).slot_alive(i as int));
            }
            if aabb_overlap(player_pos, cfg.player_hit, p.pos, cfg.pickup_hit) {
                pickups.slots[i] = Slot { gen: s.gen + 1, val: None };
                let v = p.xp.value();
                rewards.push(SendExperienceEvent(v));
                proof {
                    assert(rewards@ =~= pre_ev + collects_upto(pre, player_pos, *cfg, i + 1));
                }
            } else {
                proof {
                    assert(rewards@ =~= pre_ev + collects_upto(pre, player_pos, *cfg, i + 1));
                }
            }
        } else {
            proof {
                assert(rewards@ =~= pre_ev + collects_upto(pre, player_pos, *cfg, i + 1));
            }
        }
        i = i + 1;
    }
    proof {
        assert forall|i2: int| final(pickups).slot_alive(i2)
            implies final(pickups).at(i2).pos.bounded(COORD_LIMIT as int) by {
            assert(old(pickups).slot_alive(i2));
        }
    }
}

} // verus!
