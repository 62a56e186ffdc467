//! The spatial steering engine. Each tick, every horde enemy accumulates a
//! seek contribution toward the player and pairwise repulsion away from
//! nearby enemies, then integrates one normalised movement step and refills
//! its accumulator with fresh noise. Seek and avoidance both write into the
//! accumulator before any enemy moves, so the repulsion stays symmetric.

use vstd::prelude::*;
use crate::arena::{Arena, Slot};
use crate::config::Config;
use crate::enemies::{HordeMover, Triangle};
use crate::rng::draw_in;
use crate::vec2::{
    dist_sq, div_trunc, floor_sqrt, is_floor_sqrt, isqrt, lemma_floor_sqrt,
    lemma_floor_sqrt_unique, lemma_tdiv_bounds, norm_step, step_x, step_y, tdiv, Vec2i,
    ACCUM_LIMIT, COORD_LIMIT,
};

verus! {

/// Bound on a movement accumulator before seek runs (fresh noise is within
/// 100 of zero; a little slack is allowed).
pub const NOISE_LIMIT: i64 = 1_000;

/// Bound on a movement accumulator after the seek contribution.
pub const SEEK_LIMIT: i64 = 2_000_001_000;

/// Bound on one repulsion contribution per enemy pair.
pub const REP_LIMIT: i64 = 75_000;

/// Every live enemy's accumulator components are within `lim`.
pub open spec fn movers_bounded(a: Arena<Triangle>, lim: int) -> bool {
    forall|i: int| #[trigger] a.slot_alive(i) ==> a.at(i).mover.dxdy.bounded(lim)
}

/// Every live enemy's position components are within the coordinate limit.
pub open spec fn positions_bounded(a: Arena<Triangle>) -> bool {
    forall|i: int| #[trigger] a.slot_alive(i) ==> a.at(i).pos.bounded(COORD_LIMIT as int)
}

/// How the seek pass changes the arena: every live enemy's accumulator has
/// received exactly `enemy position - player position`, nothing else about
/// any slot moved, and the accumulators stay within the post-seek bound.
pub open spec fn seek_post(pre: Arena<Triangle>, post: Arena<Triangle>, player_pos: Vec2i) -> bool {
    &&& post.wf()
    &&& post.slots@.len() == pre.slots@.len()
    &&& post.alive_count() == pre.alive_count()
    &&& forall|i: int|
        #![trigger post.slot_alive(i)]
        0 <= i < pre.slots@.len()
            ==> post.slot_alive(i) == pre.slot_alive(i)
                && post.slots@[i].gen == pre.slots@[i].gen
    &&& forall|i: int|
        pre.slot_alive(i)
            ==> #[trigger] post.at(i) == (Triangle {
                mover: HordeMover {
                    dxdy: Vec2i {
                        x: (pre.at(i).mover.dxdy.x + pre.at(i).pos.x - player_pos.x) as i64,
                        y: (pre.at(i).mover.dxdy.y + pre.at(i).pos.y - player_pos.y) as i64,
                    },
                },
                ..pre.at(i)
            })
    &&& movers_bounded(post, SEEK_LIMIT as int)
    &&& positions_bounded(post)
}

/// Accumulate the seek contribution `enemy position - player position` into
/// every live enemy's movement accumulator. Used as a movement delta that is
/// later *subtracted* from the position, this nets movement toward the
/// player. Nothing else changes.
pub fn direction_to_player(enemies: &mut Arena<Triangle>, player_pos: Vec2i)
    requires
        old(enemies).wf(),
        movers_bounded(*old(enemies), NOISE_LIMIT as int),
        positions_bounded(*old(enemies)),
        player_pos.bounded(COORD_LIMIT as int),
    ensures
        seek_post(*old(enemies), *final(enemies), player_pos),
{
    let ghost pre = enemies.slots@;
    let n = enemies.slots.len();
    let mut i: usize = 0;
    while i < n
        invariant
            old(enemies).wf(),
            pre == old(enemies).slots@,
            movers_bounded(*old(enemies), NOISE_LIMIT as int),
            positions_bounded(*old(enemies)),
            player_pos.bounded(COORD_LIMIT as int),
            n == pre.len(),
            enemies.slots@.len() == n,
            i <= n,
            forall|j: int| i <= j < n ==> enemies.slots@[j] == pre[j],
            forall|j: int|
                0 <= j < i
                    ==> (#[trigger] enemies.slots@[j].val is Some) == (pre[j].val is Some)
                        && enemies.slots@[j].gen == pre[j].gen,
            forall|j: int|
                0 <= j < i && pre[j].val is Some
                    ==> #[trigger] enemies.slots@[j].val == Some(Triangle {
                        mover: HordeMover {
                            dxdy: Vec2i {
                                x: (pre[j].val->0.mover.dxdy.x + pre[j].val->0.pos.x
                                    - player_pos.x) as i64,
                                y: (pre[j].val->0.mover.dxdy.y + pre[j].val->0.pos.y
                                    - player_pos.y) as i64,
                            },
                        },
                        ..pre[j].val->0
                    }),
        decreases n - i,
    {
        let s = enemies.slots[i];
        if s.val.is_some() {
            let t = s.val.unwrap();
            proof {
                assert(old(enemies).slot_alive(i as int));
            }
            let mx = t.mover.dxdy.x + t.pos.x - player_pos.x;
            let my = t.mover.dxdy.y + t.pos.y - player_pos.y;
            enemies.slots[i] = Slot {
                gen: s.gen,
                val: Some(Triangle {
                    pos: t.pos,
                    mover: HordeMover { dxdy: Vec2i { x: mx, y: my } },
                    health: t.health,
                    targetable: t.targetable,
                }),
            };
        }
        i = i + 1;
    }
    proof {
        crate::arena::lemma_alive_upto_congruent(pre, enemies.slots@, n as int);
        assert forall|i2: int| final(enemies).slot_alive(i2)
            implies final(enemies).at(i2).mover.dxdy.bounded(SEEK_LIMIT as int) by {
            assert(old(enemies).slot_alive(i2));
        }
        assert forall|i2: int| final(enemies).slot_alive(i2)
            implies final(enemies).at(i2).pos.bounded(COORD_LIMIT as int) by {
            assert(old(enemies).slot_alive(i2));
        }
    }
}

/// Clamping a coordinate into the representable world range. The playable
/// world is orders of magnitude smaller than the limit, so in practice the
/// clamp never fires; it exists so that positions provably stay bounded.
pub open spec fn clamp_coord(x: int) -> int {
    if x < -COORD_LIMIT {
        -COORD_LIMIT as int
    } else if x > COORD_LIMIT {
        COORD_LIMIT as int
    } else {
        x
    }
}

/// Clamp one coordinate into `[-COORD_LIMIT, COORD_LIMIT]`.
pub fn clamp_to_world(x: i64) -> (r: i64)
    ensures
        r == clamp_coord(x as int),
{
    if x < -COORD_LIMIT {
        -COORD_LIMIT
    } else if x > COORD_LIMIT {
        COORD_LIMIT
    } else {
        x
    }
}

/// How the integration pass changes the arena: every live enemy moved one
/// normalised step of scale `speed × dt / 1000` against its accumulator
/// (clamped into the representable range), health and targetability stand,
/// and the accumulator was refilled with noise within 100 of zero. An enemy
/// whose accumulator was zero did not move.
pub open spec fn integrate_post(
    pre: Arena<Triangle>,
    post: Arena<Triangle>,
    cfg: Config,
    dt: int,
) -> bool {
    &&& post.wf()
    &&& post.slots@.len() == pre.slots@.len()
    &&& post.alive_count() == pre.alive_count()
    &&& forall|i: int|
        #![trigger post.slot_alive(i)]
        0 <= i < pre.slots@.len()
            ==> post.slot_alive(i) == pre.slot_alive(i)
                && post.slots@[i].gen == pre.slots@[i].gen
    &&& forall|i: int|
        pre.slot_alive(i)
            ==> (#[trigger] post.at(i)).pos == (Vec2i {
                x: clamp_coord(pre.at(i).pos.x - step_x(pre.at(i).mover.dxdy,
                    cfg.enemy_speed * dt, 1000)) as i64,
                y: clamp_coord(pre.at(i).pos.y - step_y(pre.at(i).mover.dxdy,
                    cfg.enemy_speed * dt, 1000)) as i64,
            })
                && post.at(i).health == pre.at(i).health
                && post.at(i).targetable == pre.at(i).targetable
                && post.at(i).mover.dxdy.bounded(100)
    &&& forall|i: int|
        pre.slot_alive(i) && pre.at(i).mover.dxdy == (Vec2i { x: 0, y: 0 })
            ==> (#[trigger] post.at(i)).pos == pre.at(i).pos
    &&& movers_bounded(post, NOISE_LIMIT as int)
    &&& positions_bounded(post)
}

/// Integrate movement: every live enemy moves one normalised step of length
/// about `speed × dt` *against* its accumulated vector (netting movement
/// toward the player), and the accumulator is refilled with fresh noise in
/// `[-100, 100]` per axis for the next tick. An enemy whose accumulator is
/// zero does not move at all.
pub fn move_triangle(enemies: &mut Arena<Triangle>, cfg: &Config, dt_ms: i64)
    requires
        old(enemies).wf(),
        cfg.wf(),
        1 <= dt_ms <= 10_000,
        movers_bounded(*old(enemies), ACCUM_LIMIT as int),
        positions_bounded(*old(enemies)),
    ensures
        integrate_post(*old(enemies), *final(enemies), *cfg, dt_ms as int),
{
    let ghost pre = enemies.slots@;
    let n = enemies.slots.len();
    proof {
        assert(1 <= cfg.enemy_speed * dt_ms <= 100_000_000) by (nonlinear_arith)
            requires
                1 <= cfg.enemy_speed <= 10_000,
                1 <= dt_ms <= 10_000,
        ;
    }
    let num: i64 = cfg.enemy_speed * dt_ms;
    let mut i: usize = 0;
    while i < n
        invariant
            old(enemies).wf(),
            pre == old(enemies).slots@,
            cfg.wf(),
            1 <= dt_ms <= 10_000,
            num == cfg.enemy_speed * dt_ms,
            1 <= num <= 100_000_000,
            movers_bounded(*old(enemies), ACCUM_LIMIT as int),
            positions_bounded(*old(enemies)),
            n == pre.len(),
            enemies.slots@.len() == n,
            i <= n,
            forall|j: int| i <= j < n ==> enemies.slots@[j] == pre[j],
            forall|j: int|
                0 <= j < i
                    ==> (#[trigger] enemies.slots@[j].val is Some) == (pre[j].val is Some)
                        && enemies.slots@[j].gen == pre[j].gen,
            forall|j: int|
                0 <= j < i && pre[j].val is Some
                    ==> (#[trigger] enemies.slots@[j].val->0).pos == (Vec2i {
                        x: clamp_coord(pre[j].val->0.pos.x - step_x(pre[j].val->0.mover.dxdy,
                            num as int, 1000)) as i64,
                        y: clamp_coord(pre[j].val->0.pos.y - step_y(pre[j].val->0.mover.dxdy,
                            num as int, 1000)) as i64,
                    })
                    && enemies.slots@[j].val->0.health == pre[j].val->0.health
                    && enemies.slots@[j].val->0.targetable == pre[j].val->0.targetable
                    && enemies.slots@[j].val->0.mover.dxdy.bounded(100),
        decreases n - i,
    {
        let s = enemies.slots[i];
        if s.val.is_some() {
            let t = s.val.unwrap();
            proof {
                assert(old(enemies).slot_alive(i as int));
            }
            let stp = norm_step(t.mover.dxdy, num, 1000);
            let nx = clamp_to_world(t.pos.x - stp.x);
            let ny = clamp_to_world(t.pos.y - stp.y);
            let mut mover = t.mover;
            mover.noise();
            enemies.slots[i] = Slot {
                gen: s.gen,
                val: Some(Triangle {
                    pos: Vec2i { x: nx, y: ny },
                    mover,
                    health: t.health,
                    targetable: t.targetable,
                }),
            };
        }
        i = i + 1;
    }
    proof {
        crate::arena::lemma_alive_upto_congruent(pre, enemies.slots@, n as int);
        assert forall|i2: int| final(enemies).slot_alive(i2)
            implies final(enemies).at(i2).mover.dxdy.bounded(NOISE_LIMIT as int)
                && final(enemies).at(i2).pos.bounded(COORD_LIMIT as int) by {
            assert(old(enemies).slot_alive(i2));
        }
        assert forall|i2: int|
            old(enemies).slot_alive(i2)
                && old(enemies).at(i2).mover.dxdy == (Vec2i { x: 0, y: 0 })
            implies final(enemies).at(i2).pos == old(enemies).at(i2).pos by {
            lemma_floor_sqrt(0);
            lemma_floor_sqrt_unique(0, 0, floor_sqrt(0));
        }
    }
}

/// The repulsion weight of a pair of enemies: how far inside the repulsion
/// radius (`1.5 × enemy size`) they stand. Positive only within the radius.
pub open spec fn rep_weight(a: Vec2i, b: Vec2i, cfg: Config) -> int {
    cfg.repulse_radius() - floor_sqrt(dist_sq(a, b))
}

/// The x component of the repulsion contribution to the accumulator of the
/// enemy at `a` from the enemy at `b`: away from `b`, proportional to the
/// weight times the avoidance coefficient. Zero outside the radius, and also
/// zero for exactly coincident enemies (their difference vector is zero), so
/// a coincident pair is simply skipped for the tick rather than nudged.
pub open spec fn rep_dx(a: Vec2i, b: Vec2i, cfg: Config) -> int {
    if rep_weight(a, b, cfg) > 0 {
        -tdiv((a.x - b.x) * rep_weight(a, b, cfg) * cfg.enemy_avoid_num, cfg.enemy_avoid_den as int)
    } else {
        0
    }
}

/// The y component of the repulsion contribution to `a` from `b`.
pub open spec fn rep_dy(a: Vec2i, b: Vec2i, cfg: Config) -> int {
    if rep_weight(a, b, cfg) > 0 {
        -tdiv((a.y - b.y) * rep_weight(a, b, cfg) * cfg.enemy_avoid_num, cfg.enemy_avoid_den as int)
    } else {
        0
    }
}

/// Total x repulsion on the enemy in slot `i` from the live enemies in the
/// first `k` slots (other than itself).
pub open spec fn rep_sum_x(s: Seq<Slot<Triangle>>, i: int, k: int, cfg: Config) -> int
    decreases k,
{
    if k <= 0 {
        0
    } else {
        rep_sum_x(s, i, k - 1, cfg) + if k - 1 != i && s[k - 1].val is Some {
            rep_dx(s[i].val->0.pos, s[k - 1].val->0.pos, cfg)
        } else {
            0int
        }
    }
}

/// Total y repulsion on the enemy in slot `i` from the first `k` slots.
pub open spec fn rep_sum_y(s: Seq<Slot<Triangle>>, i: int, k: int, cfg: Config) -> int
    decreases k,
{
    if k <= 0 {
        0
    } else {
        rep_sum_y(s, i, k - 1, cfg) + if k - 1 != i && s[k - 1].val is Some {
            rep_dy(s[i].val->0.pos, s[k - 1].val->0.pos, cfg)
        } else {
            0int
        }
    }
}

/// One pair's repulsion contribution is bounded: the difference vector is
/// componentwise below the repulsion radius whenever the weight is positive,
/// and the well-formedness bound on the avoidance coefficient caps the
/// scaled product.
pub proof fn lemma_rep_bound(a: Vec2i, b: Vec2i, cfg: Config)
    requires
        cfg.wf(),
        a.bounded(COORD_LIMIT as int),
        b.bounded(COORD_LIMIT as int),
    ensures
        -REP_LIMIT <= rep_dx(a, b, cfg) <= REP_LIMIT,
        -REP_LIMIT <= rep_dy(a, b, cfg) <= REP_LIMIT,
{
    let w = rep_weight(a, b, cfg);
    if w > 0 {
        let d2 = dist_sq(a, b);
        assert(0 <= (a.x - b.x) * (a.x - b.x) && 0 <= (a.y - b.y) * (a.y - b.y))
            by (nonlinear_arith);
        lemma_floor_sqrt(d2);
        let m = floor_sqrt(d2);
        let rad = cfg.repulse_radius();
        assert(m < rad);
        lemma_rep_component_bound(a.x - b.x, d2, m, w, cfg);
        lemma_rep_component_bound(a.y - b.y, d2, m, w, cfg);
    }
}

/// One scaled, truncated repulsion component is within `REP_LIMIT`.
proof fn lemma_rep_component_bound(c: int, d2: int, m: int, w: int, cfg: Config)
    requires
        cfg.wf(),
        0 <= d2,
        c * c <= d2,
        is_floor_sqrt(d2, m),
        w == cfg.repulse_radius() - m,
        w > 0,
    ensures
        -REP_LIMIT <= -tdiv(c * w * cfg.enemy_avoid_num, cfg.enemy_avoid_den as int) <= REP_LIMIT,
{
    let rad = cfg.repulse_radius();
    let n = cfg.enemy_avoid_num as int;
    let den = cfg.enemy_avoid_den as int;
    let s3 = 3 * cfg.enemy_size as int;
    assert(0 <= s3 / 2 && 2 * (s3 / 2) <= s3);
    assert(-m <= c <= m) by (nonlinear_arith)
        requires
            c * c <= d2,
            d2 < (m + 1) * (m + 1),
            0 <= m,
    ;
    assert(rad * rad * n <= 75_000 * den) by (nonlinear_arith)
        requires
            0 <= 2 * rad <= 3 * (cfg.enemy_size as int),
            2 <= cfg.enemy_size <= 10_000,
            1 <= n,
            1 <= den,
            3 * (cfg.enemy_size as int) * (cfg.enemy_size as int) * n <= 100_000 * den,
    ;
    assert(-(rad * rad * n) <= c * w * n <= rad * rad * n) by (nonlinear_arith)
        requires
            -m <= c <= m,
            0 <= m < rad,
            0 < w <= rad,
            1 <= n,
    ;
    lemma_tdiv_bounds(c * w * n, den);
    if c * w * n >= 0 {
        assert(tdiv(c * w * n, den) == (c * w * n) / den);
        assert((c * w * n) / den <= 75_000) by (nonlinear_arith)
            requires
                0 <= c * w * n <= 75_000 * den,
                1 <= den,
        ;
    } else {
        let p = -(c * w * n);
        assert(tdiv(c * w * n, den) == -(p / den));
        assert(p / den <= 75_000) by (nonlinear_arith)
            requires
                0 <= p <= 75_000 * den,
                1 <= den,
        ;
    }
}

/// A sum of `k` bounded contributions is bounded by `k` times the bound.
pub proof fn lemma_rep_sum_bound(s: Seq<Slot<Triangle>>, i: int, k: int, cfg: Config)
    requires
        cfg.wf(),
        0 <= k <= s.len(),
        0 <= i < s.len(),
        s[i].val is Some,
        s[i].val->0.pos.bounded(COORD_LIMIT as int),
        forall|j: int|
            0 <= j < s.len() && #[trigger] s[j].val is Some
                ==> s[j].val->0.pos.bounded(COORD_LIMIT as int),
    ensures
        -k * REP_LIMIT <= rep_sum_x(s, i, k, cfg) <= k * REP_LIMIT,
        -k * REP_LIMIT <= rep_sum_y(s, i, k, cfg) <= k * REP_LIMIT,
    decreases k,
{
    if k > 0 {
        lemma_rep_sum_bound(s, i, k - 1, cfg);
        if k - 1 != i && s[k - 1].val is Some {
            lemma_rep_bound(s[i].val->0.pos, s[k - 1].val->0.pos, cfg);
        }
        assert((k - 1) * REP_LIMIT + REP_LIMIT == k * REP_LIMIT) by (nonlinear_arith);
    }
}

/// Newton's third law of the repulsion rule: the contribution to `b` from
/// `a` is exactly the negation of the contribution to `a` from `b`.
pub proof fn lemma_rep_antisymmetric(a: Vec2i, b: Vec2i, cfg: Config)
    requires
        cfg.wf(),
    ensures
        rep_dx(b, a, cfg) == -rep_dx(a, b, cfg),
        rep_dy(b, a, cfg) == -rep_dy(a, b, cfg),
{
    assert((b.x - a.x) * (b.x - a.x) == (a.x - b.x) * (a.x - b.x)
        && (b.y - a.y) * (b.y - a.y) == (a.y - b.y) * (a.y - b.y)) by (nonlinear_arith);
    assert(dist_sq(b, a) == dist_sq(a, b));
    let w = rep_weight(a, b, cfg);
    assert(rep_weight(b, a, cfg) == w);
    if w > 0 {
        let n = cfg.enemy_avoid_num as int;
        let den = cfg.enemy_avoid_den as int;
        assert((b.x - a.x) * w * n == -((a.x - b.x) * w * n)) by (nonlinear_arith);
        assert((b.y - a.y) * w * n == -((a.y - b.y) * w * n)) by (nonlinear_arith);
        lemma_tdiv_bounds((a.x - b.x) * w * n, den);
        lemma_tdiv_bounds((a.y - b.y) * w * n, den);
    }
}

/// Pairwise repulsion: every live enemy's accumulator receives the summed
/// repulsion contributions from every other live enemy, each contribution
/// pushing the pair apart symmetrically. Positions, health, targetability
/// and entity identity are untouched; the accumulators stay within the
/// integration bound.
/// How the repulsion pass changes the arena: every live enemy's accumulator
/// has received exactly the summed repulsion contributions from every other
/// live enemy, nothing else about any slot moved, and the accumulators stay
/// within the integration bound.
pub open spec fn avoid_post(pre: Arena<Triangle>, post: Arena<Triangle>, cfg: Config) -> bool {
    &&& post.wf()
    &&& post.slots@.len() == pre.slots@.len()
    &&& post.alive_count() == pre.alive_count()
    &&& forall|i: int|
        #![trigger post.slot_alive(i)]
        0 <= i < pre.slots@.len()
            ==> post.slot_alive(i) == pre.slot_alive(i)
                && post.slots@[i].gen == pre.slots@[i].gen
    &&& forall|i: int|
        pre.slot_alive(i)
            ==> #[trigger] post.at(i) == (Triangle {
                mover: HordeMover {
                    dxdy: Vec2i {
                        x: (pre.at(i).mover.dxdy.x + rep_sum_x(pre.slots@, i,
                            pre.slots@.len() as int, cfg)) as i64,
                        y: (pre.at(i).mover.dxdy.y + rep_sum_y(pre.slots@, i,
                            pre.slots@.len() as int, cfg)) as i64,
                    },
                },
                ..pre.at(i)
            })
    &&& movers_bounded(post, ACCUM_LIMIT as int)
    &&& positions_bounded(post)
}

pub fn avoid_other_triangles(enemies: &mut Arena<Triangle>, cfg: &Config)
    requires
        old(enemies).wf(),
        cfg.wf(),
        old(enemies).slots@.len() <= 1_000,
        movers_bounded(*old(enemies), SEEK_LIMIT as int),
        positions_bounded(*old(enemies)),
    ensures
        avoid_post(*old(enemies), *final(enemies), *cfg),
{
    let ghost pre = enemies.slots@;
    let n = enemies.slots.len();
    let mut i: usize = 0;
    while i < n
        invariant
            old(enemies).wf(),
            pre == old(enemies).slots@,
            cfg.wf(),
            n == pre.len(),
            n <= 1_000,
            movers_bounded(*old(enemies), SEEK_LIMIT as int),
            positions_bounded(*old(enemies)),
            enemies.slots@.len() == n,
            i <= n,
            forall|j: int| i <= j < n ==> enemies.slots@[j] == pre[j],
            forall|j: int|
                0 <= j < n
                    ==> (#[trigger] enemies.slots@[j].val is Some) == (pre[j].val is Some)
                        && enemies.slots@[j].gen == pre[j].gen,
            forall|j: int|
                0 <= j < n && pre[j].val is Some
                    ==> (#[trigger] enemies.slots@[j].val->0).pos == pre[j].val->0.pos,
            forall|j: int|
                0 <= j < i && pre[j].val is Some
                    ==> #[trigger] enemies.slots@[j].val == Some(Triangle {
                        mover: HordeMover {
                            dxdy: Vec2i {
                                x: (pre[j].val->0.mover.dxdy.x + rep_sum_x(pre, j, n as int,
                                    *cfg)) as i64,
                                y: (pre[j].val->0.mover.dxdy.y + rep_sum_y(pre, j, n as int,
                                    *cfg)) as i64,
                            },
                        },
                        ..pre[j].val->0
                    }),
        decreases n - i,
    {
        let s = enemies.slots[i];
        if s.val.is_some() {
            let t = s.val.unwrap();
            proof {
                assert(old(enemies).slot_alive(i as int));
            }
            let radius = div_trunc(3 * cfg.enemy_size, 2);
            let mut del_x: i64 = 0;
            let mut del_y: i64 = 0;
            let mut j: usize = 0;
            while j < n
                invariant
                    old(enemies).wf(),
                    pre == old(enemies).slots@,
                    cfg.wf(),
                    n == pre.len(),
                    n <= 1_000,
                    positions_bounded(*old(enemies)),
                    enemies.slots@.len() == n,
                    i < n,
                    j <= n,
                    pre[i as int].val is Some,
                    t == pre[i as int].val->0,
                    t.pos.bounded(COORD_LIMIT as int),
                    radius == cfg.repulse_radius(),
                    0 <= radius <= 15_000,
                    forall|j2: int|
                        0 <= j2 < n
                            ==> (#[trigger] enemies.slots@[j2].val is Some) == (pre[j2].val
                            is Some),
                    forall|j2: int|
                        0 <= j2 < n && pre[j2].val is Some
                            ==> (#[trigger] enemies.slots@[j2].val->0).pos == pre[j2].val->0.pos,
                    del_x == rep_sum_x(pre, i as int, j as int, *cfg),
                    del_y == rep_sum_y(pre, i as int, j as int, *cfg),
                    -(j as int) * REP_LIMIT <= del_x <= (j as int) * REP_LIMIT,
                    -(j as int) * REP_LIMIT <= del_y <= (j as int) * REP_LIMIT,
                decreases n - j,
            {
                let other = enemies.slots[j];
                if j != i && other.val.is_some() {
                    let t2 = other.val.unwrap();
                    proof {
                        assert(old(enemies).slot_alive(j as int));
                        assert(t2.pos == pre[j as int].val->0.pos);
                    }
                    let dxv = t.pos.x - t2.pos.x;
                    let dyv = t.pos.y - t2.pos.y;
                    proof {
                        assert(0 <= dxv * dxv <= 4_000_000_000_000_000_000
                            && 0 <= dyv * dyv <= 4_000_000_000_000_000_000
                            && dxv * dxv <= dist_sq(t.pos, t2.pos)
                            && dyv * dyv <= dist_sq(t.pos, t2.pos)) by (nonlinear_arith)
                            requires
                                -2_000_000_000 <= dxv <= 2_000_000_000,
                                -2_000_000_000 <= dyv <= 2_000_000_000,
                                dxv == t.pos.x - t2.pos.x,
                                dyv == t.pos.y - t2.pos.y,
                        ;
                    }
                    let d2: i64 = dxv * dxv + dyv * dyv;
                    let m64: u64 = isqrt(d2 as u64);
                    proof {
                        lemma_floor_sqrt(dist_sq(t.pos, t2.pos));
                        lemma_floor_sqrt_unique(d2 as int, m64 as int,
                            floor_sqrt(dist_sq(t.pos, t2.pos)));
                    }
                    let m: i64 = m64 as i64;
                    if m < radius {
                        let w = radius - m;
                        proof {
                            assert(-m <= dxv <= m && -m <= dyv <= m) by (nonlinear_arith)
                                requires
                                    dxv * dxv <= d2,
                                    dyv * dyv <= d2,
                                    (d2 as int) < (m + 1) * (m + 1),
                                    0 <= m,
                            ;
                            assert(-225_000_000 <= dxv * w <= 225_000_000
                                && -225_000_000 <= dyv * w <= 225_000_000) by (nonlinear_arith)
                                requires
                                    -m <= dxv <= m,
                                    -m <= dyv <= m,
                                    0 <= m < radius,
                                    0 < w <= radius,
                                    radius <= 15_000,
                            ;
                            assert(-22_500_000_000 <= dxv * w * cfg.enemy_avoid_num
                                <= 22_500_000_000
                                && -22_500_000_000 <= dyv * w * cfg.enemy_avoid_num
                                <= 22_500_000_000) by (nonlinear_arith)
                                requires
                                    -225_000_000 <= dxv * w <= 225_000_000,
                                    -225_000_000 <= dyv * w <= 225_000_000,
                                    1 <= cfg.enemy_avoid_num <= 100,
                            ;
                        }
                        let cx = div_trunc(dxv * w * cfg.enemy_avoid_num, cfg.enemy_avoid_den);
                        let cy = div_trunc(dyv * w * cfg.enemy_avoid_num, cfg.enemy_avoid_den);
                        proof {
                            lemma_rep_bound(t.pos, t2.pos, *cfg);
                            assert(rep_dx(t.pos, t2.pos, *cfg) == -(cx as int));
                            assert(rep_dy(t.pos, t2.pos, *cfg) == -(cy as int));
                        }
                        del_x = del_x - cx;
                        del_y = del_y - cy;
                    } else {
                        proof {
                            assert(rep_weight(t.pos, t2.pos, *cfg) <= 0);
                        }
                    }
                }
                j = j + 1;
            }
            enemies.slots[i] = Slot {
                gen: s.gen,
                val: Some(Triangle {
                    pos: t.pos,
                    mover: HordeMover { dxdy: Vec2i { x: t.mover.dxdy.x + del_x,
                        y: t.mover.dxdy.y + del_y } },
                    health: t.health,
                    targetable: t.targetable,
                }),
            };
        }
        i = i + 1;
    }
    proof {
        crate::arena::lemma_alive_upto_congruent(pre, enemies.slots@, n as int);
        assert forall|j: int| 0 <= j < pre.len() && #[trigger] pre[j].val is Some
            implies pre[j].val->0.pos.bounded(COORD_LIMIT as int) by {
            assert(old(enemies).slot_alive(j));
        }
        assert forall|i2: int| final(enemies).slot_alive(i2)
            implies final(enemies).at(i2).mover.dxdy.bounded(ACCUM_LIMIT as int)
                && final(enemies).at(i2).pos.bounded(COORD_LIMIT as int) by {
            assert(old(enemies).slot_alive(i2));
            lemma_rep_sum_bound(pre, i2, n as int, *cfg);
        }
    }
}

/// What a freshly spawned horde enemy looks like: full health, a zeroed
/// accumulator, not yet targetable (reclassification runs before any
/// targeting), and standing on a ring of the spawn radius around the player
/// (up to integer rounding of the ring point).
pub open spec fn fresh_spawn(t: Triangle, player_pos: Vec2i, radius: int, cfg: Config) -> bool {
    &&& t.health == cfg.enemy_health
    &&& t.mover.dxdy == (Vec2i { x: 0, y: 0 })
    &&& !t.targetable
    &&& radius * radius - 2 * radius - 1 <= dist_sq(t.pos, player_pos) <= radius * radius
    &&& t.pos.bounded(COORD_LIMIT as int)
}

/// How the spawner changes the arena: above the population cap (or the
/// arena's formal capacity) nothing changed; otherwise a batch of fresh
/// enemies on the spawn ring joined, with every previously live enemy
/// untouched and the live count grown by exactly the batch size.
pub open spec fn spawn_post(
    pre: Arena<Triangle>,
    post: Arena<Triangle>,
    player_pos: Vec2i,
    radius: int,
    cfg: Config,
) -> bool {
    &&& post.wf()
    &&& pre.alive_count() > cfg.enemy_cap || pre.slots@.len() + cfg.spawn_batch > 1_000
        ==> post.slots@ == pre.slots@
    &&& pre.alive_count() <= cfg.enemy_cap && pre.slots@.len() + cfg.spawn_batch <= 1_000
        ==> post.alive_count() == pre.alive_count() + cfg.spawn_batch
    &&& post.slots@.len() <= vstd::math::max(pre.slots@.len() as int, 1_000)
    &&& forall|h2: crate::arena::Handle|
        pre.is_alive(h2) ==> post.is_alive(h2) && post.at(h2.idx as int) == pre.at(h2.idx as int)
    &&& forall|i: int|
        post.slot_alive(i) && !pre.slot_alive(i)
            ==> fresh_spawn(#[trigger] post.at(i), player_pos, radius, cfg)
}

/// The horde spawner. While at most `enemy_cap` enemies are alive, spawn a
/// batch of fresh enemies at random points of a ring of `spawn_radius`
/// around the player; above the cap the spawner no-ops. Existing enemies are
/// never touched.
pub fn spawn_triangles(
    enemies: &mut Arena<Triangle>,
    player_pos: Vec2i,
    spawn_radius: i64,
    cfg: &Config,
)
    requires
        old(enemies).wf(),
        cfg.wf(),
        player_pos.bounded(COORD_LIMIT as int / 2),
        1 <= spawn_radius <= 100_000,
        old(enemies).slots@.len() <= 1_000_000,
    ensures
        spawn_post(*old(enemies), *final(enemies), player_pos, spawn_radius as int, *cfg),
{
    let count = enemies.count_alive();
    let room = enemies.slot_count();
    if count > cfg.enemy_cap || room + cfg.spawn_batch > 1_000 {
        return ;
    }
    let ghost orig = *enemies;
    let batch = cfg.spawn_batch;
    let mut k: usize = 0;
    while k < batch
        invariant
            orig.wf(),
            cfg.wf(),
            player_pos.bounded(COORD_LIMIT as int / 2),
            1 <= spawn_radius <= 100_000,
            orig.slots@.len() <= 1_000_000,
            batch == cfg.spawn_batch,
            k <= batch,
            orig.slots@.len() + batch <= 1_000,
            enemies.wf(),
            enemies.alive_count() == orig.alive_count() + k,
            enemies.slots@.len() <= orig.slots@.len() + k,
            forall|h2: crate::arena::Handle|
                orig.is_alive(h2)
                    ==> enemies.is_alive(h2)
                        && enemies.at(h2.idx as int) == orig.at(h2.idx as int),
            forall|i: int|
                enemies.slot_alive(i) && !orig.slot_alive(i)
                    ==> fresh_spawn(#[trigger] enemies.at(i), player_pos,
                        spawn_radius as int, *cfg),
            forall|i: int|
                0 <= i < orig.slots@.len() && orig.slot_alive(i)
                    ==> enemies.slot_alive(i),
        decreases batch - k,
    {
        let ghost before = *enemies;
        let dx = draw_in(-spawn_radius, spawn_radius + 1);
        proof {
            assert(0 <= dx * dx <= spawn_radius * spawn_radius
                && spawn_radius * spawn_radius <= 10_000_000_000) by (nonlinear_arith)
                requires
                    -spawn_radius <= dx <= spawn_radius,
                    1 <= spawn_radius <= 100_000,
            ;
        }
        let rest: i64 = spawn_radius * spawn_radius - dx * dx;
        let dy_mag: i64 = isqrt(rest as u64) as i64;
        proof {
            assert(0 <= dy_mag && dy_mag * dy_mag <= rest
                && rest < (dy_mag + 1) * (dy_mag + 1));
            assert(dy_mag <= spawn_radius) by (nonlinear_arith)
                requires
                    0 <= dy_mag,
                    dy_mag * dy_mag <= spawn_radius * spawn_radius,
                    1 <= spawn_radius,
            ;
        }
        let sign = draw_in(0, 2);
        let dy: i64 = if sign == 0 {
            dy_mag
        } else {
            -dy_mag
        };
        let pos = Vec2i { x: player_pos.x + dx, y: player_pos.y + dy };
        let t = Triangle {
            pos,
            mover: HordeMover { dxdy: Vec2i { x: 0, y: 0 } },
            health: cfg.enemy_health,
            targetable: false,
        };
        proof {
            assert(dist_sq(t.pos, player_pos) == dx * dx + dy * dy);
            assert(dy * dy == dy_mag * dy_mag) by (nonlinear_arith)
                requires
                    dy == dy_mag || dy == -dy_mag,
            ;
            assert(spawn_radius * spawn_radius - 2 * spawn_radius - 1 <= dx * dx + dy * dy
                <= spawn_radius * spawn_radius) by (nonlinear_arith)
                requires
                    dy * dy == dy_mag * dy_mag,
                    0 <= dy_mag <= spawn_radius,
                    dy_mag * dy_mag <= spawn_radius * spawn_radius - dx * dx,
                    spawn_radius * spawn_radius - dx * dx < (dy_mag + 1) * (dy_mag + 1),
                    0 <= dx * dx,
                    1 <= spawn_radius,
            ;
        }
        let h = enemies.insert(t);
        proof {
            assert forall|i: int|
                enemies.slot_alive(i) && !orig.slot_alive(i)
                    implies fresh_spawn(#[trigger] enemies.at(i), player_pos,
                        spawn_radius as int, *cfg) by {
                if i == h.idx as int {
                } else {
                    assert(0 <= i < before.slots@.len());
                    assert(enemies.slots@[i] == before.slots@[i]);
                    assert(before.slot_alive(i));
                    assert(fresh_spawn(before.at(i), player_pos, spawn_radius as int, *cfg));
                    assert(enemies.at(i) == before.at(i));
                }
            }
        }
        k = k + 1;
    }
}

/// Despawn every horde enemy, as happens when play ends. Every slot is left
/// unoccupied and every outstanding handle is retired.
pub fn despawn_triangles(enemies: &mut Arena<Triangle>)
    requires
        old(enemies).wf(),
    ensures
        final(enemies).wf(),
        final(enemies).slots@.len() == old(enemies).slots@.len(),
        forall|i: int| !final(enemies).slot_alive(i),
        final(enemies).alive_count() == 0,
{
    let n = enemies.slots.len();
    let mut i: usize = 0;
    while i < n
        invariant
            old(enemies).wf(),
            n == old(enemies).slots@.len(),
            enemies.slots@.len() == n,
            i <= n,
            enemies.wf(),
            forall|j: int| 0 <= j < i ==> !(#[trigger] enemies.slots@[j].val is Some),
            forall|j: int| i <= j < n ==> enemies.slots@[j] == old(enemies).slots@[j],
        decreases n - i,
    {
        let s = enemies.slots[i];
        if s.val.is_some() {
            enemies.slots[i] = Slot { gen: s.gen + 1, val: None };
        } else {
            enemies.slots[i] = Slot { gen: s.gen, val: None };
        }
        i = i + 1;
    }
    proof {
        crate::arena::lemma_alive_upto_zero(enemies.slots@, n as int);
    }
}

/// Normalising a zero-length accumulated vector yields exactly zero
/// movement; there is no division and nothing like a NaN on the integer
/// grid.
pub proof fn lemma_zero_vector_zero_step(num: int, den: int)
    ensures
        step_x(Vec2i { x: 0, y: 0 }, num, den) == 0,
        step_y(Vec2i { x: 0, y: 0 }, num, den) == 0,
{
    lemma_floor_sqrt(0);
    lemma_floor_sqrt_unique(0, 0, floor_sqrt(0));
}

/// The repulsion step strictly separates: consider two enemies whose
/// accumulators hold exactly the pair's repulsion contributions (seek and
/// noise zero). After both integrate a normalised step, the squared distance
/// between them never decreases, and increases strictly whenever the
/// truncated step is nonzero.
pub proof fn lemma_repulsion_separates(
    a: Vec2i,
    b: Vec2i,
    ma: Vec2i,
    mb: Vec2i,
    sa: Vec2i,
    sb: Vec2i,
    a2: Vec2i,
    b2: Vec2i,
    cfg: Config,
    num: int,
    den: int,
)
    requires
        cfg.wf(),
        1 <= num,
        1 <= den,
        ma.x == rep_dx(a, b, cfg),
        ma.y == rep_dy(a, b, cfg),
        mb.x == rep_dx(b, a, cfg),
        mb.y == rep_dy(b, a, cfg),
        sa.x == step_x(ma, num, den),
        sa.y == step_y(ma, num, den),
        sb.x == step_x(mb, num, den),
        sb.y == step_y(mb, num, den),
        a2.x == a.x - sa.x,
        a2.y == a.y - sa.y,
        b2.x == b.x - sb.x,
        b2.y == b.y - sb.y,
    ensures
        dist_sq(a2, b2) >= dist_sq(a, b),
        sa != (Vec2i { x: 0, y: 0 }) ==> dist_sq(a2, b2) > dist_sq(a, b),
{
    lemma_rep_antisymmetric(a, b, cfg);
    assert(mb.x == -ma.x && mb.y == -ma.y);
    assert(mb.x * mb.x == ma.x * ma.x && mb.y * mb.y == ma.y * ma.y) by (nonlinear_arith)
        requires
            mb.x == -ma.x && mb.y == -ma.y,
    ;
    assert(mb.norm_sq() == ma.norm_sq());
    assert(ma.x * ma.x + ma.y * ma.y >= 0) by (nonlinear_arith);
    let nsq = ma.norm_sq();
    lemma_floor_sqrt(nsq);
    let m = floor_sqrt(nsq);
    if m == 0 {
        assert(sa.x == 0 && sa.y == 0 && sb.x == 0 && sb.y == 0);
        assert(dist_sq(a2, b2) == dist_sq(a, b));
    } else {
        assert(den * m >= 1) by (nonlinear_arith)
            requires
                1 <= den,
                1 <= m,
        ;
        assert((-ma.x) * num == -(ma.x * num) && (-ma.y) * num == -(ma.y * num))
            by (nonlinear_arith);
        lemma_tdiv_bounds(ma.x * num, den * m);
        lemma_tdiv_bounds(ma.y * num, den * m);
        assert(sb.x == -sa.x && sb.y == -sa.y);
        lemma_step_opposes(a.x - b.x, ma.x as int, sa.x as int, cfg, num, den, m, rep_weight(a, b, cfg),
            (a.x - b.x) * rep_weight(a, b, cfg) * cfg.enemy_avoid_num);
        lemma_step_opposes(a.y - b.y, ma.y as int, sa.y as int, cfg, num, den, m, rep_weight(a, b, cfg),
            (a.y - b.y) * rep_weight(a, b, cfg) * cfg.enemy_avoid_num);
        assert(a2.x - b2.x == (a.x - b.x) - 2 * sa.x);
        assert(a2.y - b2.y == (a.y - b.y) - 2 * sa.y);
        lemma_separating_component(a.x - b.x, sa.x as int);
        lemma_separating_component(a.y - b.y, sa.y as int);
        assert(dist_sq(a2, b2) >= dist_sq(a, b));
        if sa != (Vec2i { x: 0, y: 0 }) {
            assert(dist_sq(a2, b2) > dist_sq(a, b));
        }
    }
}

/// The truncated integration step along a repulsion accumulator points away
/// from the other enemy: its product with the difference coordinate is never
/// positive.
proof fn lemma_step_opposes(
    dc: int,
    mac: int,
    sac: int,
    cfg: Config,
    num: int,
    den: int,
    m: int,
    w: int,
    prod: int,
)
    requires
        cfg.wf(),
        1 <= num,
        1 <= den,
        1 <= m,
        prod == dc * w * cfg.enemy_avoid_num,
        mac == if w > 0 { -tdiv(prod, cfg.enemy_avoid_den as int) } else { 0 },
        sac == tdiv(mac * num, den * m),
    ensures
        sac * dc <= 0,
{
    assert(den * m >= 1) by (nonlinear_arith)
        requires
            1 <= den,
            1 <= m,
    ;
    if w > 0 {
        if dc >= 0 {
            assert(prod >= 0) by (nonlinear_arith)
                requires
                    prod == dc * w * cfg.enemy_avoid_num,
                    dc >= 0,
                    w > 0,
                    cfg.enemy_avoid_num >= 1,
            ;
            lemma_tdiv_bounds(prod, cfg.enemy_avoid_den as int);
            assert(mac <= 0);
            assert(mac * num <= 0) by (nonlinear_arith)
                requires
                    mac <= 0,
                    num >= 1,
            ;
            lemma_tdiv_bounds(mac * num, den * m);
            assert(sac <= 0);
            assert(sac * dc <= 0) by (nonlinear_arith)
                requires
                    sac <= 0,
                    dc >= 0,
            ;
        } else {
            assert(prod <= 0) by (nonlinear_arith)
                requires
                    prod == dc * w * cfg.enemy_avoid_num,
                    dc < 0,
                    w > 0,
                    cfg.enemy_avoid_num >= 1,
            ;
            lemma_tdiv_bounds(prod, cfg.enemy_avoid_den as int);
            assert(mac >= 0);
            assert(mac * num >= 0) by (nonlinear_arith)
                requires
                    mac >= 0,
                    num >= 1,
            ;
            lemma_tdiv_bounds(mac * num, den * m);
            assert(sac >= 0);
            assert(sac * dc <= 0) by (nonlinear_arith)
                requires
                    sac >= 0,
                    dc < 0,
            ;
        }
    } else {
        assert(mac == 0);
        lemma_tdiv_bounds(0, den * m);
        assert(sac == 0);
        assert(sac * dc <= 0) by (nonlinear_arith)
            requires
                sac == 0,
        ;
    }
}

/// Moving a coordinate difference by twice a step that opposes it can only
/// grow its square, strictly so for a nonzero step.
proof fn lemma_separating_component(dc: int, q: int)
    requires
        q * dc <= 0,
    ensures
        (dc - 2 * q) * (dc - 2 * q) >= dc * dc,
        q != 0 ==> (dc - 2 * q) * (dc - 2 * q) > dc * dc,
{
    assert((dc - 2 * q) * (dc - 2 * q) == dc * dc - 4 * (q * dc) + 4 * (q * q))
        by (nonlinear_arith);
    assert(q * q >= 0 && (q != 0 ==> q * q > 0)) by (nonlinear_arith);
}

/// The repulsion step separates in the exact form the integration pass
/// states it: with seek zero and both accumulators holding the pair's
/// repulsion, the post-step squared distance between the *clamped* new
/// positions never decreases, and increases strictly when the truncated
/// step is nonzero. For positions within a tenth of the coordinate limit
/// the clamp is provably inert, so this is the integrated pipeline's own
/// position formula.
pub proof fn lemma_repulsion_separates_clamped(
    a: Vec2i,
    b: Vec2i,
    ma: Vec2i,
    mb: Vec2i,
    sa: Vec2i,
    sb: Vec2i,
    cfg: Config,
    num: int,
)
    requires
        cfg.wf(),
        1 <= num <= 100_000_000,
        a.bounded(100_000_000),
        b.bounded(100_000_000),
        ma.x == rep_dx(a, b, cfg),
        ma.y == rep_dy(a, b, cfg),
        mb.x == rep_dx(b, a, cfg),
        mb.y == rep_dy(b, a, cfg),
        sa.x == step_x(ma, num, 1000),
        sa.y == step_y(ma, num, 1000),
        sb.x == step_x(mb, num, 1000),
        sb.y == step_y(mb, num, 1000),
    ensures
        ({
            let a2 = Vec2i { x: clamp_coord(a.x - sa.x) as i64, y: clamp_coord(a.y - sa.y) as i64 };
            let b2 = Vec2i { x: clamp_coord(b.x - sb.x) as i64, y: clamp_coord(b.y - sb.y) as i64 };
            &&& dist_sq(a2, b2) >= dist_sq(a, b)
            &&& sa != (Vec2i { x: 0, y: 0 }) ==> dist_sq(a2, b2) > dist_sq(a, b)
        }),
{
    lemma_rep_bound(a, b, cfg);
    lemma_rep_bound(b, a, cfg);
    lemma_step_within(ma, num);
    lemma_step_within(mb, num);
    let a2 = Vec2i { x: (a.x - sa.x) as i64, y: (a.y - sa.y) as i64 };
    let b2 = Vec2i { x: (b.x - sb.x) as i64, y: (b.y - sb.y) as i64 };
    assert(clamp_coord(a.x - sa.x) == a.x - sa.x);
    assert(clamp_coord(a.y - sa.y) == a.y - sa.y);
    assert(clamp_coord(b.x - sb.x) == b.x - sb.x);
    assert(clamp_coord(b.y - sb.y) == b.y - sb.y);
    lemma_repulsion_separates(a, b, ma, mb, sa, sb, a2, b2, cfg, num, 1000);
}

/// A normalised step along a repulsion accumulator never exceeds the scale
/// `num` per component.
proof fn lemma_step_within(v: Vec2i, num: int)
    requires
        1 <= num <= 100_000_000,
        v.bounded(REP_LIMIT as int),
    ensures
        -num <= step_x(v, num, 1000) <= num,
        -num <= step_y(v, num, 1000) <= num,
{
    assert(0 <= v.x * v.x && 0 <= v.y * v.y
        && v.x * v.x <= v.x * v.x + v.y * v.y
        && v.y * v.y <= v.x * v.x + v.y * v.y) by (nonlinear_arith);
    lemma_floor_sqrt(v.norm_sq());
    let m = floor_sqrt(v.norm_sq());
    if m == 0 {
    } else {
        assert(-7_500_000_000_000 <= v.x * num <= 7_500_000_000_000
            && -7_500_000_000_000 <= v.y * num <= 7_500_000_000_000) by (nonlinear_arith)
            requires
                -75_000 <= v.x <= 75_000,
                -75_000 <= v.y <= 75_000,
                1 <= num <= 100_000_000,
        ;
        crate::vec2::lemma_step_component_bound(v.x as int, num, 1000, m);
        crate::vec2::lemma_step_component_bound(v.y as int, num, 1000, m);
    }
}

} // verus!
