//! The dot ability: projectiles aimed at a randomly chosen targetable enemy.
//! A projectile's direction is fixed at spawn and never re-aimed; it travels
//! until it either overlaps an enemy (first match in slot order, emitting one
//! damage event and despawning) or leaves the playable bounds by a margin.

use vstd::prelude::*;
use crate::arena::{Arena, Handle, Slot};
use crate::config::Config;
use crate::enemies::Triangle;
use crate::events::TransmitDamage;
use crate::grid::Grid;
use crate::rng::draw_in;
use crate::steering::{clamp_coord, positions_bounded};
use crate::vec2::{norm_step, step_x, step_y, Vec2i, ACCUM_LIMIT, COORD_LIMIT};

verus! {

/// Default projectile speed, world units per second.
pub const DEFAULT_ABILITY_SPEED: i64 = 500;

/// Default radius of a dot's hit region.
pub const DEFAULT_DOT_RADIUS: i64 = 2;

/// The moving part of an ability instance: a scalar speed and the direction
/// fixed at spawn. As with enemies, the direction is *subtracted* from the
/// position during travel, so a direction of `player - target` sends the
/// projectile from the player toward the target's position at spawn time.
#[derive(Clone, Copy, PartialEq, Eq, Structural, Debug)]
pub struct Projectile {
    pub speed: i64,
    pub direction: Vec2i,
}

impl Default for Projectile {
    /// A projectile at the default speed with no direction yet.
    fn default() -> (p: Projectile)
        ensures
            p.speed == DEFAULT_ABILITY_SPEED,
            p.direction == (Vec2i { x: 0, y: 0 }),
    {
        Projectile { speed: DEFAULT_ABILITY_SPEED, direction: Vec2i { x: 0, y: 0 } }
    }
}

/// One dot instance: its position, its projectile motion and the damage it
/// delivers on impact.
#[derive(Clone, Copy, PartialEq, Eq, Structural, Debug)]
pub struct Dot {
    pub pos: Vec2i,
    pub projectile: Projectile,
    pub damage: i64,
}

/// The ability modifier a player carries to fire dots: the interval between
/// spawns.
#[derive(Clone, Copy, PartialEq, Eq, Structural, Debug)]
pub struct DotMod {
    pub interval_ms: u64,
}

/// Bounds under which all dot arithmetic stays inside `i64`.
pub open spec fn dot_ok(d: Dot) -> bool {
    &&& d.pos.bounded(COORD_LIMIT as int)
    &&& d.projectile.direction.bounded(ACCUM_LIMIT as int)
    &&& 1 <= d.projectile.speed <= 10_000
    &&& 0 <= d.damage <= 1_000_000
}

/// Every live dot of the arena is within bounds.
pub open spec fn dots_ok(a: Arena<Dot>) -> bool {
    forall|i: int| #[trigger] a.slot_alive(i) ==> dot_ok(a.at(i))
}

/// Axis-aligned bounding boxes, centred at `a` and `b` with full side
/// lengths `sa` and `sb`, overlap strictly on both axes.
pub open spec fn spec_overlap(a: Vec2i, sa: int, b: Vec2i, sb: int) -> bool {
    &&& 2 * (a.x - b.x) < sa + sb
    &&& 2 * (b.x - a.x) < sa + sb
    &&& 2 * (a.y - b.y) < sa + sb
    &&& 2 * (b.y - a.y) < sa + sb
}

/// Strict overlap test of two axis-aligned boxes given by centre and full
/// side length.
pub fn aabb_overlap(a: Vec2i, sa: i64, b: Vec2i, sb: i64) -> (r: bool)
    requires
        a.bounded(COORD_LIMIT as int),
        b.bounded(COORD_LIMIT as int),
        0 <= sa <= 1_000_000,
        0 <= sb <= 1_000_000,
    ensures
        r == spec_overlap(a, sa as int, b, sb as int),
{
    let dx = a.x - b.x;
    let dy = a.y - b.y;
    2 * dx < sa + sb && 2 * (-dx) < sa + sb && 2 * dy < sa + sb && 2 * (-dy) < sa + sb
}

/// How many of the first `k` enemy slots hold a targetable enemy.
pub open spec fn targetable_upto(s: Seq<Slot<Triangle>>, k: int) -> int
    decreases k,
{
    if k <= 0 {
        0
    } else {
        targetable_upto(s, k - 1) + if s[k - 1].val is Some && s[k - 1].val->0.targetable {
            1int
        } else {
            0int
        }
    }
}

/// Prefix counts of targetable enemies are monotone and grow by at most one
/// per slot.
pub proof fn lemma_targetable_upto_step(s: Seq<Slot<Triangle>>, k: int)
    requires
        0 <= k,
    ensures
        0 <= targetable_upto(s, k) <= k,
        targetable_upto(s, k) <= targetable_upto(s, k + 1) <= targetable_upto(s, k) + 1,
    decreases k,
{
    if k > 0 {
        lemma_targetable_upto_step(s, k - 1);
    }
}

/// Count the live targetable enemies.
pub fn count_targetable(enemies: &Arena<Triangle>) -> (n: usize)
    ensures
        n == targetable_upto(enemies.slots@, enemies.slots@.len() as int),
        n <= enemies.slots@.len(),
{
    let len = enemies.slots.len();
    let mut n: usize = 0;
    let mut i: usize = 0;
    while i < len
        invariant
            len == enemies.slots@.len(),
            i <= len,
            n == targetable_upto(enemies.slots@, i as int),
            n <= i,
        decreases len - i,
    {
        let s = enemies.slots[i];
        if s.val.is_some() {
            let t = s.val.unwrap();
            if t.targetable {
                n = n + 1;
            }
        }
        i = i + 1;
    }
    n
}

/// What a dot freshly fired from `player_pos` at the enemy position `target`
/// looks like.
pub open spec fn fresh_dot(d: Dot, player_pos: Vec2i, target: Vec2i, cfg: Config) -> bool {
    d == (Dot {
        pos: player_pos,
        projectile: Projectile {
            speed: cfg.ability_speed,
            direction: Vec2i {
                x: (player_pos.x - target.x) as i64,
                y: (player_pos.y - target.y) as i64,
            },
        },
        damage: cfg.dot_damage,
    })
}

/// How one gated shot changes the dot arena: with no targetable enemy (or
/// the arena at formal capacity) nothing changed; otherwise exactly one dot
/// joined, fired from the player at some live targetable enemy's position,
/// and every previously live dot stands untouched.
pub open spec fn dot_spawn_post(
    pre: Arena<Dot>,
    post: Arena<Dot>,
    enemies: Arena<Triangle>,
    player_pos: Vec2i,
    cfg: Config,
) -> bool {
    &&& post.wf()
    &&& targetable_upto(enemies.slots@, enemies.slots@.len() as int) == 0
        || pre.slots@.len() >= 1_000 ==> post.slots@ == pre.slots@
    &&& targetable_upto(enemies.slots@, enemies.slots@.len() as int) > 0
        && pre.slots@.len() < 1_000 ==> post.alive_count() == pre.alive_count() + 1
    &&& post.slots@.len() <= vstd::math::max(pre.slots@.len() as int, 1_000)
    &&& forall|h2: Handle|
        pre.is_alive(h2) ==> post.is_alive(h2) && post.at(h2.idx as int) == pre.at(h2.idx as int)
    &&& forall|i: int|
        post.slot_alive(i) && !pre.slot_alive(i)
            ==> exists|e: int|
                enemies.slot_alive(e) && enemies.at(e).targetable && fresh_dot(
                    #[trigger] post.at(i),
                    player_pos,
                    enemies.at(e).pos,
                    cfg,
                )
}

/// Fire one dot at an enemy chosen uniformly at random among the targetable
/// ones. If no enemy is targetable, nothing happens (the next interval
/// re-evaluates). The new dot starts at the player's position, with its
/// direction fixed to `player - chosen enemy` once and for all.
pub fn spawn_dot(
    dots: &mut Arena<Dot>,
    enemies: &Arena<Triangle>,
    player_pos: Vec2i,
    cfg: &Config,
)
    requires
        old(dots).wf(),
        cfg.wf(),
        player_pos.bounded(COORD_LIMIT as int),
        positions_bounded(*enemies),
        enemies.slots@.len() <= 1_000_000,
        old(dots).slots@.len() < 1_000_000_000,
    ensures
        dot_spawn_post(*old(dots), *final(dots), *enemies, player_pos, *cfg),
{
    if dots.slot_count() >= 1_000 {
        return ;
    }
    let cnt = count_targetable(enemies);
    if cnt == 0 {
        return ;
    }
    let pick = draw_in(0, cnt as i64);
    let k: usize = pick as usize;
    let len = enemies.slots.len();
    let mut c: usize = 0;
    let mut i: usize = 0;
    loop
        invariant_except_break
            len == enemies.slots@.len(),
            i <= len,
            c == targetable_upto(enemies.slots@, i as int),
            c <= k,
            (k as int) < targetable_upto(enemies.slots@, len as int),
            old(dots).wf(),
            dots.slots@ == old(dots).slots@,
            cfg.wf(),
            player_pos.bounded(COORD_LIMIT as int),
            positions_bounded(*enemies),
            old(dots).slots@.len() < 1_000_000_000,
        ensures
            exists|e: int|
                enemies.slot_alive(e) && enemies.at(e).targetable
                    && dots.alive_count() == old(dots).alive_count() + 1
                    && dots.slots@.len() <= old(dots).slots@.len() + 1
                    && dots.wf()
                    && (forall|h2: Handle|
                        old(dots).is_alive(h2)
                            ==> dots.is_alive(h2)
                                && dots.at(h2.idx as int) == old(dots).at(h2.idx as int))
                    && (forall|i2: int|
                        dots.slot_alive(i2) && !old(dots).slot_alive(i2)
                            ==> fresh_dot(#[trigger] dots.at(i2), player_pos,
                                enemies.at(e).pos, *cfg)),
        decreases len - i,
    {
        proof {
            lemma_targetable_upto_step(enemies.slots@, i as int);
            lemma_targetable_monotone(enemies.slots@, i as int, len as int);
            assert(i < len);
        }
        let s = enemies.slots[i];
        if s.val.is_some() {
            let t = s.val.unwrap();
            if t.targetable {
                if c == k {
                    proof {
                        assert(enemies.slot_alive(i as int));
                    }
                    let d = Dot {
                        pos: player_pos,
                        projectile: Projectile {
                            speed: cfg.ability_speed,
                            direction: Vec2i {
                                x: player_pos.x - t.pos.x,
                                y: player_pos.y - t.pos.y,
                            },
                        },
                        damage: cfg.dot_damage,
                    };
                    let ghost before = *dots;
                    let h = dots.insert(d);
                    proof {
                        let e = i as int;
                        assert(enemies.slot_alive(e) && enemies.at(e).targetable
                            && dots.alive_count() == old(dots).alive_count() + 1
                            && dots.slots@.len() <= old(dots).slots@.len() + 1
                            && dots.wf()
                            && (forall|h2: Handle|
                                old(dots).is_alive(h2)
                                    ==> dots.is_alive(h2)
                                        && dots.at(h2.idx as int) == old(dots).at(
                                        h2.idx as int))
                            && (forall|i2: int|
                                dots.slot_alive(i2) && !old(dots).slot_alive(i2)
                                    ==> fresh_dot(#[trigger] dots.at(i2), player_pos,
                                        enemies.at(e).pos, *cfg)));
                    }
                    break ;
                }
                c = c + 1;
            }
        }
        i = i + 1;
    }
}

/// The prefix count of targetable enemies is monotone in the prefix length.
pub proof fn lemma_targetable_monotone(s: Seq<Slot<Triangle>>, k1: int, k2: int)
    requires
        0 <= k1 <= k2,
    ensures
        targetable_upto(s, k1) <= targetable_upto(s, k2),
    decreases k2 - k1,
{
    if k1 < k2 {
        lemma_targetable_monotone(s, k1, k2 - 1);
        lemma_targetable_upto_step(s, k2 - 1);
    }
}

/// How one travel pass changes the dot arena: every live dot moved one
/// normalised step of scale `speed × dt / 1000` against its fixed direction
/// (clamped into the representable range), and its direction, speed and
/// damage stand exactly — a projectile is never re-aimed after spawn.
pub open spec fn travel_post(pre: Arena<Dot>, post: Arena<Dot>, dt: int) -> bool {
    &&& post.wf()
    &&& dots_ok(post)
    &&& post.slots@.len() == pre.slots@.len()
    &&& post.alive_count() == pre.alive_count()
    &&& forall|i: int|
        #![trigger post.slot_alive(i)]
        0 <= i < pre.slots@.len()
            ==> post.slot_alive(i) == pre.slot_alive(i)
                && post.slots@[i].gen == pre.slots@[i].gen
    &&& forall|i: int|
        pre.slot_alive(i)
            ==> #[trigger] post.at(i) == (Dot {
                pos: Vec2i {
                    x: clamp_coord(pre.at(i).pos.x - step_x(pre.at(i).projectile.direction,
                        pre.at(i).projectile.speed * dt, 1000)) as i64,
                    y: clamp_coord(pre.at(i).pos.y - step_y(pre.at(i).projectile.direction,
                        pre.at(i).projectile.speed * dt, 1000)) as i64,
                },
                ..pre.at(i)
            })
}

/// Advance every live dot one tick: each moves one normalised step of length
/// about `speed × dt` against its fixed direction. The direction, speed and
/// damage of every dot are exactly preserved — a projectile is never
/// re-aimed after spawn.
pub fn move_dots(dots: &mut Arena<Dot>, dt_ms: i64)
    requires
        old(dots).wf(),
        dots_ok(*old(dots)),
        1 <= dt_ms <= 10_000,
    ensures
        travel_post(*old(dots), *final(dots), dt_ms as int),
{
    let ghost pre = dots.slots@;
    let n = dots.slots.len();
    let mut i: usize = 0;
    while i < n
        invariant
            old(dots).wf(),
            pre == old(dots).slots@,
            dots_ok(*old(dots)),
            1 <= dt_ms <= 10_000,
            n == pre.len(),
            dots.slots@.len() == n,
            i <= n,
            forall|j: int| i <= j < n ==> dots.slots@[j] == pre[j],
            forall|j: int|
                0 <= j < i
                    ==> (#[trigger] dots.slots@[j].val is Some) == (pre[j].val is Some)
                        && dots.slots@[j].gen == pre[j].gen,
            forall|j: int|
                0 <= j < i && pre[j].val is Some
                    ==> #[trigger] dots.slots@[j].val == Some(Dot {
                        pos: Vec2i {
                            x: clamp_coord(pre[j].val->0.pos.x - step_x(
                                pre[j].val->0.projectile.direction,
                                pre[j].val->0.projectile.speed * dt_ms,
                                1000,
                            )) as i64,
                            y: clamp_coord(pre[j].val->0.pos.y - step_y(
                                pre[j].val->0.projectile.direction,
                                pre[j].val->0.projectile.speed * dt_ms,
                                1000,
                            )) as i64,
                        },
                        ..pre[j].val->0
                    }),
        decreases n - i,
    {
        let s = dots.slots[i];
        if s.val.is_some() {
            let d = s.val.unwrap();
            proof {
                assert(old(dots).slot_alive(i as int));
                assert(1 <= d.projectile.speed * dt_ms <= 100_000_000) by (nonlinear_arith)
                    requires
                        1 <= d.projectile.speed <= 10_000,
                        1 <= dt_ms <= 10_000,
                ;
            }
            let num: i64 = d.projectile.speed * dt_ms;
            let stp = norm_step(d.projectile.direction, num, 1000);
            let nx = crate::steering::clamp_to_world(d.pos.x - stp.x);
            let ny = crate::steering::clamp_to_world(d.pos.y - stp.y);
            dots.slots[i] = Slot {
                gen: s.gen,
                val: Some(Dot {
                    pos: Vec2i { x: nx, y: ny },
                    projectile: d.projectile,
                    damage: d.damage,
                }),
            };
        }
        i = i + 1;
    }
    proof {
        crate::arena::lemma_alive_upto_congruent(pre, dots.slots@, n as int);
        assert forall|i2: int| final(dots).slot_alive(i2)
            implies dot_ok(final(dots).at(i2)) by {
            assert(old(dots).slot_alive(i2));
        }
    }
}

/// The first live enemy, in slot order among the first `k` slots, whose hit
/// region overlaps the dot's. First match in slot order, not closest
/// match: a deliberate simplification of the impact rule.
pub open spec fn first_hit(d: Dot, s: Seq<Slot<Triangle>>, k: int, cfg: Config) -> Option<
    Handle,
>
    decreases k,
{
    if k <= 0 {
        None
    } else if first_hit(d, s, k - 1, cfg) is Some {
        first_hit(d, s, k - 1, cfg)
    } else if s[k - 1].val is Some && spec_overlap(
        d.pos,
        2 * cfg.dot_radius,
        s[k - 1].val->0.pos,
        cfg.enemy_hit as int,
    ) {
        Some(Handle { idx: (k - 1) as usize, gen: s[k - 1].gen })
    } else {
        None
    }
}

/// Once a first hit exists in a prefix, longer prefixes report the same one.
pub proof fn lemma_first_hit_extends(d: Dot, s: Seq<Slot<Triangle>>, k1: int, k2: int, cfg: Config)
    requires
        0 <= k1 <= k2,
        first_hit(d, s, k1, cfg) is Some,
    ensures
        first_hit(d, s, k2, cfg) == first_hit(d, s, k1, cfg),
    decreases k2 - k1,
{
    if k1 < k2 {
        lemma_first_hit_extends(d, s, k1, k2 - 1, cfg);
    }
}

/// Find the first live enemy overlapping the dot, if any.
fn find_first_hit(d: Dot, enemies: &Arena<Triangle>, cfg: &Config) -> (r: Option<Handle>)
    requires
        cfg.wf(),
        d.pos.bounded(COORD_LIMIT as int),
        positions_bounded(*enemies),
    ensures
        r == first_hit(d, enemies.slots@, enemies.slots@.len() as int, *cfg),
{
    let len = enemies.slots.len();
    let mut j: usize = 0;
    while j < len
        invariant
            cfg.wf(),
            d.pos.bounded(COORD_LIMIT as int),
            positions_bounded(*enemies),
            len == enemies.slots@.len(),
            j <= len,
            first_hit(d, enemies.slots@, j as int, *cfg) is None,
        decreases len - j,
    {
        let s = enemies.slots[j];
        if s.val.is_some() {
            let t = s.val.unwrap();
            proof {
                assert(enemies.slot_alive(j as int));
            }
            if aabb_overlap(d.pos, 2 * cfg.dot_radius, t.pos, cfg.enemy_hit) {
                let h = Handle { idx: j, gen: s.gen };
                proof {
                    assert(first_hit(d, enemies.slots@, j + 1, *cfg) == Some(h));
                    lemma_first_hit_extends(d, enemies.slots@, j + 1, len as int, *cfg);
                }
                return Some(h);
            }
        }
        j = j + 1;
    }
    None
}

/// The damage events an impact scan of the first `k` dot slots produces:
/// one event per dot whose first hit exists, in dot slot order.
pub open spec fn impacts_upto(
    sd: Seq<Slot<Dot>>,
    se: Seq<Slot<Triangle>>,
    k: int,
    cfg: Config,
) -> Seq<TransmitDamage>
    decreases k,
{
    if k <= 0 {
        Seq::empty()
    } else {
        impacts_upto(sd, se, k - 1, cfg) + if sd[k - 1].val is Some && first_hit(
            sd[k - 1].val->0,
            se,
            se.len() as int,
            cfg,
        ) is Some {
            seq![
                TransmitDamage {
                    target: first_hit(sd[k - 1].val->0, se, se.len() as int, cfg)->0,
                    damage: sd[k - 1].val->0.damage,
                },
            ]
        } else {
            Seq::empty()
        }
    }
}

/// How one impact scan changes the dot arena: dots whose first hit exists
/// are removed with their handles retired; all other slots stand untouched.
pub open spec fn impact_post(
    pre: Arena<Dot>,
    post: Arena<Dot>,
    enemies: Arena<Triangle>,
    cfg: Config,
) -> bool {
    &&& post.wf()
    &&& dots_ok(post)
    &&& post.slots@.len() == pre.slots@.len()
    &&& forall|i: int|
        pre.slot_alive(i) && first_hit(pre.at(i), enemies.slots@, enemies.slots@.len() as int,
            cfg) is None ==> post.slots@[i] == pre.slots@[i]
    &&& forall|i: int|
        pre.slot_alive(i) && first_hit(pre.at(i), enemies.slots@, enemies.slots@.len() as int,
            cfg) is Some
            ==> !post.slot_alive(i) && post.slots@[i].gen == pre.slots@[i].gen + 1
    &&& forall|i: int|
        0 <= i < pre.slots@.len() && !pre.slot_alive(i) ==> post.slots@[i] == pre.slots@[i]
}

/// Impact detection: each live dot checks the enemies in slot order and, on
/// its first overlap, emits one damage event with its payload and despawns.
/// One dot damages at most one enemy — the first hit consumes it, there is
/// no piercing. Dots that hit nothing travel on unchanged; enemies are not
/// modified here (the damage pipeline consumes the events).
pub fn enemy_impact(
    dots: &mut Arena<Dot>,
    enemies: &Arena<Triangle>,
    events: &mut Vec<TransmitDamage>,
    cfg: &Config,
)
    requires
        old(dots).wf(),
        cfg.wf(),
        dots_ok(*old(dots)),
        positions_bounded(*enemies),
    ensures
        impact_post(*old(dots), *final(dots), *enemies, *cfg),
        final(events)@ == old(events)@ + impacts_upto(old(dots).slots@, enemies.slots@,
            old(dots).slots@.len() as int, *cfg),
{
    let ghost pre = dots.slots@;
    let ghost pre_ev = events@;
    let n = dots.slots.len();
    let mut i: usize = 0;
    while i < n
        invariant
            old(dots).wf(),
            pre == old(dots).slots@,
            pre_ev == old(events)@,
            cfg.wf(),
            dots_ok(*old(dots)),
            positions_bounded(*enemies),
            n == pre.len(),
            dots.slots@.len() == n,
            i <= n,
            dots.wf(),
            forall|j: int| i <= j < n ==> dots.slots@[j] == pre[j],
            forall|j: int|
                0 <= j < i && pre[j].val is Some && first_hit(pre[j].val->0, enemies.slots@,
                    enemies.slots@.len() as int, *cfg) is None
                    ==> dots.slots@[j] == pre[j],
            forall|j: int|
                0 <= j < i && pre[j].val is Some && first_hit(pre[j].val->0, enemies.slots@,
                    enemies.slots@.len() as int, *cfg) is Some
                    ==> (#[trigger] dots.slots@[j]) == (Slot {
                        gen: (pre[j].gen + 1) as u64,
                        val: None::<Dot>,
                    }),
            forall|j: int| 0 <= j < i && pre[j].val is None ==> dots.slots@[j] == pre[j],
            events@ == pre_ev + impacts_upto(pre, enemies.slots@, i as int, *cfg),
        decreases n - i,
    {
        let s = dots.slots[i];
        if s.val.is_some() {
            let d = s.val.unwrap();
            proof {
                assert(old(dots).slot_alive(i as int));
            }
            let hit = find_first_hit(d, enemies, cfg);
            if hit.is_some() {
                let h = hit.unwrap();
                dots.slots[i] = Slot { gen: s.gen + 1, val: None };
                events.push(TransmitDamage { target: h, damage: d.damage });
                proof {
                    assert(events@ =~= pre_ev + impacts_upto(pre, enemies.slots@, i + 1, *cfg));
                }
            } else {
                proof {
                    assert(events@ =~= pre_ev + impacts_upto(pre, enemies.slots@, i + 1, *cfg));
                }
            }
        } else {
            proof {
                assert(events@ =~= pre_ev + impacts_upto(pre, enemies.slots@, i + 1, *cfg));
            }
        }
        i = i + 1;
    }
    proof {
        assert forall|i2: int| final(dots).slot_alive(i2) implies dot_ok(
            final(dots).at(i2)) by {
            assert(old(dots).slot_alive(i2));
        }
    }
}

/// An impact scan of `k` dot slots yields at most `k` events, each with the
/// damage payload of a live dot.
pub proof fn lemma_impacts_bounds(
    sd: Seq<Slot<Dot>>,
    se: Seq<Slot<Triangle>>,
    k: int,
    cfg: Config,
)
    requires
        0 <= k,
        forall|j: int|
            0 <= j < sd.len() && #[trigger] sd[j].val is Some
                ==> 0 <= sd[j].val->0.damage <= 1_000_000,
        k <= sd.len(),
    ensures
        impacts_upto(sd, se, k, cfg).len() <= k,
        forall|j: int|
            0 <= j < impacts_upto(sd, se, k, cfg).len()
                ==> 0 <= (#[trigger] impacts_upto(sd, se, k, cfg)[j]).damage <= 1_000_000,
    decreases k,
{
    if k > 0 {
        lemma_impacts_bounds(sd, se, k - 1, cfg);
    }
}

/// A position lies outside the playable bounds by at least the margin on
/// some axis.
pub open spec fn dot_out_of_bounds(p: Vec2i, g: Grid, margin: int) -> bool {
    p.x <= -margin || p.x >= g.width + margin || p.y <= -margin || p.y >= g.height + margin
}

/// How one bounds check changes the dot arena: dots beyond the margin are
/// removed with their handles retired, all others stand untouched, and no
/// surviving dot lies out of bounds.
pub open spec fn bounds_post(pre: Arena<Dot>, post: Arena<Dot>, grid: Grid, cfg: Config) -> bool {
    &&& post.wf()
    &&& dots_ok(post)
    &&& post.slots@.len() == pre.slots@.len()
    &&& forall|i: int|
        pre.slot_alive(i) && !dot_out_of_bounds(pre.at(i).pos, grid, cfg.bounds_margin as int)
            ==> post.slots@[i] == pre.slots@[i]
    &&& forall|i: int|
        pre.slot_alive(i) && dot_out_of_bounds(pre.at(i).pos, grid, cfg.bounds_margin as int)
            ==> !post.slot_alive(i) && post.slots@[i].gen == pre.slots@[i].gen + 1
    &&& forall|i: int|
        0 <= i < pre.slots@.len() && !pre.slot_alive(i) ==> post.slots@[i] == pre.slots@[i]
    &&& forall|i: int|
        #[trigger] post.slot_alive(i)
            ==> !dot_out_of_bounds(post.at(i).pos, grid, cfg.bounds_margin as int)
}

/// Despawn every dot that has left the playable bounds by more than the
/// margin, without emitting damage. Dots inside the margin travel on.
pub fn check_bounds(dots: &mut Arena<Dot>, grid: &Grid, cfg: &Config)
    requires
        old(dots).wf(),
        cfg.wf(),
        grid.wf(),
        dots_ok(*old(dots)),
    ensures
        bounds_post(*old(dots), *final(dots), *grid, *cfg),
{
    let ghost pre = dots.slots@;
    let n = dots.slots.len();
    let margin = cfg.bounds_margin;
    let mut i: usize = 0;
    while i < n
        invariant
            old(dots).wf(),
            pre == old(dots).slots@,
            cfg.wf(),
            grid.wf(),
            dots_ok(*old(dots)),
            margin == cfg.bounds_margin,
            n == pre.len(),
            dots.slots@.len() == n,
            i <= n,
            dots.wf(),
            forall|j: int| i <= j < n ==> dots.slots@[j] == pre[j],
            forall|j: int|
                0 <= j < i && pre[j].val is Some && !dot_out_of_bounds(pre[j].val->0.pos, *grid,
                    cfg.bounds_margin as int)
                    ==> dots.slots@[j] == pre[j],
            forall|j: int|
                0 <= j < i && pre[j].val is Some && dot_out_of_bounds(pre[j].val->0.pos, *grid,
                    cfg.bounds_margin as int)
                    ==> (#[trigger] dots.slots@[j]) == (Slot {
                        gen: (pre[j].gen + 1) as u64,
                        val: None::<Dot>,
                    }),
            forall|j: int| 0 <= j < i && pre[j].val is None ==> dots.slots@[j] == pre[j],
        decreases n - i,
    {
        let s = dots.slots[i];
        if s.val.is_some() {
            let d = s.val.unwrap();
            proof {
                assert(old(dots).slot_alive(i as int));
            }
            let x = d.pos.x;
            let y = d.pos.y;
            if x <= -margin || x >= grid.width + margin || y <= -margin
                || y >= grid.height + margin {
                dots.slots[i] = Slot { gen: s.gen + 1, val: None };
            }
        }
        i = i + 1;
    }
    proof {
        assert forall|i2: int| final(dots).slot_alive(i2) implies dot_ok(
            final(dots).at(i2)) by {
            assert(old(dots).slot_alive(i2));
        }
    }
}

/// Whether the player carries the dot ability modifier at all.
pub fn has_dot_mod(dot_mod: &Option<DotMod>) -> (r: bool)
    ensures
        r == (dot_mod is Some),
{
    dot_mod.is_some()
}

/// The time gate for firing: the first evaluation fires immediately and
/// records the time; afterwards a shot fires exactly when the interval has
/// elapsed since the last recorded shot, re-recording the time.
pub fn spawn_dot_condition(last_spawn: Option<u64>, now_ms: u64, interval_ms: u64) -> (r: (
    bool,
    Option<u64>,
))
    requires
        last_spawn is Some ==> last_spawn->0 <= now_ms,
    ensures
        last_spawn is None ==> r == (true, Some(now_ms)),
        last_spawn is Some && now_ms - last_spawn->0 >= interval_ms
            ==> r == (true, Some(now_ms)),
        last_spawn is Some && now_ms - last_spawn->0 < interval_ms
            ==> r == (false, last_spawn),
{
    if last_spawn.is_some() {
        let t = last_spawn.unwrap();
        if now_ms - t >= interval_ms {
            (true, Some(now_ms))
        } else {
            (false, last_spawn)
        }
    } else {
        (true, Some(now_ms))
    }
}

/// Despawn every dot, as happens when play ends.
pub fn despawn_dots(dots: &mut Arena<Dot>)
    requires
        old(dots).wf(),
    ensures
        final(dots).wf(),
        final(dots).slots@.len() == old(dots).slots@.len(),
        forall|i: int| !final(dots).slot_alive(i),
        final(dots).alive_count() == 0,
{
    let n = dots.slots.len();
    let mut i: usize = 0;
    while i < n
        invariant
            old(dots).wf(),
            n == old(dots).slots@.len(),
            dots.slots@.len() == n,
            i <= n,
            dots.wf(),
            forall|j: int| 0 <= j < i ==> !(#[trigger] dots.slots@[j].val is Some),
            forall|j: int| i <= j < n ==> dots.slots@[j] == old(dots).slots@[j],
        decreases n - i,
    {
        let s = dots.slots[i];
        if s.val.is_some() {
            dots.slots[i] = Slot { gen: s.gen + 1, val: None };
        } else {
            dots.slots[i] = Slot { gen: s.gen, val: None };
        }
        i = i + 1;
    }
    proof {
        crate::arena::lemma_alive_upto_zero(dots.slots@, n as int);
    }
}

} // verus!
