//! Player progression and the consumers that feed it: reward delivery sums
//! into experience, a threshold crossing levels the player up exactly once
//! per tick, and enemy contact drains player health over time. Player health
//! is held in thousandths of a hit point so damage-over-time rates stay
//! exact on integers.

use vstd::prelude::*;
use crate::arena::Arena;
use crate::config::Config;
use crate::enemies::Triangle;
use crate::events::{PlayerLevelUpEvent, SendExperienceEvent};
use crate::vec2::{dist_sq, div_trunc, tdiv, Vec2i, COORD_LIMIT};

verus! {

/// Default player movement speed, world units per second.
pub const PLAYER_SPEED: i64 = 250;

/// Experience thresholds saturate here; no real session approaches it.
pub const XP_THRESHOLD_CAP: u64 = 1_000_000_000_000_000_000;

/// The player's progression and vital state: `xp` is (current, threshold for
/// the next level), `health` is (current, maximum) in thousandths of a hit
/// point.
#[derive(Clone, Copy, Debug)]
pub struct Player {
    pub xp: (u64, u64),
    pub lv: u32,
    pub health: (i64, i64),
    pub speed: i64,
}

/// The threshold after one level-up: it grows by half, saturating at the
/// cap.
pub open spec fn next_threshold(t: int) -> int {
    if 3 * t / 2 >= XP_THRESHOLD_CAP {
        XP_THRESHOLD_CAP as int
    } else {
        3 * t / 2
    }
}

impl Player {
    /// Ranges that keep all progression arithmetic inside its types.
    pub open spec fn wf(self) -> bool {
        &&& 1 <= self.xp.1 <= XP_THRESHOLD_CAP
        &&& self.xp.0 <= 2_000_000_000_000_000_000
        &&& 0 <= self.health.0 <= self.health.1 <= 1_000_000_000_000
        &&& 1 <= self.speed <= 10_000
    }

    /// Level up: the level counter advances (saturating only at the very top
    /// of its type), the threshold grows by half, and current experience
    /// resets to zero.
    pub fn level_up(&mut self)
        requires
            old(self).wf(),
        ensures
            final(self).wf(),
            final(self).lv == if old(self).lv < u32::MAX {
                old(self).lv + 1
            } else {
                old(self).lv as int
            },
            final(self).xp.1 == next_threshold(old(self).xp.1 as int),
            final(self).xp.0 == 0,
            final(self).health == old(self).health,
            final(self).speed == old(self).speed,
    {
        if self.lv < u32::MAX {
            self.lv = self.lv + 1;
        }
        let t = self.xp.1;
        let grown = 3 * t / 2;
        if grown >= XP_THRESHOLD_CAP {
            self.xp = (0, XP_THRESHOLD_CAP);
        } else {
            self.xp = (0, grown);
        }
    }

    /// Take contact damage: health drops by `amount` (in thousandths) and is
    /// clamped at zero — the player's health never rests below zero.
    pub fn take_damage(&mut self, amount: i64)
        requires
            old(self).wf(),
            0 <= amount <= 1_000_000_000_000_000,
        ensures
            final(self).wf(),
            final(self).health.0 == if old(self).health.0 - amount >= 0 {
                old(self).health.0 - amount
            } else {
                0int
            },
            final(self).health.1 == old(self).health.1,
            final(self).xp == old(self).xp,
            final(self).lv == old(self).lv,
            final(self).speed == old(self).speed,
    {
        let h = self.health.0 - amount;
        if h < 0 {
            self.health = (0, self.health.1);
        } else {
            self.health = (h, self.health.1);
        }
    }
}

impl Default for Player {
    /// The starting player: no experience with a threshold of 10, level 0,
    /// full health of 10 points (10000 thousandths), standard speed.
    fn default() -> (p: Player)
        ensures
            p.wf(),
            p.xp == (0u64, 10u64),
            p.lv == 0,
            p.health == (10_000i64, 10_000i64),
            p.speed == PLAYER_SPEED,
    {
        Player { xp: (0, 10), lv: 0, health: (10_000, 10_000), speed: PLAYER_SPEED }
    }
}

/// Sum of the reward values of the first `k` reward events.
pub open spec fn xp_sum(evs: Seq<SendExperienceEvent>, k: int) -> int
    decreases k,
{
    if k <= 0 {
        0
    } else {
        xp_sum(evs, k - 1) + evs[k - 1].0
    }
}

/// Each event carries at most `lim` reward, so any prefix sum is bounded.
pub proof fn lemma_xp_sum_bounds(evs: Seq<SendExperienceEvent>, k: int, lim: int)
    requires
        0 <= k <= evs.len(),
        0 <= lim,
        forall|j: int| 0 <= j < evs.len() ==> (#[trigger] evs[j]).0 <= lim,
    ensures
        0 <= xp_sum(evs, k) <= k * lim,
    decreases k,
{
    if k > 0 {
        lemma_xp_sum_bounds(evs, k - 1, lim);
        assert((k - 1) * lim + lim == k * lim) by (nonlinear_arith);
    }
}

/// The level-up signals one reward total produces: exactly one, carrying
/// the new level, when the total reaches the threshold; none otherwise.
pub open spec fn level_ups_emitted(pre: Player, total: int) -> Seq<PlayerLevelUpEvent> {
    if pre.xp.0 + total >= pre.xp.1 {
        seq![
            PlayerLevelUpEvent(
                (if pre.lv < u32::MAX {
                    pre.lv + 1
                } else {
                    pre.lv as int
                }) as u32,
            ),
        ]
    } else {
        Seq::empty()
    }
}

/// How one reward total advances the player: below the threshold it only
/// accumulates; at or above, the player levels up exactly once — level up by
/// one, threshold grown by half, experience reset — however far the total
/// overshoots.
pub open spec fn progress_post(pre: Player, post: Player, total: int) -> bool {
    &&& pre.xp.0 + total < pre.xp.1 ==> post == (Player {
        xp: ((pre.xp.0 + total) as u64, pre.xp.1),
        ..pre
    })
    &&& pre.xp.0 + total >= pre.xp.1 ==> post == (Player {
        xp: (0u64, next_threshold(pre.xp.1 as int) as u64),
        lv: (if pre.lv < u32::MAX {
            pre.lv + 1
        } else {
            pre.lv as int
        }) as u32,
        ..pre
    })
}

/// The progression consumer: all reward events of the tick are summed and
/// added to current experience; if the total reaches the threshold, the
/// player levels up — exactly once per tick, however far the total
/// overshoots — and one level-up signal is emitted. The buffer is drained.
pub fn add_xp(
    player: &mut Player,
    rewards: &mut Vec<SendExperienceEvent>,
    level_ups: &mut Vec<PlayerLevelUpEvent>,
)
    requires
        old(player).wf(),
        old(rewards)@.len() <= 1_000_000,
        forall|j: int| 0 <= j < old(rewards)@.len() ==> (#[trigger] old(rewards)@[j]).0 <= 1_000_000_000,
        old(player).xp.0 + xp_sum(old(rewards)@, old(rewards)@.len() as int)
            <= 2_000_000_000_000_000_000,
    ensures
        final(player).wf(),
        final(rewards)@.len() == 0,
        progress_post(*old(player), *final(player), xp_sum(old(rewards)@,
            old(rewards)@.len() as int)),
        final(level_ups)@ == old(level_ups)@ + level_ups_emitted(*old(player), xp_sum(
            old(rewards)@, old(rewards)@.len() as int)),
{
    let n_ev = rewards.len();
    let mut total: u64 = 0;
    let mut k: usize = 0;
    while k < n_ev
        invariant
            n_ev == rewards@.len(),
            rewards@ == old(rewards)@,
            n_ev <= 1_000_000,
            forall|j: int|
                0 <= j < old(rewards)@.len() ==> (#[trigger] old(rewards)@[j]).0
                    <= 1_000_000_000,
            k <= n_ev,
            total == xp_sum(rewards@, k as int),
            total <= (k as int) * 1_000_000_000,
        decreases n_ev - k,
    {
        proof {
            lemma_xp_sum_bounds(rewards@, k + 1, 1_000_000_000);
        }
        total = total + rewards[k].0;
        k = k + 1;
    }
    rewards.clear();
    let new_xp = player.xp.0 + total;
    if new_xp >= player.xp.1 {
        player.xp = (new_xp, player.xp.1);
        player.level_up();
        level_ups.push(PlayerLevelUpEvent(player.lv));
        proof {
            assert(level_ups@ =~= old(level_ups)@ + level_ups_emitted(*old(player),
                total as int));
        }
    } else {
        player.xp = (new_xp, player.xp.1);
        proof {
            assert(level_ups@ =~= old(level_ups)@ + level_ups_emitted(*old(player),
                total as int));
        }
    }
}

/// How many of the first `k` enemy slots hold an enemy in contact range of
/// the player (true distance strictly below the range).
pub open spec fn contacts_upto(
    s: Seq<crate::arena::Slot<Triangle>>,
    player_pos: Vec2i,
    range: int,
    k: int,
) -> int
    decreases k,
{
    if k <= 0 {
        0
    } else {
        contacts_upto(s, player_pos, range, k - 1) + if s[k - 1].val is Some && dist_sq(
            s[k - 1].val->0.pos,
            player_pos,
        ) < range * range {
            1int
        } else {
            0int
        }
    }
}

/// How one contact pass changes the player: health drops by one tick's
/// drain (`rate × dt`, truncated) per enemy in contact range, clamped at
/// zero; nothing else moves.
pub open spec fn contact_post(
    pre: Player,
    post: Player,
    player_pos: Vec2i,
    enemies: Arena<Triangle>,
    cfg: Config,
    dt: int,
) -> bool {
    let drain = contacts_upto(enemies.slots@, player_pos, cfg.contact_range as int,
        enemies.slots@.len() as int) * tdiv(cfg.contact_rate * dt, 1000);
    &&& post.xp == pre.xp
    &&& post.lv == pre.lv
    &&& post.speed == pre.speed
    &&& post.health.1 == pre.health.1
    &&& post.health.0 == if pre.health.0 - drain >= 0 {
        pre.health.0 - drain
    } else {
        0int
    }
}

/// Enemy contact damage: each enemy within contact range drains the player
/// by `rate × dt` thousandths of a hit point this tick, clamped at zero
/// health. The resulting health is exactly the old health minus one tick's
/// drain per enemy in range, or zero if that would go below.
pub fn player_enemy_collision(
    player: &mut Player,
    player_pos: Vec2i,
    enemies: &Arena<Triangle>,
    cfg: &Config,
    dt_ms: i64,
)
    requires
        old(player).wf(),
        cfg.wf(),
        1 <= dt_ms <= 10_000,
        player_pos.bounded(COORD_LIMIT as int),
        crate::steering::positions_bounded(*enemies),
        enemies.slots@.len() <= 1_000_000,
    ensures
        final(player).wf(),
        contact_post(*old(player), *final(player), player_pos, *enemies, *cfg, dt_ms as int),
{
    proof {
        assert(0 <= cfg.contact_rate * dt_ms <= 10_000_000_000) by (nonlinear_arith)
            requires
                0 <= cfg.contact_rate <= 1_000_000,
                1 <= dt_ms <= 10_000,
        ;
    }
    let amount: i64 = div_trunc(cfg.contact_rate * dt_ms, 1000);
    let n = enemies.slots.len();
    let mut i: usize = 0;
    while i < n
        invariant
            old(player).wf(),
            cfg.wf(),
            1 <= dt_ms <= 10_000,
            player_pos.bounded(COORD_LIMIT as int),
            crate::steering::positions_bounded(*enemies),
            n == enemies.slots@.len(),
            n <= 1_000_000,
            i <= n,
            0 <= amount <= 10_000_000,
            player.wf(),
            player.xp == old(player).xp,
            player.lv == old(player).lv,
            player.speed == old(player).speed,
            player.health.1 == old(player).health.1,
            ({
                let drain = contacts_upto(enemies.slots@, player_pos,
                    cfg.contact_range as int, i as int) * (amount as int);
                player.health.0 == if old(player).health.0 - drain >= 0 {
                    old(player).health.0 - drain
                } else {
                    0int
                }
            }),
        decreases n - i,
    {
        proof {
            lemma_contacts_upto_bounds(enemies.slots@, player_pos, cfg.contact_range as int,
                i as int);
            lemma_contacts_upto_bounds(enemies.slots@, player_pos, cfg.contact_range as int,
                i + 1);
            assert(contacts_upto(enemies.slots@, player_pos, cfg.contact_range as int, i + 1)
                * (amount as int) <= 1_000_000 * 10_000_000
                && contacts_upto(enemies.slots@, player_pos, cfg.contact_range as int,
                    i as int) * (amount as int) >= 0
                && (contacts_upto(enemies.slots@, player_pos, cfg.contact_range as int,
                    i as int) + 1) * (amount as int) == contacts_upto(enemies.slots@,
                    player_pos, cfg.contact_range as int, i as int) * (amount as int)
                    + amount) by (nonlinear_arith)
                requires
                    0 <= contacts_upto(enemies.slots@, player_pos, cfg.contact_range as int,
                        i as int) <= 1_000_000,
                    0 <= contacts_upto(enemies.slots@, player_pos, cfg.contact_range as int,
                        i + 1) <= 1_000_000,
                    contacts_upto(enemies.slots@, player_pos, cfg.contact_range as int, i + 1)
                        <= contacts_upto(enemies.slots@, player_pos,
                        cfg.contact_range as int, i as int) + 1,
                    0 <= amount <= 10_000_000,
            ;
        }
        let s = enemies.slots[i];
        if s.val.is_some() {
            let t = s.val.unwrap();
            proof {
                assert(enemies.slot_alive(i as int));
                assert(0 <= (t.pos.x - player_pos.x) * (t.pos.x - player_pos.x)
                    && 0 <= (t.pos.y - player_pos.y) * (t.pos.y - player_pos.y)
                    && (t.pos.x - player_pos.x) * (t.pos.x - player_pos.x) + (t.pos.y
                    - player_pos.y) * (t.pos.y - player_pos.y) <= 8_000_000_000_000_000_000
                    && 0 <= cfg.contact_range * cfg.contact_range <= 10_000_000_000)
                    by (nonlinear_arith)
                    requires
                        -2_000_000_000 <= t.pos.x - player_pos.x <= 2_000_000_000,
                        -2_000_000_000 <= t.pos.y - player_pos.y <= 2_000_000_000,
                        1 <= cfg.contact_range <= 100_000,
                ;
            }
            let dxv = t.pos.x - player_pos.x;
            let dyv = t.pos.y - player_pos.y;
            let d2: i64 = dxv * dxv + dyv * dyv;
            if d2 < cfg.contact_range * cfg.contact_range {
                player.take_damage(amount);
            }
        }
        i = i + 1;
    }
}

/// Clamping a coordinate between two bounds.
pub open spec fn clamp_between(x: int, lo: int, hi: int) -> int {
    if x < lo {
        lo
    } else if x > hi {
        hi
    } else {
        x
    }
}

/// One tick of player movement from held direction keys: the intent vector
/// (scaled up so its integer magnitude is meaningful) is normalised — a
/// diagonal is not faster than a straight line — then scaled by
/// `speed × dt`, added to the position, and the result is clamped so the
/// player's half-extent stays inside the playable rectangle.
pub fn move_player(
    pos: Vec2i,
    up: bool,
    left: bool,
    down: bool,
    right: bool,
    speed: i64,
    dt_ms: i64,
    half_w: i64,
    half_h: i64,
    grid: &crate::grid::Grid,
) -> (r: Vec2i)
    requires
        pos.bounded(COORD_LIMIT as int),
        1 <= speed <= 10_000,
        1 <= dt_ms <= 10_000,
        grid.wf(),
        0 <= half_w,
        0 <= half_h,
        2 * half_w <= grid.width,
        2 * half_h <= grid.height,
    ensures
        ({
            let dir = Vec2i {
                x: (1000 * ((if right { 1int } else { 0int }) - (if left {
                    1int
                } else {
                    0int
                }))) as i64,
                y: (1000 * ((if up { 1int } else { 0int }) - (if down {
                    1int
                } else {
                    0int
                }))) as i64,
            };
            let num = speed * dt_ms;
            r.x == clamp_between(pos.x + crate::vec2::step_x(dir, num as int, 1000), half_w as int,
                grid.width - half_w)
                && r.y == clamp_between(pos.y + crate::vec2::step_y(dir, num as int, 1000),
                half_h as int, grid.height - half_h)
        }),
        r.bounded(COORD_LIMIT as int),
{
    let dx: i64 = 1000 * ((if right { 1i64 } else { 0i64 }) - (if left { 1i64 } else { 0i64 }));
    let dy: i64 = 1000 * ((if up { 1i64 } else { 0i64 }) - (if down { 1i64 } else { 0i64 }));
    proof {
        assert(1 <= speed * dt_ms <= 100_000_000) by (nonlinear_arith)
            requires
                1 <= speed <= 10_000,
                1 <= dt_ms <= 10_000,
        ;
    }
    let num: i64 = speed * dt_ms;
    let stp = crate::vec2::norm_step(Vec2i { x: dx, y: dy }, num, 1000);
    let nx0 = pos.x + stp.x;
    let ny0 = pos.y + stp.y;
    let nx = if nx0 < half_w {
        half_w
    } else if nx0 > grid.width - half_w {
        grid.width - half_w
    } else {
        nx0
    };
    let ny = if ny0 < half_h {
        half_h
    } else if ny0 > grid.height - half_h {
        grid.height - half_h
    } else {
        ny0
    };
    Vec2i { x: nx, y: ny }
}

/// Prefix contact counts lie between 0 and `k` and grow by at most one.
pub proof fn lemma_contacts_upto_bounds(
    s: Seq<crate::arena::Slot<Triangle>>,
    player_pos: Vec2i,
    range: int,
    k: int,
)
    requires
        0 <= k,
    ensures
        0 <= contacts_upto(s, player_pos, range, k) <= k,
        contacts_upto(s, player_pos, range, k) <= contacts_upto(s, player_pos, range, k + 1)
            <= contacts_upto(s, player_pos, range, k) + 1,
    decreases k,
{
    if k > 0 {
        lemma_contacts_upto_bounds(s, player_pos, range, k - 1);
    }
}

} // verus!
