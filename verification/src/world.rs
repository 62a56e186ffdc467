//! The simulation world and its tick. One tick runs the phases in their
//! required order: horde spawning and steering update enemy positions, the
//! targetability gate reclassifies, projectile resolution spawns, moves and
//! impacts dots (emitting damage events), the health pipeline consumes the
//! damage and resolves deaths (emitting pickup spawns), experience
//! collection moves and collects pickups (emitting rewards), and the
//! progression consumer sums the rewards, levelling the player up at most
//! once. Every event buffer is drained within the tick that filled it, and
//! the tick returns a ghost trace of the intermediate states through which
//! its contract forces the final state to be exactly the result of running
//! the phases in this order.

use vstd::prelude::*;
use crate::abilities::{
    bounds_post, check_bounds, dot_spawn_post, dots_ok, enemy_impact, has_dot_mod, impact_post,
    impacts_upto, lemma_impacts_bounds, move_dots, spawn_dot, spawn_dot_condition, travel_post,
    Dot, DotMod,
};
use crate::arena::{Arena, Handle};
use crate::config::Config;
use crate::drops::{
    attract_post, collect_post, collects_upto, move_drops, pickup_spawn_post, pickups_ok,
    player_collect, spawn_experience, Pickup, PICKUP_CAP,
};
use crate::enemies::{
    check_health, damage_enemies, damage_post, death_post, deaths_upto, enemies_ok, gate_post,
    lemma_deaths_upto_bounds, lemma_deaths_upto_len, lemma_dmg_upto_bounds,
    update_enemy_targetable, Triangle,
};
use crate::events::{
    ExperienceSpawnEvent, PlayerLevelUpEvent, SendExperienceEvent, TransmitDamage,
};
use crate::grid::Grid;
use crate::player::{
    add_xp, contact_post, level_ups_emitted, player_enemy_collision, progress_post, xp_sum,
    Player,
};
use crate::steering::{
    avoid_other_triangles, avoid_post, direction_to_player, integrate_post, move_triangle,
    movers_bounded, positions_bounded, seek_post, spawn_post, spawn_triangles, NOISE_LIMIT,
};
use crate::vec2::{Vec2i, COORD_LIMIT};

verus! {

/// The whole simulation state: configuration, the playable grid, the player
/// and its position, the three entity arenas, the per-tick event buffers,
/// and the projectile-spawn timer.
pub struct World {
    pub cfg: Config,
    pub grid: Grid,
    pub player: Player,
    pub player_pos: Vec2i,
    pub enemies: Arena<Triangle>,
    pub dots: Arena<Dot>,
    pub pickups: Arena<Pickup>,
    pub damage_events: Vec<TransmitDamage>,
    pub xp_spawn_events: Vec<ExperienceSpawnEvent>,
    pub reward_events: Vec<SendExperienceEvent>,
    pub level_up_events: Vec<PlayerLevelUpEvent>,
    pub dot_mod: Option<DotMod>,
    pub last_dot_spawn: Option<u64>,
    pub now_ms: u64,
    pub spawn_radius: i64,
}

/// The ghost witness one tick returns: the state of each arena (and the
/// player) between the phases. The tick's contract chains the phase
/// relations over these states, so the world after a tick is provably the
/// result of running the whole pipeline in order.
pub struct TickTrace {
    /// Enemies after the horde spawner.
    pub spawned: Arena<Triangle>,
    /// Enemies after the seek pass.
    pub sought: Arena<Triangle>,
    /// Enemies after the pairwise-repulsion pass.
    pub avoided: Arena<Triangle>,
    /// Enemies after movement integration.
    pub moved: Arena<Triangle>,
    /// Enemies after the targetability gate — what this tick's targeting
    /// and damage saw.
    pub gated: Arena<Triangle>,
    /// Enemies after damage application, before death resolution.
    pub damaged: Arena<Triangle>,
    /// Dots after the gated shot.
    pub dots_spawned: Arena<Dot>,
    /// Dots after travel.
    pub dots_moved: Arena<Dot>,
    /// Dots after impact resolution.
    pub dots_impacted: Arena<Dot>,
    /// Pickups after spawning at death positions.
    pub pickups_spawned: Arena<Pickup>,
    /// Pickups after attraction.
    pub pickups_moved: Arena<Pickup>,
    /// The player after progression, before contact damage.
    pub progressed: Player,
}

/// Whether the projectile-spawn gate fires at time `now`: it always fires
/// on its first evaluation, and afterwards exactly when the interval has
/// elapsed since the recorded shot.
pub open spec fn dot_gate_fires(last: Option<u64>, now: int, interval: int) -> bool {
    last is None || now - last->0 >= interval
}

impl World {
    /// The invariant a world satisfies at every tick boundary.
    pub open spec fn wf(self) -> bool {
        &&& self.cfg.wf()
        &&& self.grid.wf()
        &&& self.player.wf()
        &&& self.player.xp.0 < self.player.xp.1
        &&& self.player_pos.bounded(COORD_LIMIT as int / 2)
        &&& self.enemies.wf()
        &&& enemies_ok(self.enemies)
        &&& movers_bounded(self.enemies, NOISE_LIMIT as int)
        &&& forall|i: int| #[trigger] self.enemies.slot_alive(i) ==> self.enemies.at(i).health > 0
        &&& self.enemies.slots@.len() <= 1_000
        &&& self.dots.wf()
        &&& dots_ok(self.dots)
        &&& self.dots.slots@.len() <= 1_000
        &&& self.pickups.wf()
        &&& pickups_ok(self.pickups)
        &&& self.pickups.slots@.len() <= PICKUP_CAP
        &&& self.damage_events@.len() == 0
        &&& self.xp_spawn_events@.len() == 0
        &&& self.reward_events@.len() == 0
        &&& (self.last_dot_spawn is Some ==> self.last_dot_spawn->0 <= self.now_ms)
        &&& 1 <= self.spawn_radius <= 100_000
    }

    /// A fresh world with the standard tuning: the player stands at the
    /// centre of the grid at full health, already carrying the dot ability
    /// with its standard firing interval, and no entities exist yet.
    pub fn new() -> (w: World)
        ensures
            w.wf(),
            w.cfg == (Config {
                enemy_speed: 200,
                enemy_avoid_num: 3,
                enemy_avoid_den: 10,
                enemy_size: 32,
                enemy_health: 100,
                enemy_cap: 5,
                spawn_batch: 10,
                ability_speed: 500,
                dot_damage: 100,
                dot_radius: 2,
                dot_interval_ms: 1000,
                bounds_margin: 10,
                drops_threshold: 200,
                drops_pull: 2,
                enemy_hit: 32,
                player_hit: 32,
                pickup_hit: 1,
                contact_range: 32,
                contact_rate: 5_000,
                player_speed: 250,
            }),
            w.grid == (Grid { width: crate::grid::GRID_WIDTH, height: crate::grid::GRID_HEIGHT }),
            w.enemies.alive_count() == 0,
            w.dots.alive_count() == 0,
            w.pickups.alive_count() == 0,
            w.player == (Player {
                xp: (0u64, 10u64),
                lv: 0,
                health: (10_000i64, 10_000i64),
                speed: 250,
            }),
            w.player_pos == (Vec2i {
                x: (crate::grid::GRID_WIDTH / 2) as i64,
                y: (crate::grid::GRID_HEIGHT / 2) as i64,
            }),
            w.dot_mod == Some(DotMod { interval_ms: 1000 }),
            w.last_dot_spawn is None,
            w.level_up_events@.len() == 0,
            w.now_ms == 0,
    {
        let cfg = Config::standard();
        let grid = Grid::standard();
        let player = Player::default();
        let player_pos = Vec2i { x: grid.width / 2, y: grid.height / 2 };
        World {
            cfg,
            grid,
            player,
            player_pos,
            enemies: Arena::new(),
            dots: Arena::new(),
            pickups: Arena::new(),
            damage_events: Vec::new(),
            xp_spawn_events: Vec::new(),
            reward_events: Vec::new(),
            level_up_events: Vec::new(),
            dot_mod: Some(DotMod { interval_ms: cfg.dot_interval_ms }),
            last_dot_spawn: None,
            now_ms: 0,
            spawn_radius: 640,
        }
    }

    /// Move the player to a new (host-computed) position.
    pub fn set_player_pos(&mut self, p: Vec2i)
        requires
            old(self).wf(),
            p.bounded(COORD_LIMIT as int / 2),
        ensures
            final(self).wf(),
            final(self).player_pos == p,
            *final(self) == (World { player_pos: p, ..*old(self) }),
    {
        self.player_pos = p;
    }

    /// One simulation tick of `dt_ms` milliseconds. The returned ghost
    /// trace holds the state between the phases, and the contract chains
    /// every phase relation over it: the spawner, the three steering
    /// passes, the targetability gate, the gated shot, travel, impact and
    /// bounds resolution, damage application, death resolution, pickup
    /// spawning, attraction, collection, progression and contact damage —
    /// in exactly that order. The invariant is preserved, the clock
    /// advances, and every projectile that survives the tick keeps exactly
    /// the direction and speed it was spawned with.
    pub fn tick(&mut self, dt_ms: i64) -> (trace: Ghost<TickTrace>)
        requires
            old(self).wf(),
            1 <= dt_ms <= 10_000,
            old(self).now_ms + dt_ms <= u64::MAX,
        ensures
            final(self).wf(),
            final(self).cfg == old(self).cfg,
            final(self).grid == old(self).grid,
            final(self).dot_mod == old(self).dot_mod,
            final(self).spawn_radius == old(self).spawn_radius,
            final(self).player_pos == old(self).player_pos,
            final(self).now_ms == old(self).now_ms + dt_ms,
            ({
                let t = trace@;
                let now2 = old(self).now_ms + dt_ms;
                let dmg = impacts_upto(t.dots_moved.slots@, t.gated.slots@,
                    t.dots_moved.slots@.len() as int, old(self).cfg);
                let deaths = deaths_upto(t.damaged.slots@, t.damaged.slots@.len() as int);
                let rewards = collects_upto(t.pickups_moved.slots@, old(self).player_pos,
                    old(self).cfg, t.pickups_moved.slots@.len() as int);
                let total = xp_sum(rewards, rewards.len() as int);
                &&& spawn_post(old(self).enemies, t.spawned, old(self).player_pos,
                    old(self).spawn_radius as int, old(self).cfg)
                &&& seek_post(t.spawned, t.sought, old(self).player_pos)
                &&& avoid_post(t.sought, t.avoided, old(self).cfg)
                &&& integrate_post(t.avoided, t.moved, old(self).cfg, dt_ms as int)
                &&& gate_post(t.moved, t.gated, old(self).grid)
                &&& (match old(self).dot_mod {
                    Some(dm) => if dot_gate_fires(old(self).last_dot_spawn, now2,
                        dm.interval_ms as int) {
                        dot_spawn_post(old(self).dots, t.dots_spawned, t.gated,
                            old(self).player_pos, old(self).cfg)
                            && final(self).last_dot_spawn == Some(now2 as u64)
                    } else {
                        t.dots_spawned == old(self).dots
                            && final(self).last_dot_spawn == old(self).last_dot_spawn
                    },
                    None => t.dots_spawned == old(self).dots
                        && final(self).last_dot_spawn == old(self).last_dot_spawn,
                })
                &&& travel_post(t.dots_spawned, t.dots_moved, dt_ms as int)
                &&& impact_post(t.dots_moved, t.dots_impacted, t.gated, old(self).cfg)
                &&& bounds_post(t.dots_impacted, final(self).dots, old(self).grid,
                    old(self).cfg)
                &&& damage_post(t.gated, t.damaged, dmg)
                &&& death_post(t.damaged, final(self).enemies)
                &&& pickup_spawn_post(old(self).pickups, t.pickups_spawned, deaths)
                &&& attract_post(t.pickups_spawned, t.pickups_moved, old(self).player_pos,
                    old(self).cfg, dt_ms as int)
                &&& collect_post(t.pickups_moved, final(self).pickups, old(self).player_pos,
                    old(self).cfg)
                &&& progress_post(old(self).player, t.progressed, total)
                &&& final(self).level_up_events@ == old(self).level_up_events@
                    + level_ups_emitted(old(self).player, total)
                &&& contact_post(t.progressed, final(self).player, old(self).player_pos,
                    final(self).enemies, old(self).cfg, dt_ms as int)
            }),
            forall|h: Handle|
                old(self).dots.is_alive(h) && final(self).dots.is_alive(h)
                    ==> #[trigger] final(self).dots.at(h.idx as int).projectile
                        == old(self).dots.at(h.idx as int).projectile,
    {
        let ghost e0 = self.enemies;
        // Horde spawning: up to the population cap, a batch of fresh enemies
        // appears on a ring around the player.
        spawn_triangles(&mut self.enemies, self.player_pos, self.spawn_radius, &self.cfg);
        let ghost e1 = self.enemies;
        proof {
            assert forall|i: int| #[trigger] e1.slot_alive(i)
                implies crate::enemies::enemy_ok(e1.at(i)) && e1.at(i).mover.dxdy.bounded(
                    NOISE_LIMIT as int) && e1.at(i).health > 0 by {
                if e0.slot_alive(i) {
                    let h2 = e0.handle_of(i);
                    assert(e0.is_alive(h2));
                    assert(e1.at(i) == e0.at(i));
                }
            }
        }
        // Steering: seek toward the player, then pairwise repulsion, then
        // one integration step with fresh noise.
        direction_to_player(&mut self.enemies, self.player_pos);
        let ghost e2 = self.enemies;
        avoid_other_triangles(&mut self.enemies, &self.cfg);
        let ghost e3 = self.enemies;
        move_triangle(&mut self.enemies, &self.cfg, dt_ms);
        let ghost e4 = self.enemies;
        proof {
            assert forall|i: int| #[trigger] e4.slot_alive(i)
                implies crate::enemies::enemy_ok(e4.at(i)) && 0 < e4.at(i).health <= 1_000_000
                by {
                assert(e3.slot_alive(i));
                assert(e2.slot_alive(i));
            }
        }
        // The targetability gate reclassifies every enemy from its live
        // position, before anything selects a target this tick.
        update_enemy_targetable(&mut self.enemies, &self.grid);
        let ghost e5 = self.enemies;
        proof {
            assert forall|i: int| #[trigger] e5.slot_alive(i)
                implies crate::enemies::enemy_ok(e5.at(i)) && 0 < e5.at(i).health <= 1_000_000
                    && e5.at(i).mover.dxdy.bounded(NOISE_LIMIT as int) by {
                assert(e4.slot_alive(i));
            }
            assert(positions_bounded(self.enemies));
        }
        // Advance the clock, then resolve the projectile phase: the gated
        // spawn, travel, impact, and the out-of-bounds check.
        self.now_ms = self.now_ms + (dt_ms as u64);
        let ghost d0 = self.dots;
        if has_dot_mod(&self.dot_mod) {
            let interval = self.dot_mod.unwrap().interval_ms;
            let gate = spawn_dot_condition(self.last_dot_spawn, self.now_ms, interval);
            self.last_dot_spawn = gate.1;
            if gate.0 {
                spawn_dot(&mut self.dots, &self.enemies, self.player_pos, &self.cfg);
            }
        }
        let ghost d1 = self.dots;
        proof {
            assert forall|i: int| #[trigger] d1.slot_alive(i)
                implies crate::abilities::dot_ok(d1.at(i)) by {
                if d0.slot_alive(i) {
                    let h2 = d0.handle_of(i);
                    assert(d0.is_alive(h2));
                    assert(d1.at(i) == d0.at(i));
                }
            }
        }
        move_dots(&mut self.dots, dt_ms);
        let ghost d2 = self.dots;
        enemy_impact(&mut self.dots, &self.enemies, &mut self.damage_events, &self.cfg);
        let ghost d3 = self.dots;
        check_bounds(&mut self.dots, &self.grid, &self.cfg);
        let ghost d4 = self.dots;
        // The health pipeline: apply all damage of the tick, then resolve
        // deaths in one atomic pass, emitting one pickup spawn per death.
        let ghost dmg_seq = self.damage_events@;
        proof {
            assert(dmg_seq =~= impacts_upto(d2.slots@, e5.slots@, d2.slots@.len() as int,
                self.cfg));
            assert forall|j: int|
                0 <= j < d2.slots@.len() && #[trigger] d2.slots@[j].val is Some
                    implies 0 <= d2.slots@[j].val->0.damage <= 1_000_000 by {
                assert(d2.slot_alive(j));
            }
            lemma_impacts_bounds(d2.slots@, e5.slots@, d2.slots@.len() as int, self.cfg);
        }
        damage_enemies(&mut self.enemies, &self.damage_events);
        self.damage_events.clear();
        let ghost e6 = self.enemies;
        proof {
            assert forall|i: int| #[trigger] e6.slot_alive(i)
                implies crate::enemies::enemy_ok(e6.at(i)) by {
                assert(e5.slot_alive(i));
                lemma_dmg_upto_bounds(dmg_seq, e5.handle_of(i), dmg_seq.len() as int,
                    1_000_000);
            }
        }
        check_health(&mut self.enemies, &mut self.xp_spawn_events);
        let ghost death_seq = self.xp_spawn_events@;
        proof {
            let e7 = self.enemies;
            assert forall|i: int| #[trigger] e7.slot_alive(i)
                implies crate::enemies::enemy_ok(e7.at(i)) && e7.at(i).health > 0
                    && e7.at(i).mover.dxdy.bounded(NOISE_LIMIT as int) by {
                assert(e6.slot_alive(i));
                assert(e7.slots@[i] == e6.slots@[i]);
            }
            assert(death_seq =~= deaths_upto(e6.slots@, e6.slots@.len() as int));
            lemma_deaths_upto_len(e6.slots@, e6.slots@.len() as int);
            assert forall|j: int|
                0 <= j < e6.slots@.len() && #[trigger] e6.slots@[j].val is Some
                    implies e6.slots@[j].val->0.pos.bounded(COORD_LIMIT as int) by {
                assert(e6.slot_alive(j));
            }
            lemma_deaths_upto_bounds(e6.slots@, e6.slots@.len() as int);
        }
        // Experience collection: spawn pickups at death positions, vacuum
        // nearby pickups toward the player, and convert overlapping ones
        // into reward events.
        spawn_experience(&mut self.pickups, &mut self.xp_spawn_events);
        let ghost p1 = self.pickups;
        move_drops(&mut self.pickups, self.player_pos, &self.cfg, dt_ms);
        let ghost p2 = self.pickups;
        player_collect(&mut self.pickups, self.player_pos, &mut self.reward_events, &self.cfg);
        // Player progression: sum the rewards, level up at most once, and
        // apply contact damage from adjacent enemies.
        let ghost reward_seq = self.reward_events@;
        proof {
            assert(reward_seq =~= collects_upto(p2.slots@, self.player_pos, self.cfg,
                p2.slots@.len() as int));
            crate::drops::lemma_collects_upto_bounds(p2.slots@, self.player_pos, self.cfg,
                p2.slots@.len() as int);
            crate::player::lemma_xp_sum_bounds(reward_seq, reward_seq.len() as int, 10_000);
        }
        add_xp(&mut self.player, &mut self.reward_events, &mut self.level_up_events);
        let ghost prog = self.player;
        player_enemy_collision(&mut self.player, self.player_pos, &self.enemies, &self.cfg,
            dt_ms);
        // Every surviving projectile kept its spawn-time direction: travel
        // moved only positions, and the other phases only removed dots.
        proof {
            assert forall|h: Handle|
                old(self).dots.is_alive(h) && final(self).dots.is_alive(h)
                    implies #[trigger] final(self).dots.at(h.idx as int).projectile
                        == old(self).dots.at(h.idx as int).projectile by {
                let i = h.idx as int;
                assert(d4.is_alive(h));
                assert(d4.slot_alive(i));
                if 0 <= i < d3.slots@.len() && !d3.slot_alive(i) {
                    assert(d4.slots@[i] == d3.slots@[i]);
                } else if d3.slot_alive(i) && crate::abilities::dot_out_of_bounds(d3.at(i).pos,
                    self.grid, self.cfg.bounds_margin as int) {
                    assert(!d4.slot_alive(i));
                }
                assert(d3.slot_alive(i));
                assert(d3.slots@[i] == d4.slots@[i]);
                if 0 <= i < d2.slots@.len() && !d2.slot_alive(i) {
                    assert(d3.slots@[i] == d2.slots@[i]);
                } else if d2.slot_alive(i) && crate::abilities::first_hit(d2.at(i), e5.slots@,
                    e5.slots@.len() as int, self.cfg) is Some {
                    assert(!d3.slot_alive(i));
                }
                assert(d2.slot_alive(i));
                assert(d2.slots@[i] == d3.slots@[i]);
                assert(d1.slot_alive(i));
                assert(d2.at(i).projectile == d1.at(i).projectile);
                assert(d0.is_alive(h));
                assert(d1.at(i) == d0.at(i));
            }
        }
        let ghost t = TickTrace {
            spawned: e1,
            sought: e2,
            avoided: e3,
            moved: e4,
            gated: e5,
            damaged: e6,
            dots_spawned: d1,
            dots_moved: d2,
            dots_impacted: d3,
            pickups_spawned: p1,
            pickups_moved: p2,
            progressed: prog,
        };
        Ghost(t)
    }
}

} // verus!
