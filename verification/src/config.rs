//! Tunable constants of the simulation core. Every rule of the core reads
//! them from a `Config` value, so hosts can adjust speeds, sizes, caps and
//! intervals without touching the verified logic.

use vstd::prelude::*;
use crate::abilities::{DEFAULT_ABILITY_SPEED, DEFAULT_DOT_RADIUS};
use crate::drops::DROPS_DISTANCE_THRESHOLD;
use crate::player::PLAYER_SPEED;

verus! {

/// All externally supplied constants the core depends on. Distances and
/// speeds are in world units (speeds per second); damage to enemies is in
/// whole hit points; damage to the player is in thousandths of a hit point,
/// so that slow damage-over-time rates stay representable on integers.
#[derive(Clone, Copy, PartialEq, Eq, Structural, Debug)]
pub struct Config {
    /// Enemy movement speed, world units per second.
    pub enemy_speed: i64,
    /// Numerator of the avoidance coefficient applied to repulsion weights.
    pub enemy_avoid_num: i64,
    /// Denominator of the avoidance coefficient.
    pub enemy_avoid_den: i64,
    /// Standard enemy size; repulsion acts within 3/2 of this distance.
    pub enemy_size: i64,
    /// Health a freshly spawned enemy has.
    pub enemy_health: i64,
    /// The spawner no-ops while more than this many enemies are alive.
    pub enemy_cap: usize,
    /// How many enemies one spawn operation creates.
    pub spawn_batch: usize,
    /// Projectile speed, world units per second.
    pub ability_speed: i64,
    /// Damage one projectile deals on impact.
    pub dot_damage: i64,
    /// Radius of a projectile's hit region.
    pub dot_radius: i64,
    /// Default interval between projectile spawns, in milliseconds.
    pub dot_interval_ms: u64,
    /// A projectile this far beyond the playable bounds despawns.
    pub bounds_margin: i64,
    /// Pickups closer to the player than this are attracted toward it.
    pub drops_threshold: i64,
    /// Multiplier on the attraction speed of pickups.
    pub drops_pull: i64,
    /// Side length of an enemy's hit region.
    pub enemy_hit: i64,
    /// Side length of the player's hit region.
    pub player_hit: i64,
    /// Side length of a pickup's hit region.
    pub pickup_hit: i64,
    /// Enemies within this distance of the player deal contact damage.
    pub contact_range: i64,
    /// Contact damage rate, thousandths of a hit point per second.
    pub contact_rate: i64,
    /// Player movement speed, world units per second.
    pub player_speed: i64,
}

impl Config {
    /// Ranges under which every arithmetic step of the core stays inside
    /// `i64`.
    pub open spec fn wf(self) -> bool {
        &&& 1 <= self.enemy_speed <= 10_000
        &&& 1 <= self.enemy_avoid_num <= 100
        &&& 1 <= self.enemy_avoid_den <= 1_000
        &&& 2 <= self.enemy_size <= 10_000
        &&& 1 <= self.enemy_health <= 1_000_000
        &&& self.enemy_cap <= 1_000
        &&& 1 <= self.spawn_batch <= 1_000
        &&& 1 <= self.ability_speed <= 10_000
        &&& 0 <= self.dot_damage <= 1_000_000
        &&& 1 <= self.dot_radius <= 10_000
        &&& 1 <= self.dot_interval_ms <= 1_000_000
        &&& 0 <= self.bounds_margin <= 10_000
        &&& 1 <= self.drops_threshold <= 100_000
        &&& 1 <= self.drops_pull <= 100
        &&& 1 <= self.enemy_hit <= 100_000
        &&& 1 <= self.player_hit <= 100_000
        &&& 1 <= self.pickup_hit <= 100_000
        &&& 1 <= self.contact_range <= 100_000
        &&& 0 <= self.contact_rate <= 1_000_000
        &&& 1 <= self.player_speed <= 10_000
        &&& 3 * self.enemy_size * self.enemy_size * self.enemy_avoid_num
            <= 100_000 * self.enemy_avoid_den
        &&& self.drops_threshold * self.drops_pull <= 10_000
    }

    /// The radius within which two enemies repel each other:
    /// `1.5 × enemy size`.
    pub open spec fn repulse_radius(self) -> int {
        3 * self.enemy_size / 2
    }

    /// The standard tuning of the game.
    pub fn standard() -> (c: Config)
        ensures
            c.wf(),
            c.enemy_speed == 200,
            c.enemy_avoid_num == 3,
            c.enemy_avoid_den == 10,
            c.enemy_size == 32,
            c.enemy_health == 100,
            c.enemy_cap == 5,
            c.spawn_batch == 10,
            c.ability_speed == 500,
            c.dot_damage == 100,
            c.dot_radius == 2,
            c.dot_interval_ms == 1000,
            c.bounds_margin == 10,
            c.drops_threshold == 200,
            c.drops_pull == 2,
            c.enemy_hit == 32,
            c.player_hit == 32,
            c.pickup_hit == 1,
            c.contact_range == 32,
            c.contact_rate == 5_000,
            c.player_speed == 250,
    {
        Config {
            enemy_speed: 200,
            enemy_avoid_num: 3,
            enemy_avoid_den: 10,
            enemy_size: 32,
            enemy_health: 100,
            enemy_cap: 5,
            spawn_batch: 10,
            ability_speed: DEFAULT_ABILITY_SPEED,
            dot_damage: 100,
            dot_radius: DEFAULT_DOT_RADIUS,
            dot_interval_ms: 1000,
            bounds_margin: 10,
            drops_threshold: DROPS_DISTANCE_THRESHOLD,
            drops_pull: 2,
            enemy_hit: 32,
            player_hit: 32,
            pickup_hit: 1,
            contact_range: 32,
            contact_rate: 5_000,
            player_speed: PLAYER_SPEED,
        }
    }
}

} // verus!
