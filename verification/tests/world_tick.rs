//! Integration tests for the composed per-tick pipeline.

use horde_core::world::World;

#[test]
fn first_tick_spawns_the_horde_and_fires_a_dot() {
    let mut w = World::new();
    assert_eq!(w.enemies.count_alive(), 0);
    w.tick(16);
    // The spawner filled a batch of ten; they were steered, classified (the
    // spawn ring lies inside the grid, so all are targetable), and the
    // gated ability fired its first dot at one of them.
    assert_eq!(w.enemies.count_alive(), 10);
    assert_eq!(w.dots.count_alive(), 1);
    assert_eq!(w.now_ms, 16);
    // All per-tick buffers were drained within the tick.
    assert_eq!(w.damage_events.len(), 0);
    assert_eq!(w.xp_spawn_events.len(), 0);
    assert_eq!(w.reward_events.len(), 0);
}

#[test]
fn dot_directions_survive_across_ticks() {
    let mut w = World::new();
    w.tick(16);
    let mut watched = None;
    for i in 0..w.dots.slot_count() {
        let h = horde_core::arena::Handle { idx: i, gen: 0 };
        if let Some(d) = w.dots.get(h) {
            watched = Some((h, d.projectile));
        }
    }
    let (h, projectile) = watched.expect("one dot after the first tick");
    for _ in 0..10 {
        w.tick(16);
        if let Some(d) = w.dots.get(h) {
            // Even while the target horde moves every tick, the projectile
            // keeps the direction it was spawned with.
            assert_eq!(d.projectile, projectile);
        } else {
            break;
        }
    }
}

#[test]
fn spawn_interval_gates_the_second_dot() {
    let mut w = World::new();
    w.tick(16);
    assert_eq!(w.dots.count_alive(), 1);
    // Remove the travelling dot so a second spawn would be visible; the
    // interval of 1000 ms has not elapsed, so none fires.
    horde_core::abilities::despawn_dots(&mut w.dots);
    w.tick(16);
    assert_eq!(w.dots.count_alive(), 0);
    // After the interval has elapsed, the next tick fires again.
    for _ in 0..70 {
        w.tick(16);
    }
    assert!(w.dots.count_alive() >= 1);
}

#[test]
fn long_run_keeps_population_capped_and_clock_exact() {
    let mut w = World::new();
    for _ in 0..120 {
        w.tick(16);
    }
    assert_eq!(w.now_ms, 120 * 16);
    // The spawner no-ops above the cap of five, so the population can never
    // exceed cap + batch.
    assert!(w.enemies.count_alive() <= 15);
    // Survivors never rest at or below zero health.
    for i in 0..w.enemies.slot_count() {
        let s = w.enemies.slots[i];
        if let Some(t) = s.val {
            assert!(t.health > 0);
        }
    }
}
