//! Scenario tests for the core rules: repulsion separation, zero-vector
//! normalisation, the targetability bounds, fixed projectile directions, the
//! death pipeline, reward tiers, level-up accounting and pickup attraction.

use horde_core::abilities::{move_dots, Dot, Projectile};
use horde_core::arena::Arena;
use horde_core::config::Config;
use horde_core::drops::{move_drops, player_collect, Pickup};
use horde_core::enemies::{
    check_health, damage_enemies, update_enemy_targetable, HordeMover, Triangle,
};
use horde_core::events::{SendExperienceEvent, TransmitDamage};
use horde_core::experience::Experience;
use horde_core::grid::{Grid, GRID_HEIGHT, GRID_WIDTH};
use horde_core::player::{add_xp, Player};
use horde_core::steering::{avoid_other_triangles, move_triangle};
use horde_core::vec2::{norm_step, Vec2i};

fn triangle_at(x: i64, y: i64) -> Triangle {
    Triangle {
        pos: Vec2i { x, y },
        mover: HordeMover { dxdy: Vec2i { x: 0, y: 0 } },
        health: 100,
        targetable: true,
    }
}

#[test]
fn repulsion_separates_close_pair() {
    // Two enemies 20 units apart, inside the repulsion radius of 48, with
    // zero seek: after one repulsion pass and one integration step they are
    // strictly farther apart, symmetrically.
    let cfg = Config::standard();
    let mut enemies: Arena<Triangle> = Arena::new();
    let ha = enemies.insert(triangle_at(0, 0));
    let hb = enemies.insert(triangle_at(20, 0));
    avoid_other_triangles(&mut enemies, &cfg);
    // weight = 48 - 20 = 28; contribution = -((-20) * 28 * 3 / 10) = 168.
    let a = enemies.get(ha).unwrap();
    let b = enemies.get(hb).unwrap();
    assert_eq!(a.mover.dxdy, Vec2i { x: 168, y: 0 });
    assert_eq!(b.mover.dxdy, Vec2i { x: -168, y: 0 });
    move_triangle(&mut enemies, &cfg, 16);
    // step length = 200 * 16 / 1000 = 3 along the accumulator direction.
    let a = enemies.get(ha).unwrap();
    let b = enemies.get(hb).unwrap();
    assert_eq!(a.pos, Vec2i { x: -3, y: 0 });
    assert_eq!(b.pos, Vec2i { x: 23, y: 0 });
    assert!(b.pos.x - a.pos.x > 20);
}

#[test]
fn coincident_enemies_do_not_produce_garbage() {
    // Two enemies at exactly the same position: the difference vector is
    // zero, so the repulsion contribution is zero and integration moves
    // neither (their accumulators are zero).
    let cfg = Config::standard();
    let mut enemies: Arena<Triangle> = Arena::new();
    let ha = enemies.insert(triangle_at(5, 5));
    let hb = enemies.insert(triangle_at(5, 5));
    avoid_other_triangles(&mut enemies, &cfg);
    assert_eq!(enemies.get(ha).unwrap().mover.dxdy, Vec2i { x: 0, y: 0 });
    assert_eq!(enemies.get(hb).unwrap().mover.dxdy, Vec2i { x: 0, y: 0 });
    move_triangle(&mut enemies, &cfg, 16);
    assert_eq!(enemies.get(ha).unwrap().pos, Vec2i { x: 5, y: 5 });
    assert_eq!(enemies.get(hb).unwrap().pos, Vec2i { x: 5, y: 5 });
}

#[test]
fn normalising_zero_vector_moves_nothing() {
    let step = norm_step(Vec2i { x: 0, y: 0 }, 3200, 1000);
    assert_eq!(step, Vec2i { x: 0, y: 0 });
}

#[test]
fn norm_step_has_expected_length() {
    // A vector along one axis steps by exactly num / den.
    let step = norm_step(Vec2i { x: 168, y: 0 }, 3200, 1000);
    assert_eq!(step, Vec2i { x: 3, y: 0 });
    let step = norm_step(Vec2i { x: 0, y: -500 }, 8000, 1000);
    assert_eq!(step, Vec2i { x: 0, y: -8 });
}

#[test]
fn targetable_bounds_are_inclusive() {
    let grid = Grid::standard();
    let mut enemies: Arena<Triangle> = Arena::new();
    let h_origin = enemies.insert(triangle_at(0, 0));
    let h_corner = enemies.insert(triangle_at(GRID_WIDTH, GRID_HEIGHT));
    let h_outside_x = enemies.insert(triangle_at(-1, 10));
    let h_outside_y = enemies.insert(triangle_at(10, GRID_HEIGHT + 1));
    update_enemy_targetable(&mut enemies, &grid);
    assert!(enemies.get(h_origin).unwrap().targetable);
    assert!(enemies.get(h_corner).unwrap().targetable);
    assert!(!enemies.get(h_outside_x).unwrap().targetable);
    assert!(!enemies.get(h_outside_y).unwrap().targetable);
}

#[test]
fn projectile_direction_stays_fixed_across_ticks() {
    let mut dots: Arena<Dot> = Arena::new();
    let h = dots.insert(Dot {
        pos: Vec2i { x: 100, y: 100 },
        projectile: Projectile { speed: 500, direction: Vec2i { x: 50, y: -120 } },
        damage: 100,
    });
    for _ in 0..5 {
        move_dots(&mut dots, 16);
        let d = dots.get(h).unwrap();
        assert_eq!(d.projectile.direction, Vec2i { x: 50, y: -120 });
        assert_eq!(d.projectile.speed, 500);
    }
    // The dot did travel.
    assert_ne!(dots.get(h).unwrap().pos, Vec2i { x: 100, y: 100 });
}

#[test]
fn two_damage_events_one_death_event() {
    // Health 100, two events of 60 in the same tick: the enemy dies once,
    // exactly one pickup-spawn event is emitted, and a later damage event
    // against the retired handle has no effect.
    let mut enemies: Arena<Triangle> = Arena::new();
    let h = enemies.insert(triangle_at(40, 50));
    let events = vec![
        TransmitDamage { target: h, damage: 60 },
        TransmitDamage { target: h, damage: 60 },
    ];
    damage_enemies(&mut enemies, &events);
    assert_eq!(enemies.get(h).unwrap().health, -20);
    let mut xp_events = Vec::new();
    check_health(&mut enemies, &mut xp_events);
    assert_eq!(xp_events.len(), 1);
    assert_eq!(xp_events[0].0, Vec2i { x: 40, y: 50 });
    assert!(!enemies.alive(h));
    assert_eq!(enemies.count_alive(), 0);
    // A third event aimed at the dead entity is ignored, and a second
    // resolution pass emits nothing.
    let late = vec![TransmitDamage { target: h, damage: 60 }];
    damage_enemies(&mut enemies, &late);
    let mut xp_events_2 = Vec::new();
    check_health(&mut enemies, &mut xp_events_2);
    assert_eq!(xp_events_2.len(), 0);
}

#[test]
fn damage_to_stale_handle_does_not_reach_reused_slot() {
    // After the slot is reused by a fresh enemy, the old handle still
    // addresses nothing: the generation moved on.
    let mut enemies: Arena<Triangle> = Arena::new();
    let h_old = enemies.insert(triangle_at(0, 0));
    enemies.remove(h_old);
    let h_new = enemies.insert(triangle_at(1, 1));
    assert_eq!(h_new.idx, h_old.idx);
    let events = vec![TransmitDamage { target: h_old, damage: 60 }];
    damage_enemies(&mut enemies, &events);
    assert_eq!(enemies.get(h_new).unwrap().health, 100);
    assert!(!enemies.alive(h_old));
}

#[test]
fn reward_tiers_classify_and_value() {
    assert!(matches!(Experience::classify(5001), Experience::X));
    assert!(matches!(Experience::classify(100), Experience::Y));
    assert!(matches!(Experience::classify(10000), Experience::Z));
    assert_eq!(Experience::classify(5001).value(), 1);
    assert_eq!(Experience::classify(100).value(), 100);
    assert_eq!(Experience::classify(10000).value(), 10000);
    // More tier edges: 200 and 5000 are mid (divisible by 100 but not
    // 10000), 9999 and 1 are base.
    assert_eq!(Experience::classify(200).value(), 100);
    assert_eq!(Experience::classify(5000).value(), 100);
    assert_eq!(Experience::classify(9999).value(), 1);
    assert_eq!(Experience::classify(1).value(), 1);
    // A random draw always lands on a tier value.
    let v = Experience::generate().value();
    assert!(v == 1 || v == 100 || v == 10000);
}

#[test]
fn two_rewards_of_six_level_up_once() {
    // XP 0/10; rewards 6 and 6 in one tick: total 12 >= 10, exactly one
    // level-up signal, XP resets to 0, threshold becomes 15.
    let mut player = Player::default();
    assert_eq!(player.xp, (0, 10));
    let mut rewards = vec![SendExperienceEvent(6), SendExperienceEvent(6)];
    let mut level_ups = Vec::new();
    add_xp(&mut player, &mut rewards, &mut level_ups);
    assert_eq!(level_ups.len(), 1);
    assert_eq!(level_ups[0].0, 1);
    assert_eq!(player.lv, 1);
    assert_eq!(player.xp, (0, 15));
    assert_eq!(rewards.len(), 0);
}

#[test]
fn rewards_below_threshold_accumulate() {
    let mut player = Player::default();
    let mut rewards = vec![SendExperienceEvent(4), SendExperienceEvent(5)];
    let mut level_ups = Vec::new();
    add_xp(&mut player, &mut rewards, &mut level_ups);
    assert_eq!(level_ups.len(), 0);
    assert_eq!(player.lv, 0);
    assert_eq!(player.xp, (9, 10));
}

#[test]
fn pickup_attraction_is_proportional_and_never_overshoots() {
    // Pickup at distance 150 with threshold 200: the pull speed is
    // proportional to 50. Over one 1000 ms tick with pull factor 2 the step
    // is (200 - 150) * 2 * 1000 / 1000 = 100 units toward the player.
    let cfg = Config::standard();
    let player_pos = Vec2i { x: 0, y: 0 };
    let mut pickups: Arena<Pickup> = Arena::new();
    let h = pickups.insert(Pickup { pos: Vec2i { x: 150, y: 0 }, xp: Experience::X });
    move_drops(&mut pickups, player_pos, &cfg, 1000);
    assert_eq!(pickups.get(h).unwrap().pos, Vec2i { x: 50, y: 0 });
    // A pickup exactly at the player's position does not move at all.
    let h0 = pickups.insert(Pickup { pos: Vec2i { x: 0, y: 0 }, xp: Experience::Y });
    move_drops(&mut pickups, player_pos, &cfg, 1000);
    assert_eq!(pickups.get(h0).unwrap().pos, Vec2i { x: 0, y: 0 });
    // At distance zero it is collected and removed, delivering its value.
    let mut rewards: Vec<SendExperienceEvent> = Vec::new();
    player_collect(&mut pickups, player_pos, &mut rewards, &cfg);
    assert!(!pickups.alive(h0));
    assert!(rewards.iter().any(|r| r.0 == 100));
}

#[test]
fn pickup_outside_threshold_is_untouched() {
    let cfg = Config::standard();
    let mut pickups: Arena<Pickup> = Arena::new();
    let h = pickups.insert(Pickup { pos: Vec2i { x: 250, y: 0 }, xp: Experience::X });
    move_drops(&mut pickups, Vec2i { x: 0, y: 0 }, &cfg, 1000);
    assert_eq!(pickups.get(h).unwrap().pos, Vec2i { x: 250, y: 0 });
}
