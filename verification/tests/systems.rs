//! Tests for the individual systems: spawning with its population cap,
//! projectile firing and its gate, impact and bounds resolution, the death
//! pipeline's event plumbing, arithmetic helpers and the interface layer.

use horde_core::abilities::{
    aabb_overlap, check_bounds, count_targetable, enemy_impact, has_dot_mod, spawn_dot,
    spawn_dot_condition, Dot, DotMod, Projectile,
};
use horde_core::arena::Arena;
use horde_core::config::Config;
use horde_core::drops::{spawn_experience, Pickup};
use horde_core::enemies::{HordeMover, Triangle};
use horde_core::events::{ExperienceSpawnEvent, PlayerLevelUpEvent, TransmitDamage};
use horde_core::grid::{Grid, GRID_HEIGHT, GRID_WIDTH};
use horde_core::player::{move_player, player_enemy_collision, Player};
use horde_core::steering::{despawn_triangles, direction_to_player, spawn_triangles};
use horde_core::ui::{
    animate_health_bar, animate_xp_bar, handle_player_level_up, level_up_button_interaction,
    main_menu_button_interaction, pause_button_interaction, toggle_game_state, AppState,
    GameState, LevelUpMenuButton, MainMenuButton, PauseMenuButton,
};
use horde_core::vec2::{div_trunc, isqrt, Vec2i};

fn triangle_at(x: i64, y: i64) -> Triangle {
    Triangle {
        pos: Vec2i { x, y },
        mover: HordeMover { dxdy: Vec2i { x: 0, y: 0 } },
        health: 100,
        targetable: true,
    }
}

#[test]
fn spawner_fills_a_ring_and_honours_the_cap() {
    let cfg = Config::standard();
    let player_pos = Vec2i { x: 13600, y: 17600 };
    let mut enemies: Arena<Triangle> = Arena::new();
    spawn_triangles(&mut enemies, player_pos, 640, &cfg);
    assert_eq!(enemies.count_alive(), 10);
    // Each fresh enemy stands on the spawn ring (within integer rounding),
    // with full health and a zeroed accumulator.
    for i in 0..enemies.slot_count() {
        let h = horde_core::arena::Handle { idx: i, gen: 0 };
        let t = enemies.get(h).unwrap();
        let dx = t.pos.x - player_pos.x;
        let dy = t.pos.y - player_pos.y;
        let d2 = dx * dx + dy * dy;
        assert!(640 * 640 - 2 * 640 - 1 <= d2 && d2 <= 640 * 640);
        assert_eq!(t.health, 100);
        assert_eq!(t.mover.dxdy, Vec2i { x: 0, y: 0 });
        assert!(!t.targetable);
    }
    // Ten enemies exceed the cap of five: the next call is a no-op.
    spawn_triangles(&mut enemies, player_pos, 640, &cfg);
    assert_eq!(enemies.count_alive(), 10);
    despawn_triangles(&mut enemies);
    assert_eq!(enemies.count_alive(), 0);
}

#[test]
fn seek_accumulates_toward_the_player() {
    let mut enemies: Arena<Triangle> = Arena::new();
    let h = enemies.insert(triangle_at(300, 100));
    direction_to_player(&mut enemies, Vec2i { x: 100, y: 100 });
    // The accumulator receives enemy - player; integration subtracts its
    // normalised form, netting movement toward the player.
    assert_eq!(enemies.get(h).unwrap().mover.dxdy, Vec2i { x: 200, y: 0 });
}

#[test]
fn dot_needs_a_targetable_enemy() {
    let cfg = Config::standard();
    let mut dots: Arena<Dot> = Arena::new();
    let mut enemies: Arena<Triangle> = Arena::new();
    let mut t = triangle_at(500, 500);
    t.targetable = false;
    enemies.insert(t);
    assert_eq!(count_targetable(&enemies), 0);
    spawn_dot(&mut dots, &enemies, Vec2i { x: 0, y: 0 }, &cfg);
    assert_eq!(dots.count_alive(), 0);
}

#[test]
fn dot_spawns_at_player_aimed_at_the_target() {
    let cfg = Config::standard();
    let mut dots: Arena<Dot> = Arena::new();
    let mut enemies: Arena<Triangle> = Arena::new();
    enemies.insert(triangle_at(500, 800));
    let player_pos = Vec2i { x: 100, y: 200 };
    spawn_dot(&mut dots, &enemies, player_pos, &cfg);
    assert_eq!(dots.count_alive(), 1);
    let d = dots.get(horde_core::arena::Handle { idx: 0, gen: 0 }).unwrap();
    assert_eq!(d.pos, player_pos);
    assert_eq!(d.projectile.direction, Vec2i { x: 100 - 500, y: 200 - 800 });
    assert_eq!(d.projectile.speed, 500);
    assert_eq!(d.damage, 100);
}

#[test]
fn impact_consumes_the_dot_and_emits_one_damage_event() {
    let cfg = Config::standard();
    let mut dots: Arena<Dot> = Arena::new();
    let mut enemies: Arena<Triangle> = Arena::new();
    let he = enemies.insert(triangle_at(100, 100));
    let hd = dots.insert(Dot {
        pos: Vec2i { x: 105, y: 95 },
        projectile: Projectile { speed: 500, direction: Vec2i { x: 1, y: 0 } },
        damage: 100,
    });
    let mut events: Vec<TransmitDamage> = Vec::new();
    enemy_impact(&mut dots, &enemies, &mut events, &cfg);
    assert_eq!(events.len(), 1);
    assert_eq!(events[0].target, he);
    assert_eq!(events[0].damage, 100);
    assert!(!dots.alive(hd));
}

#[test]
fn impact_takes_the_first_matching_enemy_only() {
    // Two enemies both overlap the dot; the one in the lower slot is hit,
    // and the single dot damages only that one.
    let cfg = Config::standard();
    let mut dots: Arena<Dot> = Arena::new();
    let mut enemies: Arena<Triangle> = Arena::new();
    let h_first = enemies.insert(triangle_at(100, 100));
    let _h_second = enemies.insert(triangle_at(102, 100));
    dots.insert(Dot {
        pos: Vec2i { x: 101, y: 100 },
        projectile: Projectile { speed: 500, direction: Vec2i { x: 1, y: 0 } },
        damage: 100,
    });
    let mut events: Vec<TransmitDamage> = Vec::new();
    enemy_impact(&mut dots, &enemies, &mut events, &cfg);
    assert_eq!(events.len(), 1);
    assert_eq!(events[0].target, h_first);
}

#[test]
fn missing_dot_travels_on() {
    let cfg = Config::standard();
    let mut dots: Arena<Dot> = Arena::new();
    let mut enemies: Arena<Triangle> = Arena::new();
    enemies.insert(triangle_at(5000, 5000));
    let hd = dots.insert(Dot {
        pos: Vec2i { x: 100, y: 100 },
        projectile: Projectile { speed: 500, direction: Vec2i { x: 1, y: 0 } },
        damage: 100,
    });
    let mut events: Vec<TransmitDamage> = Vec::new();
    enemy_impact(&mut dots, &enemies, &mut events, &cfg);
    assert_eq!(events.len(), 0);
    assert!(dots.alive(hd));
}

#[test]
fn out_of_bounds_dots_despawn_silently() {
    let cfg = Config::standard();
    let grid = Grid::standard();
    let mut dots: Arena<Dot> = Arena::new();
    let projectile = Projectile { speed: 500, direction: Vec2i { x: 1, y: 0 } };
    let h_left = dots.insert(Dot { pos: Vec2i { x: -10, y: 5 }, projectile, damage: 100 });
    let h_in = dots.insert(Dot { pos: Vec2i { x: -9, y: 5 }, projectile, damage: 100 });
    let h_right = dots.insert(Dot {
        pos: Vec2i { x: GRID_WIDTH + 10, y: 5 },
        projectile,
        damage: 100,
    });
    let h_top = dots.insert(Dot {
        pos: Vec2i { x: 5, y: GRID_HEIGHT + 10 },
        projectile,
        damage: 100,
    });
    check_bounds(&mut dots, &grid, &cfg);
    assert!(!dots.alive(h_left));
    assert!(dots.alive(h_in));
    assert!(!dots.alive(h_right));
    assert!(!dots.alive(h_top));
}

#[test]
fn spawn_gate_fires_first_time_and_then_by_interval() {
    assert_eq!(spawn_dot_condition(None, 5000, 1000), (true, Some(5000)));
    assert_eq!(spawn_dot_condition(Some(5000), 5900, 1000), (false, Some(5000)));
    assert_eq!(spawn_dot_condition(Some(5000), 6000, 1000), (true, Some(6000)));
    assert!(has_dot_mod(&Some(DotMod { interval_ms: 1000 })));
    assert!(!has_dot_mod(&None));
}

#[test]
fn pickups_spawn_where_enemies_died() {
    let mut pickups: Arena<Pickup> = Arena::new();
    let mut events = vec![
        ExperienceSpawnEvent(Vec2i { x: 7, y: 8 }),
        ExperienceSpawnEvent(Vec2i { x: 9, y: 10 }),
    ];
    spawn_experience(&mut pickups, &mut events);
    assert_eq!(events.len(), 0);
    assert_eq!(pickups.count_alive(), 2);
    let p0 = pickups.get(horde_core::arena::Handle { idx: 0, gen: 0 }).unwrap();
    let p1 = pickups.get(horde_core::arena::Handle { idx: 1, gen: 0 }).unwrap();
    assert_eq!(p0.pos, Vec2i { x: 7, y: 8 });
    assert_eq!(p1.pos, Vec2i { x: 9, y: 10 });
    let v0 = p0.xp.value();
    assert!(v0 == 1 || v0 == 100 || v0 == 10000);
}

#[test]
fn contact_damage_drains_player_health() {
    // One enemy in contact range for one second at 5 hp/s drains 5000
    // thousandths.
    let cfg = Config::standard();
    let mut player = Player::default();
    let mut enemies: Arena<Triangle> = Arena::new();
    enemies.insert(triangle_at(10, 0));
    enemies.insert(triangle_at(5000, 0));
    player_enemy_collision(&mut player, Vec2i { x: 0, y: 0 }, &enemies, &cfg, 1000);
    assert_eq!(player.health.0, 5_000);
    // Health clamps at zero rather than resting below it.
    player_enemy_collision(&mut player, Vec2i { x: 0, y: 0 }, &enemies, &cfg, 2000);
    assert_eq!(player.health.0, 0);
}

#[test]
fn diagonal_movement_is_not_faster() {
    let grid = Grid::standard();
    let pos = Vec2i { x: 5000, y: 5000 };
    // Straight east at speed 250 for 16 ms: a step of 4000 / 1000 = 4.
    let straight = move_player(pos, false, false, false, true, 250, 16, 16, 16, &grid);
    assert_eq!(straight, Vec2i { x: 5004, y: 5000 });
    // Diagonal north-east: the intent vector is normalised, so each axis
    // moves 4000 / 1414 = 2 and the squared displacement (8) stays within
    // the straight step's (16) — a diagonal is not faster.
    let diagonal = move_player(pos, true, false, false, true, 250, 16, 16, 16, &grid);
    assert_eq!(diagonal, Vec2i { x: 5002, y: 5002 });
    let ddx = diagonal.x - pos.x;
    let ddy = diagonal.y - pos.y;
    let sdx = straight.x - pos.x;
    let sdy = straight.y - pos.y;
    assert!(ddx * ddx + ddy * ddy <= sdx * sdx + sdy * sdy);
    // The half-extent clamp keeps the player inside the playable bounds.
    let cornered = move_player(
        Vec2i { x: 17, y: 17 },
        false,
        true,
        true,
        false,
        250,
        16,
        16,
        16,
        &grid,
    );
    assert_eq!(cornered, Vec2i { x: 16, y: 16 });
}

#[test]
fn arithmetic_helpers() {
    assert_eq!(isqrt(0), 0);
    assert_eq!(isqrt(8), 2);
    assert_eq!(isqrt(9), 3);
    assert_eq!(isqrt(u64::MAX), 0xFFFF_FFFF);
    // Truncating division rounds toward zero on both signs.
    assert_eq!(div_trunc(7, 2), 3);
    assert_eq!(div_trunc(-7, 2), -3);
    // Touching boxes do not overlap; interpenetrating ones do.
    assert!(!aabb_overlap(Vec2i { x: 0, y: 0 }, 4, Vec2i { x: 4, y: 0 }, 4));
    assert!(aabb_overlap(Vec2i { x: 0, y: 0 }, 4, Vec2i { x: 3, y: 0 }, 4));
}

#[test]
fn noise_stays_in_range() {
    let mut mover = HordeMover { dxdy: Vec2i { x: 0, y: 0 } };
    for _ in 0..50 {
        mover.noise();
        assert!(-100 <= mover.dxdy.x && mover.dxdy.x <= 100);
        assert!(-100 <= mover.dxdy.y && mover.dxdy.y <= 100);
    }
}

#[test]
fn interface_layer_decisions() {
    assert_eq!(toggle_game_state(GameState::Running), GameState::Paused);
    assert_eq!(toggle_game_state(GameState::Inactive), GameState::Paused);
    assert_eq!(toggle_game_state(GameState::Paused), GameState::Running);
    assert_eq!(toggle_game_state(GameState::NewGame), GameState::Running);
    assert_eq!(pause_button_interaction(PauseMenuButton::Resume), GameState::Running);
    assert_eq!(pause_button_interaction(PauseMenuButton::Start), GameState::Running);
    assert_eq!(pause_button_interaction(PauseMenuButton::MainMenu), GameState::Inactive);
    assert_eq!(
        level_up_button_interaction(LevelUpMenuButton::Continue),
        Some(GameState::Running)
    );
    assert_eq!(level_up_button_interaction(LevelUpMenuButton::Upgrade2), None);
    assert_eq!(
        main_menu_button_interaction(MainMenuButton::Play),
        (Some(AppState::Game), false)
    );
    assert_eq!(main_menu_button_interaction(MainMenuButton::Quit), (None, true));
    let level_ups = vec![PlayerLevelUpEvent(3)];
    assert_eq!(handle_player_level_up(&level_ups, GameState::Running), GameState::LevelUp);
    let none: Vec<PlayerLevelUpEvent> = Vec::new();
    assert_eq!(handle_player_level_up(&none, GameState::Running), GameState::Running);
}

#[test]
fn bars_report_whole_percent() {
    let mut player = Player::default();
    player.xp = (3, 10);
    assert_eq!(animate_xp_bar(&player).percent, 30);
    assert_eq!(animate_health_bar(&player).percent, 100);
    player.health = (2_500, 10_000);
    assert_eq!(animate_health_bar(&player).percent, 25);
    let text = horde_core::ui::update_xp_text(&PlayerLevelUpEvent(4));
    assert_eq!(text.lv, 4);
}
