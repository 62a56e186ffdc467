//! The computed half of the interface layer: fill fractions for the bar
//! widgets, the level label, and the decision tables behind the menu
//! buttons and state toggles. Rendering, input polling and widget layout
//! belong to the host; this module only decides values and transitions.

use vstd::prelude::*;
use crate::events::PlayerLevelUpEvent;
use crate::player::Player;

verus! {

/// The in-game state machine the menus drive.
#[derive(Clone, Copy, PartialEq, Eq, Structural, Debug)]
pub enum GameState {
    Inactive,
    NewGame,
    Paused,
    Running,
    LevelUp,
}

/// The top-level application state.
#[derive(Clone, Copy, PartialEq, Eq, Structural, Debug)]
pub enum AppState {
    MainMenu,
    Game,
}

/// The buttons of the pause menu.
#[derive(Clone, Copy, PartialEq, Eq, Structural, Debug)]
pub enum PauseMenuButton {
    Resume,
    Start,
    MainMenu,
}

/// The buttons of the level-up menu.
#[derive(Clone, Copy, PartialEq, Eq, Structural, Debug)]
pub enum LevelUpMenuButton {
    Continue,
    Upgrade1,
    Upgrade2,
    Upgrade3,
}

/// The buttons of the main menu.
#[derive(Clone, Copy, PartialEq, Eq, Structural, Debug)]
pub enum MainMenuButton {
    Play,
    Quit,
}

/// The pause toggle: from a running (or inactive) game the toggle pauses;
/// from any other state it resumes.
pub fn toggle_game_state(current: GameState) -> (next: GameState)
    ensures
        next == (match current {
            GameState::Running | GameState::Inactive => GameState::Paused,
            _ => GameState::Running,
        }),
{
    match current {
        GameState::Running | GameState::Inactive => GameState::Paused,
        _ => GameState::Running,
    }
}

/// A level-up signal sends the game into the level-up menu; without one the
/// state stands.
pub fn handle_player_level_up(events: &Vec<PlayerLevelUpEvent>, current: GameState) -> (next:
    GameState)
    ensures
        events@.len() > 0 ==> next == GameState::LevelUp,
        events@.len() == 0 ==> next == current,
{
    if events.len() > 0 {
        GameState::LevelUp
    } else {
        current
    }
}

/// The state a pressed pause-menu button selects: both resume buttons return
/// to play, the main-menu button deactivates the game.
pub fn pause_button_interaction(button: PauseMenuButton) -> (next: GameState)
    ensures
        next == (match button {
            PauseMenuButton::Resume | PauseMenuButton::Start => GameState::Running,
            PauseMenuButton::MainMenu => GameState::Inactive,
        }),
{
    match button {
        PauseMenuButton::Resume => GameState::Running,
        PauseMenuButton::Start => GameState::Running,
        PauseMenuButton::MainMenu => GameState::Inactive,
    }
}

/// The state a pressed level-up-menu button selects, if any: continuing
/// resumes play; the upgrade buttons apply their upgrade without leaving the
/// menu.
pub fn level_up_button_interaction(button: LevelUpMenuButton) -> (next: Option<GameState>)
    ensures
        button is Continue ==> next == Some(GameState::Running),
        !(button is Continue) ==> next is None,
{
    match button {
        LevelUpMenuButton::Continue => Some(GameState::Running),
        _ => None,
    }
}

/// What a pressed main-menu button does: play enters the game, quit asks the
/// host to exit (no application state change).
pub fn main_menu_button_interaction(button: MainMenuButton) -> (r: (Option<AppState>, bool))
    ensures
        button is Play ==> r == (Some(AppState::Game), false),
        button is Quit ==> r == (None::<AppState>, true),
{
    match button {
        MainMenuButton::Play => (Some(AppState::Game), false),
        MainMenuButton::Quit => (None, true),
    }
}

/// The experience bar: how full it is, in whole percent.
#[derive(Clone, Copy, PartialEq, Eq, Structural, Debug)]
pub struct XPBar {
    pub percent: u64,
}

/// The fill of the experience bar: current experience over the threshold,
/// in whole percent (always below 100, since reaching the threshold levels
/// the player up and resets experience).
pub fn animate_xp_bar(player: &Player) -> (bar: XPBar)
    requires
        player.wf(),
        player.xp.0 <= player.xp.1,
    ensures
        bar.percent == player.xp.0 * 100 / (player.xp.1 as int),
{
    proof {
        assert(0 <= player.xp.0 * 100 / (player.xp.1 as int) <= 100) by (nonlinear_arith)
            requires
                0 <= player.xp.0 <= player.xp.1,
                1 <= player.xp.1,
        ;
    }
    let p: u128 = (player.xp.0 as u128) * 100 / (player.xp.1 as u128);
    XPBar { percent: p as u64 }
}

/// The health bar: how full it is, in whole percent.
#[derive(Clone, Copy, PartialEq, Eq, Structural, Debug)]
pub struct HealthBar {
    pub percent: u64,
}

/// The fill of the health bar: current health over maximum health, in whole
/// percent.
pub fn animate_health_bar(player: &Player) -> (bar: HealthBar)
    requires
        player.wf(),
        player.health.1 >= 1,
    ensures
        bar.percent == player.health.0 * 100 / (player.health.1 as int),
{
    let num: i64 = player.health.0 * 100;
    let q: i64 = crate::vec2::div_trunc(num, player.health.1);
    HealthBar { percent: q as u64 }
}

/// The level label beside the experience bar.
#[derive(Clone, Copy, PartialEq, Eq, Structural, Debug)]
pub struct XPText {
    pub lv: u32,
}

/// The level label updates to the level a level-up signal carries.
pub fn update_xp_text(event: &PlayerLevelUpEvent) -> (text: XPText)
    ensures
        text.lv == event.0,
{
    XPText { lv: event.0 }
}

} // verus!
