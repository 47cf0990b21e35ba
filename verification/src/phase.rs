//! The game-phase state machine: which top-level mode the game is in, and
//! which transitions between modes are allowed.
//!
//! Exactly one phase is active at a time.  The flow is
//! `LoadAssets -> MainMenu -> PrepGame -> InGame <-> Paused`, with
//! `InGame -> EndGame` on a win or a loss, `EndGame -> PrepGame` on
//! restart, and a return to `MainMenu` from `Paused` or `EndGame`.  The
//! gameplay systems (integration, collision resolution, durability and
//! scoring, win/loss checks) run only while the phase is `InGame`.

use vstd::prelude::*;

verus! {

/// The top-level game mode.
#[derive(Clone, Copy, PartialEq, Eq, Structural, Debug)]
pub enum GameState {
    LoadAssets,
    MainMenu,
    PrepGame,
    InGame,
    Paused,
    EndGame,
}

/// The transition relation of the phase machine: `allowed(from, to)` holds
/// exactly for the edges the game can take.
///
/// - `LoadAssets -> MainMenu`: automatic, once assets are loaded.
/// - `MainMenu -> PrepGame`: the player selects play.
/// - `PrepGame -> InGame`: automatic, once a ball and a paddle exist.
/// - `InGame <-> Paused`: the pause control, reversible.
/// - `InGame -> EndGame`: no bricks remain (win) or no balls remain (loss).
/// - `EndGame -> PrepGame`: the player selects restart.
/// - `Paused -> MainMenu` and `EndGame -> MainMenu`: the player selects the
///   main menu; all gameplay entities are despawned.
pub open spec fn transition_allowed(from: GameState, to: GameState) -> bool {
    ||| (from is LoadAssets && to is MainMenu)
    ||| (from is MainMenu && to is PrepGame)
    ||| (from is PrepGame && to is InGame)
    ||| (from is InGame && to is Paused)
    ||| (from is Paused && to is InGame)
    ||| (from is InGame && to is EndGame)
    ||| (from is EndGame && to is PrepGame)
    ||| (from is Paused && to is MainMenu)
    ||| (from is EndGame && to is MainMenu)
}

/// The phase every game starts in.
pub fn initial_phase() -> (res: GameState)
    ensures
        res is LoadAssets,
{
    GameState::LoadAssets
}

/// The pause control: toggles between `InGame` and `Paused` and does
/// nothing in any other phase.
pub open spec fn spec_toggle_pause(phase: GameState) -> GameState {
    match phase {
        GameState::InGame => GameState::Paused,
        GameState::Paused => GameState::InGame,
        _ => phase,
    }
}

} // verus!
