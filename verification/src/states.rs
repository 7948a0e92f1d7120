//! The application's top-level states and the escape-key toggle between
//! them. Reading the keyboard belongs to the host shell; the decision of
//! what the key does in each state is made, and verified, here.

use vstd::prelude::*;

verus! {

/// Top-level application state.
#[derive(Clone, Copy, Debug, PartialEq, Eq, Hash, Structural)]
pub enum AppState {
    MainMenu,
    InGame,
    GameOver,
}

impl Default for AppState {
    /// The application starts at the main menu.
    fn default() -> (s: Self)
        ensures
            s == AppState::MainMenu,
    {
        AppState::MainMenu
    }
}

/// The escape-key toggle: from the menu into the game, from the game back
/// to the menu — which also asks for the player to be despawned — and no
/// effect anywhere else. Without a keypress nothing changes. The second
/// result says whether the player must be marked despawned.
pub fn switch_state(current: AppState, escape_pressed: bool) -> (r: (AppState, bool))
    ensures
        !escape_pressed ==> r == (current, false),
        escape_pressed && current == AppState::MainMenu ==> r == (AppState::InGame, false),
        escape_pressed && current == AppState::InGame ==> r == (AppState::MainMenu, true),
        escape_pressed && current == AppState::GameOver ==> r == (current, false),
{
    if escape_pressed {
        match current {
            AppState::MainMenu => (AppState::InGame, false),
            AppState::InGame => (AppState::MainMenu, true),
            AppState::GameOver => (current, false),
        }
    } else {
        (current, false)
    }
}

} // verus!
