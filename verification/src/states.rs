//! Menu or game.

use vstd::prelude::*;

verus! {

/// What the program is showing.
#[derive(Clone, Copy, Debug, Default, PartialEq, Eq, Hash, Structural)]
pub enum GameState {
    #[default]
    MainMenu,
    Playing,
}

/// The state after the play button or the escape key: the button starts the
/// game from the menu, the key leaves the game for the menu, and the key wins
/// where both come at once.
pub open spec fn next_state(state: GameState, play_pressed: bool, escape_pressed: bool) -> GameState {
    match state {
        GameState::MainMenu => if play_pressed {
            GameState::Playing
        } else {
            GameState::MainMenu
        },
        GameState::Playing => if escape_pressed {
            GameState::MainMenu
        } else {
            GameState::Playing
        },
    }
}

impl GameState {
    /// The state after the play button or the escape key.
    pub fn next(self, play_pressed: bool, escape_pressed: bool) -> (state: GameState)
        ensures
            state == next_state(self, play_pressed, escape_pressed),
    {
        match self {
            GameState::MainMenu => if play_pressed {
                GameState::Playing
            } else {
                GameState::MainMenu
            },
            GameState::Playing => if escape_pressed {
                GameState::MainMenu
            } else {
                GameState::Playing
            },
        }
    }
}

} // verus!
