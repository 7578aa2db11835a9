//! The coarse application state the simulation runs under.

use vstd::prelude::*;

verus! {

/// The overall game state.
#[derive(Debug, Clone, Copy, PartialEq, Eq, Structural, Hash, Default)]
pub enum GameState {
    #[default]
    Menu,
    Playing,
    Paused,
    GameOver,
}

} // verus!
