//! Shared resources of a game: the gameplay record (state and move
//! counter) and the queue of pending key presses.

use vstd::prelude::*;

verus! {

/// A directional move command.
#[derive(Clone, Copy, Debug, PartialEq, Eq, Structural)]
pub enum Direction {
    Up,
    Down,
    Left,
    Right,
}

/// One key press handed to the core by the input collaborator. Every
/// press is accepted into the queue; only the directional ones produce
/// movement.
#[derive(Clone, Copy, Debug, PartialEq, Eq, Structural)]
pub enum Key {
    Directional(Direction),
    Other,
}

/// Whether the game is still being played or has been won. `Won` is
/// terminal: once set it is never reset.
#[derive(Clone, Copy, Debug, PartialEq, Eq, Structural)]
pub enum GameplayState {
    Playing,
    Won,
}

impl Default for GameplayState {
    /// A game starts in the `Playing` state.
    fn default() -> (r: GameplayState)
        ensures
            r == GameplayState::Playing,
    {
        GameplayState::Playing
    }
}

impl GameplayState {
    /// A textual label for on-screen status display.
    pub fn label(&self) -> (r: &'static str)
        ensures
            *self == GameplayState::Playing ==> r@ == "Playing"@,
            *self == GameplayState::Won ==> r@ == "Won!"@,
    {
        match self {
            GameplayState::Playing => "Playing",
            GameplayState::Won => "Won!",
        }
    }
}

/// The mutable gameplay record: the state and the number of ticks on
/// which at least one entity actually moved.
pub struct Gameplay {
    pub state: GameplayState,
    pub moves_count: u32,
}

impl Default for Gameplay {
    /// A game starts in the `Playing` state with zero moves.
    fn default() -> (r: Gameplay)
        ensures
            r.state == GameplayState::Playing,
            r.moves_count == 0,
    {
        Gameplay { state: GameplayState::Playing, moves_count: 0 }
    }
}

/// The pending key presses, in the order they were pushed. The movement
/// engine drains it from the most-recently-pushed end: on a tick it
/// applies the newest press and discards the older pending ones.
pub struct InputQueue {
    pub keys_pressed: Vec<Key>,
}

impl Default for InputQueue {
    /// A game starts with no pending key presses.
    fn default() -> (r: InputQueue)
        ensures
            r.keys_pressed@.len() == 0,
    {
        InputQueue { keys_pressed: Vec::new() }
    }
}

impl InputQueue {
    /// Appends a key press; safe to do at any time between ticks.
    pub fn enqueue(&mut self, k: Key)
        ensures
            final(self).keys_pressed@ == old(self).keys_pressed@.push(k),
    {
        self.keys_pressed.push(k);
    }
}

} // verus!
