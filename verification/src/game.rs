//! The tick driver: one value owning the entity store, the gameplay
//! record and the input queue, advanced by discrete ticks.
//!
//! Each tick runs the movement phase and then the win evaluation,
//! strictly in that order, so that win detection observes the
//! post-move state. The surrounding program only needs to enqueue key
//! presses and call [`Game::advance_tick`]; it can read the store and
//! the gameplay record between ticks to render.

use vstd::prelude::*;

use crate::entity_store::EntityStore;
use crate::entity_store::at_most_one_player;
use crate::gameplay_state_system::GameplayStateSystem;
use crate::gameplay_state_system::all_spots_covered;
use crate::input_system::InputSystem;
use crate::input_system::has_positioned_player;
use crate::input_system::tick_moved;
use crate::input_system::tick_store_result;
use crate::resources::Gameplay;
use crate::resources::GameplayState;
use crate::resources::InputQueue;
use crate::resources::Key;

verus! {

/// A running game: the entity store seeded from a map, the gameplay
/// record and the queue of pending key presses.
pub struct Game {
    pub store: EntityStore,
    pub gameplay: Gameplay,
    pub input_queue: InputQueue,
}

impl Game {
    /// A game is well formed when its store is and when at most one
    /// player is positioned on the grid.
    pub open spec fn wf(self) -> bool {
        &&& self.store.wf()
        &&& at_most_one_player(self.store.entities@)
    }

    /// A fresh game over an (already seeded) entity store: state
    /// `Playing`, zero moves, no pending input.
    pub fn new(store: EntityStore) -> (g: Game)
        ensures
            g.store == store,
            g.gameplay.state == GameplayState::Playing,
            g.gameplay.moves_count == 0,
            g.input_queue.keys_pressed@ == Seq::<Key>::empty(),
            store.wf() && at_most_one_player(store.entities@) ==> g.wf(),
    {
        Game {
            store,
            gameplay: Gameplay { state: GameplayState::Playing, moves_count: 0 },
            input_queue: InputQueue { keys_pressed: Vec::new() },
        }
    }

    /// Appends one key press to the input queue. Safe at any time: it
    /// touches nothing but the queue.
    pub fn enqueue_input(&mut self, k: Key)
        ensures
            final(self).store == old(self).store,
            final(self).gameplay == old(self).gameplay,
            final(self).input_queue.keys_pressed@ == old(self).input_queue.keys_pressed@.push(k),
    {
        self.input_queue.enqueue(k);
    }

    /// One tick: movement resolution, then win evaluation. Returns the
    /// completion notification (the final move count) exactly on the
    /// tick of the winning move, `None` on every other tick. Once the
    /// state is `Won` no tick ever changes it back.
    pub fn advance_tick(&mut self) -> (won_now: Option<u32>)
        requires
            old(self).wf(),
            old(self).gameplay.moves_count < u32::MAX,
        ensures
            final(self).wf(),
            final(self).store.width == old(self).store.width,
            final(self).store.height == old(self).store.height,
            final(self).store.renderables@ == old(self).store.renderables@,
            final(self).store.entities@ == tick_store_result(
                old(self).store.entities@,
                old(self).input_queue.keys_pressed@,
                old(self).store.width as int,
                old(self).store.height as int,
            ),
            final(self).input_queue.keys_pressed@ == (if has_positioned_player(
                old(self).store.entities@,
            ) {
                Seq::<Key>::empty()
            } else {
                old(self).input_queue.keys_pressed@
            }),
            final(self).gameplay.moves_count as int == old(self).gameplay.moves_count as int + (
            if tick_moved(
                old(self).store.entities@,
                old(self).input_queue.keys_pressed@,
                old(self).store.width as int,
                old(self).store.height as int,
            ) {
                1int
            } else {
                0int
            }),
            (final(self).gameplay.state == GameplayState::Won <==> (old(self).gameplay.state
                == GameplayState::Won || all_spots_covered(final(self).store.entities@))),
            old(self).gameplay.state == GameplayState::Won ==> final(self).gameplay.state
                == GameplayState::Won,
            won_now == (if old(self).gameplay.state != GameplayState::Won && all_spots_covered(
                final(self).store.entities@,
            ) {
                Some(final(self).gameplay.moves_count)
            } else {
                None::<u32>
            }),
    {
        let input_system = InputSystem {};
        input_system.run(&mut self.store, &mut self.gameplay, &mut self.input_queue);
        let gameplay_state_system = GameplayStateSystem {};
        gameplay_state_system.run(&self.store, &mut self.gameplay)
    }
}

} // verus!
