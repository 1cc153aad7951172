//! Win-condition evaluation.
//!
//! After the movement phase of a tick, the store is inspected: when
//! every `BoxSpot` position coincides with some `Box` position, the
//! gameplay state flips to `Won`. `Won` is terminal: once set, the
//! evaluator never touches the record again, and the completion
//! notification (the final move count) is surfaced exactly once, on
//! the winning tick.

use vstd::prelude::*;

use crate::entity_store::EntityRec;
use crate::entity_store::EntityStore;
use crate::entity_store::box_at;
use crate::resources::Gameplay;
use crate::resources::GameplayState;

verus! {

/// If the entity is a positioned `BoxSpot`, some `Box` entity stands
/// on its cell.
pub open spec fn spot_covered(s: Seq<EntityRec>, e: EntityRec) -> bool {
    match e.position {
        Some(p) => e.box_spot is Some ==> box_at(s, p.x as int, p.y as int),
        None => true,
    }
}

/// Every `BoxSpot` position coincides with some `Box` position.
pub open spec fn all_spots_covered(s: Seq<EntityRec>) -> bool {
    forall|i: int| 0 <= i < s.len() ==> spot_covered(s, #[trigger] s[i])
}

/// The win-condition evaluator. Stateless; its `run` method performs
/// the evaluation phase of one tick.
pub struct GameplayStateSystem {}

impl GameplayStateSystem {
    /// One evaluation phase: a no-op when the game is already won;
    /// otherwise flips the state to `Won` exactly when every box spot
    /// is covered by a box. Returns the completion notification — the
    /// final move count — exactly on the tick of the winning move, and
    /// `None` on every other tick. The move counter itself is never
    /// touched here.
    pub fn run(&self, store: &EntityStore, gameplay: &mut Gameplay) -> (won_now: Option<u32>)
        ensures
            final(gameplay).moves_count == old(gameplay).moves_count,
            (final(gameplay).state == GameplayState::Won <==> (old(gameplay).state
                == GameplayState::Won || all_spots_covered(store.entities@))),
            old(gameplay).state == GameplayState::Won ==> *final(gameplay) == *old(gameplay)
                && won_now is None,
            won_now == (if old(gameplay).state != GameplayState::Won && all_spots_covered(
                store.entities@,
            ) {
                Some(old(gameplay).moves_count)
            } else {
                None::<u32>
            }),
    {
        if gameplay.state == GameplayState::Won {
            return None;
        }
        let mut i: usize = 0;
        while i < store.entities.len()
            invariant
                i <= store.entities@.len(),
                forall|j: int|
                    0 <= j < i ==> spot_covered(store.entities@, #[trigger] store.entities@[j]),
            decreases store.entities@.len() - i,
        {
            let rec = store.entities[i];
            if rec.box_spot.is_some() {
                match rec.position {
                    Some(p) => {
                        if !store.has_box_at(p.x, p.y) {
                            proof {
                                assert(!spot_covered(store.entities@, store.entities@[i as int]));
                            }
                            return None;
                        }
                    },
                    None => {},
                }
            }
            i = i + 1;
        }
        gameplay.state = GameplayState::Won;
        Some(gameplay.moves_count)
    }
}

} // verus!
