//! The entity store: an arena of entities with parallel component tables.
//!
//! An [`Entity`] is a dense index into the arena. The simulation-relevant
//! components of an entity (its position and its tags) are grouped in one
//! plain record per entity, so the whole simulation state is the sequence
//! of those records plus the grid bounds. Sprite data lives in a parallel
//! table so that the presentation layer can be served without touching
//! the simulation records.

use vstd::prelude::*;

use crate::components::Box;
use crate::components::BoxSpot;
use crate::components::Immoveable;
use crate::components::Moveable;
use crate::components::Player;
use crate::components::Position;
use crate::components::Renderable;
use crate::components::Wall;

verus! {

/// An entity: an opaque identifier (a dense arena index) with no data of
/// its own.
pub type Entity = usize;

/// The simulation-relevant components of one entity: an optional grid
/// position and the presence-only tags.
#[derive(Clone, Copy, Debug)]
pub struct EntityRec {
    pub position: Option<Position>,
    pub wall: Option<Wall>,
    pub player: Option<Player>,
    pub box_tag: Option<Box>,
    pub box_spot: Option<BoxSpot>,
    pub moveable: Option<Moveable>,
    pub immoveable: Option<Immoveable>,
}

/// A record with no components attached.
pub open spec fn empty_rec() -> EntityRec {
    EntityRec {
        position: None,
        wall: None,
        player: None,
        box_tag: None,
        box_spot: None,
        moveable: None,
        immoveable: None,
    }
}

/// The entity occupies cell `(x, y)` (on any draw layer).
pub open spec fn rec_at(e: EntityRec, x: int, y: int) -> bool {
    e.position matches Some(p) && p.x == x && p.y == y
}

/// The entity is a `Moveable` occupying cell `(x, y)`.
pub open spec fn is_moveable_at(e: EntityRec, x: int, y: int) -> bool {
    e.moveable is Some && rec_at(e, x, y)
}

/// The entity is an `Immoveable` occupying cell `(x, y)`.
pub open spec fn is_immoveable_at(e: EntityRec, x: int, y: int) -> bool {
    e.immoveable is Some && rec_at(e, x, y)
}

/// The entity is a `Box` occupying cell `(x, y)`.
pub open spec fn is_box_at(e: EntityRec, x: int, y: int) -> bool {
    e.box_tag is Some && rec_at(e, x, y)
}

/// The entity is a `BoxSpot` occupying cell `(x, y)`.
pub open spec fn is_spot_at(e: EntityRec, x: int, y: int) -> bool {
    e.box_spot is Some && rec_at(e, x, y)
}

/// The entity is a `Player` occupying cell `(x, y)`.
pub open spec fn is_player_at(e: EntityRec, x: int, y: int) -> bool {
    e.player is Some && rec_at(e, x, y)
}

/// The entity is a `Wall` occupying cell `(x, y)`.
pub open spec fn is_wall_at(e: EntityRec, x: int, y: int) -> bool {
    e.wall is Some && rec_at(e, x, y)
}

/// The entity is a bare floor tile on cell `(x, y)`: positioned there
/// and carrying no tag at all.
pub open spec fn is_floor_at(e: EntityRec, x: int, y: int) -> bool {
    &&& rec_at(e, x, y)
    &&& e.wall is None
    &&& e.player is None
    &&& e.box_tag is None
    &&& e.box_spot is None
    &&& e.moveable is None
    &&& e.immoveable is None
}

/// The entity is a `Player` with a position.
pub open spec fn is_positioned_player(e: EntityRec) -> bool {
    e.player is Some && e.position is Some
}

/// Some `Moveable` entity occupies cell `(x, y)`.
pub open spec fn moveable_at(s: Seq<EntityRec>, x: int, y: int) -> bool {
    exists|i: int| 0 <= i < s.len() && is_moveable_at(s[i], x, y)
}

/// Some `Immoveable` entity occupies cell `(x, y)`.
pub open spec fn immoveable_at(s: Seq<EntityRec>, x: int, y: int) -> bool {
    exists|i: int| 0 <= i < s.len() && is_immoveable_at(s[i], x, y)
}

/// Some `Box` entity occupies cell `(x, y)`.
pub open spec fn box_at(s: Seq<EntityRec>, x: int, y: int) -> bool {
    exists|i: int| 0 <= i < s.len() && is_box_at(s[i], x, y)
}

/// Some `BoxSpot` entity occupies cell `(x, y)`.
pub open spec fn spot_at(s: Seq<EntityRec>, x: int, y: int) -> bool {
    exists|i: int| 0 <= i < s.len() && is_spot_at(s[i], x, y)
}

/// Some `Player` entity occupies cell `(x, y)`.
pub open spec fn player_at(s: Seq<EntityRec>, x: int, y: int) -> bool {
    exists|i: int| 0 <= i < s.len() && is_player_at(s[i], x, y)
}

/// Some `Wall` entity occupies cell `(x, y)`.
pub open spec fn wall_at(s: Seq<EntityRec>, x: int, y: int) -> bool {
    exists|i: int| 0 <= i < s.len() && is_wall_at(s[i], x, y)
}

/// Some bare floor tile lies on cell `(x, y)`.
pub open spec fn floor_at(s: Seq<EntityRec>, x: int, y: int) -> bool {
    exists|i: int| 0 <= i < s.len() && is_floor_at(s[i], x, y)
}

/// One record per entity is well formed with respect to the grid bounds
/// and the tag discipline: positions lie on the grid, the behavioural
/// tags exclude each other, walls are immoveable, players and boxes are
/// moveable, and box spots are inert markers.
pub open spec fn wf_rec(e: EntityRec, width: int, height: int) -> bool {
    &&& (e.position matches Some(p) ==> p.x < width && p.y < height)
    &&& !(e.moveable is Some && e.immoveable is Some)
    &&& (e.wall is Some ==> e.immoveable is Some)
    &&& (e.player is Some ==> e.moveable is Some)
    &&& (e.box_tag is Some ==> e.moveable is Some)
    &&& (e.box_spot is Some ==> e.moveable is None && e.immoveable is None)
}

/// At most one `Moveable` entity occupies any given cell.
pub open spec fn unique_moveables(s: Seq<EntityRec>) -> bool {
    forall|i: int, j: int, x: int, y: int|
        0 <= i < s.len() && 0 <= j < s.len()
            && #[trigger] is_moveable_at(s[i], x, y) && #[trigger] is_moveable_at(s[j], x, y)
            ==> i == j
}

/// At most one `Immoveable` entity occupies any given cell.
pub open spec fn unique_immoveables(s: Seq<EntityRec>) -> bool {
    forall|i: int, j: int, x: int, y: int|
        0 <= i < s.len() && 0 <= j < s.len()
            && #[trigger] is_immoveable_at(s[i], x, y) && #[trigger] is_immoveable_at(s[j], x, y)
            ==> i == j
}

/// At most one `Player` entity has a position (a single puzzle has a
/// single player; the movement engine is defined per player).
pub open spec fn at_most_one_player(s: Seq<EntityRec>) -> bool {
    forall|i: int, j: int|
        0 <= i < s.len() && 0 <= j < s.len()
            && #[trigger] is_positioned_player(s[i]) && #[trigger] is_positioned_player(s[j])
            ==> i == j
}

/// How the cell-occupancy predicates change when one record is
/// appended to the arena: a cell is occupied afterwards exactly when
/// it was before or the new record occupies it.
pub proof fn lemma_cell_preds_push(s: Seq<EntityRec>, r: EntityRec)
    ensures
        forall|x: int, y: int|
            #[trigger] moveable_at(s.push(r), x, y) <==> (moveable_at(s, x, y) || is_moveable_at(
                r,
                x,
                y,
            )),
        forall|x: int, y: int|
            #[trigger] immoveable_at(s.push(r), x, y) <==> (immoveable_at(s, x, y)
                || is_immoveable_at(r, x, y)),
        forall|x: int, y: int|
            #[trigger] box_at(s.push(r), x, y) <==> (box_at(s, x, y) || is_box_at(r, x, y)),
        forall|x: int, y: int|
            #[trigger] spot_at(s.push(r), x, y) <==> (spot_at(s, x, y) || is_spot_at(r, x, y)),
        forall|x: int, y: int|
            #[trigger] player_at(s.push(r), x, y) <==> (player_at(s, x, y) || is_player_at(
                r,
                x,
                y,
            )),
        forall|x: int, y: int|
            #[trigger] wall_at(s.push(r), x, y) <==> (wall_at(s, x, y) || is_wall_at(r, x, y)),
        forall|x: int, y: int|
            #[trigger] floor_at(s.push(r), x, y) <==> (floor_at(s, x, y) || is_floor_at(r, x, y)),
{
    assert forall|x: int, y: int|
        #[trigger] moveable_at(s.push(r), x, y) <==> (moveable_at(s, x, y) || is_moveable_at(
            r,
            x,
            y,
        )) by {
        if moveable_at(s.push(r), x, y) {
            let i = choose|i: int| 0 <= i < s.push(r).len() && is_moveable_at(s.push(r)[i], x, y);
            if i < s.len() {
                assert(is_moveable_at(s[i], x, y));
            }
        }
        if moveable_at(s, x, y) {
            let i = choose|i: int| 0 <= i < s.len() && is_moveable_at(s[i], x, y);
            assert(is_moveable_at(s.push(r)[i], x, y));
        }
        if is_moveable_at(r, x, y) {
            assert(is_moveable_at(s.push(r)[s.len() as int], x, y));
        }
    }
    assert forall|x: int, y: int|
        #[trigger] immoveable_at(s.push(r), x, y) <==> (immoveable_at(s, x, y) || is_immoveable_at(
            r,
            x,
            y,
        )) by {
        if immoveable_at(s.push(r), x, y) {
            let i = choose|i: int| 0 <= i < s.push(r).len() && is_immoveable_at(s.push(r)[i], x, y);
            if i < s.len() {
                assert(is_immoveable_at(s[i], x, y));
            }
        }
        if immoveable_at(s, x, y) {
            let i = choose|i: int| 0 <= i < s.len() && is_immoveable_at(s[i], x, y);
            assert(is_immoveable_at(s.push(r)[i], x, y));
        }
        if is_immoveable_at(r, x, y) {
            assert(is_immoveable_at(s.push(r)[s.len() as int], x, y));
        }
    }
    assert forall|x: int, y: int|
        #[trigger] box_at(s.push(r), x, y) <==> (box_at(s, x, y) || is_box_at(r, x, y)) by {
        if box_at(s.push(r), x, y) {
            let i = choose|i: int| 0 <= i < s.push(r).len() && is_box_at(s.push(r)[i], x, y);
            if i < s.len() {
                assert(is_box_at(s[i], x, y));
            }
        }
        if box_at(s, x, y) {
            let i = choose|i: int| 0 <= i < s.len() && is_box_at(s[i], x, y);
            assert(is_box_at(s.push(r)[i], x, y));
        }
        if is_box_at(r, x, y) {
            assert(is_box_at(s.push(r)[s.len() as int], x, y));
        }
    }
    assert forall|x: int, y: int|
        #[trigger] spot_at(s.push(r), x, y) <==> (spot_at(s, x, y) || is_spot_at(r, x, y)) by {
        if spot_at(s.push(r), x, y) {
            let i = choose|i: int| 0 <= i < s.push(r).len() && is_spot_at(s.push(r)[i], x, y);
            if i < s.len() {
                assert(is_spot_at(s[i], x, y));
            }
        }
        if spot_at(s, x, y) {
            let i = choose|i: int| 0 <= i < s.len() && is_spot_at(s[i], x, y);
            assert(is_spot_at(s.push(r)[i], x, y));
        }
        if is_spot_at(r, x, y) {
            assert(is_spot_at(s.push(r)[s.len() as int], x, y));
        }
    }
    assert forall|x: int, y: int|
        #[trigger] player_at(s.push(r), x, y) <==> (player_at(s, x, y) || is_player_at(r, x, y)) by {
        if player_at(s.push(r), x, y) {
            let i = choose|i: int| 0 <= i < s.push(r).len() && is_player_at(s.push(r)[i], x, y);
            if i < s.len() {
                assert(is_player_at(s[i], x, y));
            }
        }
        if player_at(s, x, y) {
            let i = choose|i: int| 0 <= i < s.len() && is_player_at(s[i], x, y);
            assert(is_player_at(s.push(r)[i], x, y));
        }
        if is_player_at(r, x, y) {
            assert(is_player_at(s.push(r)[s.len() as int], x, y));
        }
    }
    assert forall|x: int, y: int|
        #[trigger] wall_at(s.push(r), x, y) <==> (wall_at(s, x, y) || is_wall_at(r, x, y)) by {
        if wall_at(s.push(r), x, y) {
            let i = choose|i: int| 0 <= i < s.push(r).len() && is_wall_at(s.push(r)[i], x, y);
            if i < s.len() {
                assert(is_wall_at(s[i], x, y));
            }
        }
        if wall_at(s, x, y) {
            let i = choose|i: int| 0 <= i < s.len() && is_wall_at(s[i], x, y);
            assert(is_wall_at(s.push(r)[i], x, y));
        }
        if is_wall_at(r, x, y) {
            assert(is_wall_at(s.push(r)[s.len() as int], x, y));
        }
    }
    assert forall|x: int, y: int|
        #[trigger] floor_at(s.push(r), x, y) <==> (floor_at(s, x, y) || is_floor_at(r, x, y)) by {
        if floor_at(s.push(r), x, y) {
            let i = choose|i: int| 0 <= i < s.push(r).len() && is_floor_at(s.push(r)[i], x, y);
            if i < s.len() {
                assert(is_floor_at(s[i], x, y));
            }
        }
        if floor_at(s, x, y) {
            let i = choose|i: int| 0 <= i < s.len() && is_floor_at(s[i], x, y);
            assert(is_floor_at(s.push(r)[i], x, y));
        }
        if is_floor_at(r, x, y) {
            assert(is_floor_at(s.push(r)[s.len() as int], x, y));
        }
    }
}

/// Appending a record that respects the grid and whose cell is free of
/// whichever behavioural tag it carries keeps the store discipline.
pub proof fn lemma_spawn_wf(s: Seq<EntityRec>, r: EntityRec, w: int, h: int)
    requires
        forall|i: int| 0 <= i < s.len() ==> wf_rec(#[trigger] s[i], w, h),
        unique_moveables(s),
        unique_immoveables(s),
        wf_rec(r, w, h),
        match r.position {
            Some(p) => {
                &&& (r.moveable is Some ==> !moveable_at(s, p.x as int, p.y as int))
                &&& (r.immoveable is Some ==> !immoveable_at(s, p.x as int, p.y as int))
            },
            None => true,
        },
    ensures
        forall|i: int| 0 <= i < s.push(r).len() ==> wf_rec(#[trigger] s.push(r)[i], w, h),
        unique_moveables(s.push(r)),
        unique_immoveables(s.push(r)),
{
    assert forall|ia: int, ja: int, x: int, y: int|
        0 <= ia < s.push(r).len() && 0 <= ja < s.push(r).len() && #[trigger] is_moveable_at(
            s.push(r)[ia],
            x,
            y,
        ) && #[trigger] is_moveable_at(s.push(r)[ja], x, y) implies ia == ja by {
        if ia < s.len() && ja < s.len() {
            assert(is_moveable_at(s[ia], x, y));
            assert(is_moveable_at(s[ja], x, y));
        } else if ia < s.len() {
            assert(is_moveable_at(r, x, y));
            assert(is_moveable_at(s[ia], x, y));
            assert(moveable_at(s, x, y));
        } else if ja < s.len() {
            assert(is_moveable_at(r, x, y));
            assert(is_moveable_at(s[ja], x, y));
            assert(moveable_at(s, x, y));
        }
    }
    assert forall|ia: int, ja: int, x: int, y: int|
        0 <= ia < s.push(r).len() && 0 <= ja < s.push(r).len() && #[trigger] is_immoveable_at(
            s.push(r)[ia],
            x,
            y,
        ) && #[trigger] is_immoveable_at(s.push(r)[ja], x, y) implies ia == ja by {
        if ia < s.len() && ja < s.len() {
            assert(is_immoveable_at(s[ia], x, y));
            assert(is_immoveable_at(s[ja], x, y));
        } else if ia < s.len() {
            assert(is_immoveable_at(r, x, y));
            assert(is_immoveable_at(s[ia], x, y));
            assert(immoveable_at(s, x, y));
        } else if ja < s.len() {
            assert(is_immoveable_at(r, x, y));
            assert(is_immoveable_at(s[ja], x, y));
            assert(immoveable_at(s, x, y));
        }
    }
}

/// Indexed container of entities and their components; owns all
/// simulation state. The grid is rectangular with fixed bounds: every
/// position satisfies `0 <= x < width` and `0 <= y < height`.
#[derive(Debug)]
pub struct EntityStore {
    pub width: u8,
    pub height: u8,
    pub entities: Vec<EntityRec>,
    pub renderables: Vec<Option<Renderable>>,
}

impl EntityStore {
    /// The well-formedness invariant of the store: the sprite table is
    /// parallel to the arena, every record respects the grid bounds and
    /// the tag discipline, and no cell holds two `Moveable` or two
    /// `Immoveable` entities.
    pub open spec fn wf(self) -> bool {
        &&& self.renderables@.len() == self.entities@.len()
        &&& forall|i: int|
            0 <= i < self.entities@.len()
                ==> wf_rec(#[trigger] self.entities@[i], self.width as int, self.height as int)
        &&& unique_moveables(self.entities@)
        &&& unique_immoveables(self.entities@)
    }

    /// An empty store over a `width` by `height` grid.
    pub fn new(width: u8, height: u8) -> (r: EntityStore)
        ensures
            r.width == width,
            r.height == height,
            r.entities@.len() == 0,
            r.renderables@.len() == 0,
            r.wf(),
    {
        EntityStore { width, height, entities: Vec::new(), renderables: Vec::new() }
    }

    /// Creates a fresh entity with no components attached and returns
    /// its identifier.
    pub fn create_entity(&mut self) -> (e: Entity)
        ensures
            e == old(self).entities@.len(),
            final(self).entities@ == old(self).entities@.push(empty_rec()),
            final(self).renderables@ == old(self).renderables@.push(None::<Renderable>),
            final(self).width == old(self).width,
            final(self).height == old(self).height,
    {
        let e = self.entities.len();
        self.entities.push(EntityRec {
            position: None,
            wall: None,
            player: None,
            box_tag: None,
            box_spot: None,
            moveable: None,
            immoveable: None,
        });
        self.renderables.push(None);
        e
    }

    /// Creates a fresh entity carrying exactly the given components and
    /// returns its identifier.
    pub fn spawn(&mut self, rec: EntityRec) -> (e: Entity)
        ensures
            e == old(self).entities@.len(),
            final(self).entities@ == old(self).entities@.push(rec),
            final(self).renderables@ == old(self).renderables@.push(None::<Renderable>),
            final(self).width == old(self).width,
            final(self).height == old(self).height,
    {
        let e = self.entities.len();
        self.entities.push(rec);
        self.renderables.push(None);
        e
    }

    /// Attaches (or replaces) the `Position` component of an entity.
    pub fn attach_position(&mut self, e: Entity, p: Position)
        requires
            e < old(self).entities@.len(),
        ensures
            final(self).entities@ == old(self).entities@.update(
                e as int,
                EntityRec { position: Some(p), ..old(self).entities@[e as int] },
            ),
            final(self).renderables@ == old(self).renderables@,
            final(self).width == old(self).width,
            final(self).height == old(self).height,
    {
        let mut rec = self.entities[e];
        rec.position = Some(p);
        self.entities.set(e, rec);
    }

    /// Attaches (or replaces) the `Renderable` component of an entity.
    pub fn attach_renderable(&mut self, e: Entity, r: Renderable)
        requires
            e < old(self).renderables@.len(),
        ensures
            final(self).renderables@ == old(self).renderables@.update(e as int, Some(r)),
            final(self).entities@ == old(self).entities@,
            final(self).width == old(self).width,
            final(self).height == old(self).height,
    {
        self.renderables.set(e, Some(r));
    }

    /// Attaches the `Wall` tag to an entity.
    pub fn attach_wall(&mut self, e: Entity)
        requires
            e < old(self).entities@.len(),
        ensures
            final(self).entities@ == old(self).entities@.update(
                e as int,
                EntityRec { wall: Some(Wall {}), ..old(self).entities@[e as int] },
            ),
            final(self).renderables@ == old(self).renderables@,
            final(self).width == old(self).width,
            final(self).height == old(self).height,
    {
        let mut rec = self.entities[e];
        rec.wall = Some(Wall {});
        self.entities.set(e, rec);
    }

    /// Attaches the `Player` tag to an entity.
    pub fn attach_player(&mut self, e: Entity)
        requires
            e < old(self).entities@.len(),
        ensures
            final(self).entities@ == old(self).entities@.update(
                e as int,
                EntityRec { player: Some(Player {}), ..old(self).entities@[e as int] },
            ),
            final(self).renderables@ == old(self).renderables@,
            final(self).width == old(self).width,
            final(self).height == old(self).height,
    {
        let mut rec = self.entities[e];
        rec.player = Some(Player {});
        self.entities.set(e, rec);
    }

    /// Attaches the `Box` tag to an entity.
    pub fn attach_box(&mut self, e: Entity)
        requires
            e < old(self).entities@.len(),
        ensures
            final(self).entities@ == old(self).entities@.update(
                e as int,
                EntityRec { box_tag: Some(Box {}), ..old(self).entities@[e as int] },
            ),
            final(self).renderables@ == old(self).renderables@,
            final(self).width == old(self).width,
            final(self).height == old(self).height,
    {
        let mut rec = self.entities[e];
        rec.box_tag = Some(Box {});
        self.entities.set(e, rec);
    }

    /// Attaches the `BoxSpot` tag to an entity.
    pub fn attach_box_spot(&mut self, e: Entity)
        requires
            e < old(self).entities@.len(),
        ensures
            final(self).entities@ == old(self).entities@.update(
                e as int,
                EntityRec { box_spot: Some(BoxSpot {}), ..old(self).entities@[e as int] },
            ),
            final(self).renderables@ == old(self).renderables@,
            final(self).width == old(self).width,
            final(self).height == old(self).height,
    {
        let mut rec = self.entities[e];
        rec.box_spot = Some(BoxSpot {});
        self.entities.set(e, rec);
    }

    /// Attaches the `Moveable` tag to an entity.
    pub fn attach_moveable(&mut self, e: Entity)
        requires
            e < old(self).entities@.len(),
        ensures
            final(self).entities@ == old(self).entities@.update(
                e as int,
                EntityRec { moveable: Some(Moveable {}), ..old(self).entities@[e as int] },
            ),
            final(self).renderables@ == old(self).renderables@,
            final(self).width == old(self).width,
            final(self).height == old(self).height,
    {
        let mut rec = self.entities[e];
        rec.moveable = Some(Moveable {});
        self.entities.set(e, rec);
    }

    /// Attaches the `Immoveable` tag to an entity.
    pub fn attach_immoveable(&mut self, e: Entity)
        requires
            e < old(self).entities@.len(),
        ensures
            final(self).entities@ == old(self).entities@.update(
                e as int,
                EntityRec { immoveable: Some(Immoveable {}), ..old(self).entities@[e as int] },
            ),
            final(self).renderables@ == old(self).renderables@,
            final(self).width == old(self).width,
            final(self).height == old(self).height,
    {
        let mut rec = self.entities[e];
        rec.immoveable = Some(Immoveable {});
        self.entities.set(e, rec);
    }

    /// The components of entity `e`.
    pub fn get(&self, e: Entity) -> (r: EntityRec)
        requires
            e < self.entities@.len(),
        ensures
            r == self.entities@[e as int],
    {
        self.entities[e]
    }

    /// The number of entities in the store.
    pub fn len(&self) -> (r: usize)
        ensures
            r == self.entities@.len(),
    {
        self.entities.len()
    }

    /// The sprite component of entity `e`, if any.
    pub fn get_renderable(&self, e: Entity) -> (r: &Option<Renderable>)
        requires
            e < self.renderables@.len(),
        ensures
            *r == self.renderables@[e as int],
    {
        &self.renderables[e]
    }

    /// Position-indexed lookup: the `Moveable` entity occupying cell
    /// `(x, y)`, if any.
    pub fn moveable_entity_at(&self, x: u8, y: u8) -> (r: Option<Entity>)
        ensures
            match r {
                Some(i) => i < self.entities@.len() && is_moveable_at(
                    self.entities@[i as int],
                    x as int,
                    y as int,
                ),
                None => !moveable_at(self.entities@, x as int, y as int),
            },
    {
        let mut i: usize = 0;
        while i < self.entities.len()
            invariant
                i <= self.entities@.len(),
                forall|j: int|
                    0 <= j < i ==> !is_moveable_at(#[trigger] self.entities@[j], x as int, y as int),
            decreases self.entities@.len() - i,
        {
            let rec = self.entities[i];
            if rec.moveable.is_some() {
                match rec.position {
                    Some(p) => {
                        if p.x == x && p.y == y {
                            return Some(i);
                        }
                    },
                    None => {},
                }
            }
            i = i + 1;
        }
        None
    }

    /// Position-indexed lookup: whether an `Immoveable` entity occupies
    /// cell `(x, y)`.
    pub fn has_immoveable_at(&self, x: u8, y: u8) -> (r: bool)
        ensures
            r == immoveable_at(self.entities@, x as int, y as int),
    {
        let mut i: usize = 0;
        while i < self.entities.len()
            invariant
                i <= self.entities@.len(),
                forall|j: int|
                    0 <= j < i ==> !is_immoveable_at(
                        #[trigger] self.entities@[j],
                        x as int,
                        y as int,
                    ),
            decreases self.entities@.len() - i,
        {
            let rec = self.entities[i];
            if rec.immoveable.is_some() {
                match rec.position {
                    Some(p) => {
                        if p.x == x && p.y == y {
                            return true;
                        }
                    },
                    None => {},
                }
            }
            i = i + 1;
        }
        false
    }

    /// Position-indexed lookup: whether a `Box` entity occupies cell
    /// `(x, y)`.
    pub fn has_box_at(&self, x: u8, y: u8) -> (r: bool)
        ensures
            r == box_at(self.entities@, x as int, y as int),
    {
        let mut i: usize = 0;
        while i < self.entities.len()
            invariant
                i <= self.entities@.len(),
                forall|j: int|
                    0 <= j < i ==> !is_box_at(#[trigger] self.entities@[j], x as int, y as int),
            decreases self.entities@.len() - i,
        {
            let rec = self.entities[i];
            if rec.box_tag.is_some() {
                match rec.position {
                    Some(p) => {
                        if p.x == x && p.y == y {
                            return true;
                        }
                    },
                    None => {},
                }
            }
            i = i + 1;
        }
        false
    }

    /// Position-indexed lookup: whether a `BoxSpot` entity occupies cell
    /// `(x, y)`.
    pub fn has_spot_at(&self, x: u8, y: u8) -> (r: bool)
        ensures
            r == spot_at(self.entities@, x as int, y as int),
    {
        let mut i: usize = 0;
        while i < self.entities.len()
            invariant
                i <= self.entities@.len(),
                forall|j: int|
                    0 <= j < i ==> !is_spot_at(#[trigger] self.entities@[j], x as int, y as int),
            decreases self.entities@.len() - i,
        {
            let rec = self.entities[i];
            if rec.box_spot.is_some() {
                match rec.position {
                    Some(p) => {
                        if p.x == x && p.y == y {
                            return true;
                        }
                    },
                    None => {},
                }
            }
            i = i + 1;
        }
        false
    }

    /// The position of the first `Player` entity that has one, if any.
    pub fn player_position(&self) -> (r: Option<Position>)
        ensures
            match r {
                Some(p) => exists|i: int|
                    0 <= i < self.entities@.len() && #[trigger] is_positioned_player(
                        self.entities@[i],
                    ) && self.entities@[i].position == Some(p) && (forall|j: int|
                        0 <= j < i ==> !is_positioned_player(#[trigger] self.entities@[j])),
                None => forall|i: int|
                    0 <= i < self.entities@.len() ==> !is_positioned_player(
                        #[trigger] self.entities@[i],
                    ),
            },
    {
        let mut i: usize = 0;
        while i < self.entities.len()
            invariant
                i <= self.entities@.len(),
                forall|j: int| 0 <= j < i ==> !is_positioned_player(#[trigger] self.entities@[j]),
            decreases self.entities@.len() - i,
        {
            let rec = self.entities[i];
            if rec.player.is_some() {
                match rec.position {
                    Some(p) => {
                        proof {
                            assert(is_positioned_player(self.entities@[i as int]));
                        }
                        return Some(p);
                    },
                    None => {},
                }
            }
            i = i + 1;
        }
        None
    }
}

} // verus!
