//! Components: the data that can be attached to an entity.
//!
//! An entity is an opaque index with no intrinsic data; everything it
//! "is" lives in these component values, held by the entity store.

use vstd::prelude::*;

verus! {

/// Integer grid coordinates of an entity. `x` grows to the right,
/// `y` grows downwards; `z` orders overlapping sprites when drawing
/// and is irrelevant to the simulation logic.
#[derive(Clone, Copy, Debug, PartialEq, Eq, Structural)]
pub struct Position {
    pub x: u8,
    pub y: u8,
    pub z: u8,
}

/// Sprite path consumed by the (external) presentation layer only.
#[derive(Clone, Debug)]
pub struct Renderable {
    pub path: String,
}

/// Identity tag: the entity is a wall.
#[derive(Clone, Copy, Debug, PartialEq, Eq, Structural)]
pub struct Wall {}

/// Identity tag: the entity is the player.
#[derive(Clone, Copy, Debug, PartialEq, Eq, Structural)]
pub struct Player {}

/// Identity tag: the entity is a pushable box.
#[derive(Clone, Copy, Debug, PartialEq, Eq, Structural)]
pub struct Box {}

/// Identity tag: the entity is a target spot that wants a box on it.
#[derive(Clone, Copy, Debug, PartialEq, Eq, Structural)]
pub struct BoxSpot {}

/// Behavioural tag: the movement engine may push this entity.
#[derive(Clone, Copy, Debug, PartialEq, Eq, Structural)]
pub struct Moveable {}

/// Behavioural tag: this entity blocks a push chain.
#[derive(Clone, Copy, Debug, PartialEq, Eq, Structural)]
pub struct Immoveable {}

} // verus!
