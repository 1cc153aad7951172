//! Simulation core of a grid-based box-pushing puzzle.
//!
//! A fixed-size tile grid is populated with walls, a player, boxes and
//! target spots. Directional move commands are resolved into deterministic
//! entity-position updates (classic push-chain semantics), and the win
//! condition — a box on every spot — flips the game state to `Won`.
//!
//! The crate covers the entity/component data store, the map-parsing
//! grammar that seeds it, the push-chain movement-resolution engine and
//! the win-condition evaluator. Rendering, windowing and input polling
//! are left to the surrounding program, which drives the core through
//! [`game::Game`].

pub mod components;
pub mod entity_store;
pub mod game;
pub mod gameplay_state_system;
pub mod input_system;
pub mod laws;
pub mod map;
pub mod resources;
