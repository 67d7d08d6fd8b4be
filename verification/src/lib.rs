//! Core logic of a 2D top-down action game: a spatial index that maps grid
//! cells to the entities occupying them, kept consistent as bounding boxes
//! move; the directional range query used by melee attacks and NPC
//! interaction; and the attack lifecycle state machine that issues damage
//! events.
//!
//! Entities are opaque `u64` handles.  World positions and distances are
//! integer world units; time is integer microseconds.  The engine layers
//! around this crate (rendering, physics, input, pathfinding, the dialogue
//! service) exchange plain values with these functions.

pub mod ai;
pub mod combat;
pub mod console;
pub mod grid;
pub mod inventory;
pub mod maps;
pub mod path_finder;
pub mod physics;
pub mod sprites;
pub mod state;
pub mod ui;

pub use grid::Coordinate;
