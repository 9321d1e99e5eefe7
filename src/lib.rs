//! Simulation core of a small first-person forest game: tile grid and
//! placement, witch behaviour, and player steering, all in fixed-point
//! world units so that every rule can be stated and proved exactly.

pub mod geometry;
pub mod components;
pub mod registry;
pub mod ai;
mod chance;
pub mod grid;
pub mod spawn;
pub mod player;
pub mod settings;
