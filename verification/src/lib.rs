//! A chunked falling-sand cellular automaton.
//!
//! The world is a grid of fixed-size square chunks, each holding a grid of
//! elements (air, sand, stone, water) with a per-element velocity, color and
//! tick stamp. The `Sandbox` registry owns every chunk and advances the world
//! one tick at a time; per-element movement and material rules run through a
//! neighbor-scoped view (`LocalApi`) that can reach a chunk and its eight
//! neighbors. Dirty rectangles, double-buffered per chunk, track which regions
//! changed so that only active areas are re-simulated or redrawn.

pub mod chunk;
pub mod coords;
pub mod element;
pub mod line;
pub mod local_api;
pub mod rect;
pub mod sandbox;

pub use chunk::Chunk;
pub use element::{can_displace, Element, ElementKind, Velocity};
pub use line::GridLineIterator;
pub use local_api::LocalApi;
pub use rect::{Pos, Rect};
pub use sandbox::Sandbox;
