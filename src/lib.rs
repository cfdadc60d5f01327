//! A Life-family cellular automaton on the surface of a sphere.
//!
//! The sphere is tessellated into hexagonal (and twelve pentagonal) cells by
//! the H3 hierarchical index. Cells are identified by their 64-bit H3 index.

pub mod rules;
pub mod unit;
pub mod grid;
pub mod game;
pub mod pattern;
