//! A three-dimensional predator-prey cellular automaton.
//!
//! A fixed-size volume of cells, each empty or holding a fish or a shark, is
//! advanced one tick at a time by a single in-place sweep. Every rule of the
//! sweep is stated over a mathematical model of the volume, [`grid::Grid`],
//! and the executable code is proved to follow it.

pub mod entity;
pub mod grid;
pub mod laws;
pub mod random;
pub mod rules;
pub mod world;
