//! Conway's Game of Life: a sparse, verified simulation core.
//!
//! The live population is an unordered set of cells on a logically infinite
//! grid. `cell` holds the coordinate type, its neighborhood, and the
//! projection into screen space; `game` owns the population, advances it one
//! generation at a time and seeds canonical patterns; `grid` is a dense,
//! bounded variant of the same automaton; `laws` proves the rule's notable
//! consequences once and for all origins.

pub mod cell;
pub mod game;
pub mod grid;
pub mod laws;
