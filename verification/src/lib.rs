//! A discrete-time cellular automaton for granular material on a 2D grid.
//!
//! The engine advances a grid of cells one generation at a time: every cell
//! proposes its next material from a frozen snapshot of its Moore
//! neighbourhood, and all proposals are committed at once, so the outcome of
//! a step does not depend on the order in which cells are visited.

pub mod grid;
pub mod laws;
pub mod material;
pub mod node;
pub mod rules;
pub mod snapshot;
