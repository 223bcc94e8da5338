//! A tile-map solver in the wave-function-collapse style: given a catalog of
//! tiles and a pairwise adjacency relation, it assigns one tile to every cell
//! of a one- or two-dimensional grid so that every pair of neighboring cells
//! satisfies the relation, or reports failure after a bounded number of
//! restarts.

pub mod canvas;
pub mod color;
pub mod config;
pub mod domain;
pub mod errors;
pub mod grid;
pub mod propagate;
pub mod rules;
pub mod sector;
pub mod shape;
pub mod solver;
pub mod tile;

