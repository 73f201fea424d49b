//! Star Battle puzzles: from per-cell wall flags to regions, from regions to a
//! constraint model over one boolean per cell, and from a satisfying
//! assignment to a drawn grid.

pub mod captures;
pub mod encoding;
pub mod error;
pub mod grid;
pub mod markup;
pub mod model;
pub mod puzzle;
pub mod quota;
pub mod regions;
pub mod render;
pub mod rules;
pub mod solve;
pub mod union_find;
pub mod walls;
