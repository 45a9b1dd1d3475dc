//! Alignment algorithms: core types and the Smith-Waterman engine.

pub mod align;
pub mod smith_waterman;
