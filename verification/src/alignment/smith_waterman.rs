//! The Smith-Waterman local-alignment engine and its scoring policies.

pub mod details;
pub mod matrix;
pub mod scorer;
pub mod simple_scorer;
pub mod smith_waterman;

pub use self::scorer::Scorer;
pub use self::simple_scorer::SimpleScorer;
pub use self::smith_waterman::SmithWaterman;
