//! What holds of every reduction.

pub mod distinctness;
pub mod documents;
pub mod fields;
pub mod merging;
pub mod ordering;
pub mod run_counts;
pub mod well_formed;
