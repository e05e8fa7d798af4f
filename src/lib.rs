//! Adaptive Replacement Cache (ARC) page-replacement policy for a buffer
//! pool: two resident lists (recency, frequency), two ghost lists of evicted
//! page ids, and an adaptive target size for the recency side.

pub mod model;
pub mod seqs;
pub mod lists;
pub mod clock;
pub mod replacer;
pub mod laws;
