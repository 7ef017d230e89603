//! A batch skill-ranking library.
//!
//! Competitors start from a common prior belief state, a chronological list
//! of pairwise match outcomes is replayed in order through a Bayesian rating
//! update, and the final population is ranked by a conservative rank score
//! into a 1-indexed leaderboard.

pub mod data;
pub mod laws;
pub mod outcome;
pub mod pipeline;
pub mod rating;
pub mod replay;
pub mod report;
pub mod roster;
