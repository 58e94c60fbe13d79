//! Scoring and encoding core of an autonomous version-control checkpoint agent.
use vstd::prelude::*;

pub mod agent;
pub mod bifm;
pub mod braider;
pub mod diff;
pub mod fitness;
pub mod fitness_analyzer;
pub mod fixed;
pub mod scl;
pub mod text;

verus! {

/// Scores are fixed-point numbers: this many units make 1.0.
pub const SCALE: u64 = 1_000_000;

} // verus!
