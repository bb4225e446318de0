//! The robustness suite: what decides, counts and orders in it.
//!
//! The statistics themselves are floating-point numbers. They enter here as what the decisions depend
//! on: keys that order them, and the outcomes of comparisons.

pub mod basis;
pub mod combinatorics;
pub mod cpcv;
pub mod ic;
pub mod nulls;
pub mod pbo;
pub mod spa;
pub mod steer;

use vstd::prelude::*;

verus! {

/// Why a series could not be assessed.
#[derive(Debug, Clone, Copy, PartialEq, Eq, Structural)]
pub enum ValidationError {
    /// The number of blocks must be even and at least two.
    OddBlockCount(usize),
    /// There are no rows, or fewer rows than blocks.
    EmptyMatrix,
}

} // verus!
