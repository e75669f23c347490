//! Simulation of stochastic processes on fixed-point numbers.
use vstd::prelude::*;

pub mod abm;
pub mod fixed;

verus! {

/// Number of fixed-point units in one whole unit of a real quantity.
pub const UNIT: i64 = 1_000_000;

} // verus!
