//! Hansen solubility parameters in exact arithmetic: solvents as points with
//! rational coordinates, their weighted blends, the squared distance
//! between two of them (the R-value), and a grid search for the blend of
//! three solvents that comes closest to a target.
//!
//! Every number is an exact fraction in lowest terms. Contracts are stated
//! over the real numbers that the fractions stand for, so they say what the
//! formulas say, with no rounding.

pub mod gcd;
pub mod ratio;
pub mod solvent;
mod hundredths;
pub mod search;
