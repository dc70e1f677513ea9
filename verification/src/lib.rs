//! Rational deduction: ratios of multisets of terms, multiplied by cancelling
//! the terms that meet in the middle.
//!
//! A ratio holds a top and a bottom, each a multiset of terms kept in order.
//! The product of two ratios cancels the bottom of the first against the top
//! of the second, one occurrence against one occurrence. Ratios can be read
//! from and written as trees, and trees can be substituted for the atoms of
//! their terms.
//!
//! Terms are compared by a function `eq` that the caller hands in, or by
//! their native equality. A contract speaks of such a function through any
//! relation `rel` that it decides: where every answer of `eq` is the answer
//! of `rel`, the result is the one that the model in [`residue`] gives for
//! `rel`. The relation need be neither symmetric nor transitive; where it is
//! an equivalence, [`counting`] shows that what is left are the differences
//! of the two multisets.

pub mod counting;
pub mod expr;
pub mod pair;
pub mod residue;
pub mod util;

pub use crate::pair::{Ratio, RatioPair, RatioPairRef, Terms};
