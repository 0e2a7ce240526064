//! Predictions as explicit sums.
//!
//! A raw (pre-objective) prediction is `base_score` plus a sum of
//! products `factor * value`, all 32-bit floats carried as bit patterns.
//! The crate pins down exactly which terms contribute and in which
//! order; folding them into one float is left to the caller.

use vstd::prelude::*;

verus! {

/// One additive contribution: the product `factor * value`.  For a tree
/// ensemble, `value` is a leaf value and `factor` the tree's dropout
/// weight (1.0 when none); for a linear booster, `value` is a weight and
/// `factor` the feature value (1.0 for the bias row).
#[derive(Clone, Copy, PartialEq, Eq, Structural, Debug)]
pub struct Term {
    pub factor: u32,
    pub value: u32,
}

/// A raw prediction for one row and one output group: `base_score` plus
/// the sum of the products of `terms`, in order.
#[derive(Clone, PartialEq, Debug)]
pub struct Margin {
    pub base_score: u32,
    pub terms: Vec<Term>,
}

/// Row `r` of a flat row-major matrix with rows of `row_length` values.
pub open spec fn spec_row(feats: Seq<u32>, row_length: int, r: int) -> Seq<u32> {
    feats.subrange(r * row_length, (r + 1) * row_length)
}

} // verus!
