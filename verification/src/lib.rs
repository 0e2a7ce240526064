//! Reader and evaluator for gradient-boosted-tree models in the xgboost
//! binary serialization format.
//!
//! The crate decodes a model stream (header, objective and booster names,
//! then the booster body) into immutable structures, and evaluates the
//! resulting model against feature vectors.  Floating-point values are
//! carried everywhere as their IEEE-754 single-precision bit patterns
//! (`u32`): decoding, tree traversal, group partitioning and term
//! selection are all verified on those bit patterns, and a prediction is
//! returned as an explicit list of weighted contributions whose final
//! floating-point folding is left to the (unverified) caller.

pub mod errors;
pub mod float_bits;
pub mod model_reader;
pub mod margin;
pub mod regtree;
pub mod gblinear;
pub mod gbtree;
pub mod functions;
pub mod grad_booster;
pub mod predictor;
pub mod text;

