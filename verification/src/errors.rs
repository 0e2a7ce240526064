//! Error taxonomy of the model reader and evaluator.

use vstd::prelude::*;

verus! {

/// Everything that can go wrong while decoding a model stream or while
/// evaluating a loaded model.  Decode-time errors abort the whole load:
/// no partially decoded model is ever returned.
#[derive(Debug, PartialEq)]
pub enum PredictError {
    /// Fewer bytes were available than a decode step required.
    TruncatedInput,
    /// A name string in the stream was not valid UTF-8.
    TextDecodeError,
    /// Unknown booster type tag, or an unimplemented header variant.
    UnsupportedModelType(String),
    /// Unknown objective function name.
    UnsupportedObjFunctionType(String),
    /// A prediction method was called on a model that cannot serve it
    /// (method name, detail).
    UnsupportedPredictionMethod(String, String),
    /// A node's split feature index exceeds the supplied feature vector.
    FeatureIndexOutOfRange,
    /// Structurally invalid tree data (negative node count, child index
    /// out of range, or a dropout weight vector of the wrong length).
    MalformedTree,
}

} // verus!
