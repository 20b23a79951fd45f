use vstd::prelude::*;

verus! {

/// What can go wrong when building or combining sketches.
#[derive(Debug, Clone, Copy, PartialEq, Eq, Structural)]
pub enum SketchError {
    /// The error rate lies outside `(0, 1)`, or a precision lies outside
    /// the supported range.
    InvalidConfiguration,
    /// Two sketches built with different precisions cannot be combined.
    PrecisionMismatch,
}

} // verus!
