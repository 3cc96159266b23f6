use vstd::prelude::*;

verus! {

/// The single error kind an operation of this crate reports.
#[derive(Clone, Copy, Debug, PartialEq, Eq, Structural)]
pub enum ArrayError {
    /// Two operands have different element types.
    DTypeMismatch,
    /// Elementwise operands (or a copy source) differ in shape.
    ShapeMismatch,
    /// The inner dimensions of a matrix product disagree.
    DimMismatch,
    /// A matrix product on operands whose ranks are not both 1 or both 2.
    UnsupportedShape,
    /// A reduction axis is not below the rank.
    AxisOutOfRange,
    /// The operands live on different backends.
    BackendMismatch,
    /// The backend has no kernel for the operation.
    BackendUnsupported,
}

impl ArrayError {
    /// A human-readable description of the error.
    pub fn message(&self) -> (r: &'static str) {
        match self {
            ArrayError::DTypeMismatch => "operands have different element types",
            ArrayError::ShapeMismatch => "operands have different shapes",
            ArrayError::DimMismatch => "inner dimensions of the matrix product disagree",
            ArrayError::UnsupportedShape => "matrix product needs two rank-1 or two rank-2 operands",
            ArrayError::AxisOutOfRange => "reduction axis is not below the rank",
            ArrayError::BackendMismatch => "operands live on different backends",
            ArrayError::BackendUnsupported => "the backend has no kernel for this operation",
        }
    }
}

} // verus!
