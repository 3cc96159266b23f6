//! A dtype- and backend-polymorphic n-dimensional array core.
//!
//! Arrays are stored densely in row-major order. Element arithmetic is supplied by
//! the caller as closures, so every kernel here (elementwise maps, reductions,
//! matrix products, axis reversal) is verified once for any element type.
pub mod array;
pub mod backend;
pub mod dense;
pub mod dtype;
pub mod error;
pub mod laws;
pub mod operations;
pub mod shape;

pub use array::{CpuArray, Element};
pub use backend::{Backend, BackendData};
pub use dense::Dense;
pub use dtype::DType;
pub use error::ArrayError;
pub use operations::Op;
