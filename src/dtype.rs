use vstd::prelude::*;

verus! {

/// The element types an array can hold.
#[derive(Clone, Copy, Debug, PartialEq, Eq, Structural)]
pub enum DType {
    F32,
    F64,
}

impl DType {
    /// Width of one element in bytes.
    pub open spec fn spec_width(self) -> usize {
        match self {
            DType::F32 => 4,
            DType::F64 => 8,
        }
    }

    /// Width of one element in bytes.
    pub fn width(&self) -> (r: usize)
        ensures
            r == self.spec_width(),
    {
        match self {
            DType::F32 => 4,
            DType::F64 => 8,
        }
    }
}

} // verus!
