use vstd::prelude::*;

verus! {

/// Provenance of a tensor: the operation that produced it and its operand handles.
/// `H` is the handle type of the tensor layer that records the graph.
#[derive(Clone, Debug)]
pub enum Op<H> {
    Add(H, H),
    Sub(H, H),
    Mul(H, H),
    Div(H, H),
    MatMul(H, H),
    ReLU(H),
    Exp(H),
    Sum(H, Vec<usize>),
    Transpose(H),
    /// A leaf tensor, produced by no operation.
    Leaf,
}

} // verus!
