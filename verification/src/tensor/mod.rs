//! Tensor element types, compute devices and shape arithmetic.

use vstd::prelude::*;

pub mod backend;
pub mod shape;

verus! {

/// The element type of a tensor.
#[derive(Debug, Clone, Copy, PartialEq, Eq, Structural)]
pub enum DataType {
    Float32,
    Float16,
    Int32,
}

} // verus!
