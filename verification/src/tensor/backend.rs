//! The devices tensors can live on.

use vstd::prelude::*;

verus! {

/// A compute device: the CPU, or a GPU by index.
#[derive(Debug, Clone, Copy, PartialEq, Eq, Structural, Default)]
pub enum Device {
    #[default]
    Cpu,
    Cuda(usize),
    Metal(usize),
}

} // verus!
