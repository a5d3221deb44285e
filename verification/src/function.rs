//! Kernels and the reasons why one cannot be built.

use vstd::prelude::*;
use crate::kernel_spec::Aggregation;
use crate::weights::{Weights, MAX_SIZE};

verus! {

/// A kernel: the side of its window and what it computes from the window.
#[derive(Debug)]
pub enum Function {
    /// A fixed aggregation of the samples.
    Constant(usize, Aggregation),
    /// A weighted sum of the samples, one weight for each cell of the window.
    Param(usize, Weights),
}

/// Why a kernel could not be built.
#[derive(Debug, Clone, Copy, PartialEq, Eq, Structural)]
pub enum KernelError {
    /// The size is even or above `MAX_SIZE`.
    BadSize,
    /// The length of a motion line is malformed, zero or above the size.
    BadLength,
    /// The end of a motion line lies further from the centre than its length allows.
    EndpointOutOfReach,
    /// The number of samples is not size times size.
    SampleCount,
    /// The samples add up to zero.
    NoWeight,
    /// A weight does not fit in 64 bits.
    Overflow,
    /// The library has no entry at that index.
    UnknownEntry,
    /// The library's entry does not have size times size weights.
    SizeMismatch,
    /// A sigma or a scale is malformed, or a sigma is zero.
    BadNumber,
    /// The denominator of the weights is not above zero.
    BadWeights,
    /// The values handed over are not of the kind that the kernel needs.
    WrongSamples,
}

/// A side that a kernel can have: odd and at most `MAX_SIZE`.
pub open spec fn valid_size(size: usize) -> bool {
    size % 2 == 1 && size <= MAX_SIZE
}

/// Whether a kernel can have this side.
pub fn is_valid_size(size: usize) -> (b: bool)
    ensures
        b == valid_size(size),
{
    size % 2 == 1 && size <= MAX_SIZE
}

/// The area of a kernel of a valid size fits the machine.
pub proof fn lemma_area(size: usize)
    requires
        size <= MAX_SIZE,
    ensures
        size * size <= crate::weights::MAX_AREA,
        size * size <= usize::MAX,
{
    assert(size * size <= MAX_SIZE * MAX_SIZE) by (nonlinear_arith)
        requires
            size <= MAX_SIZE,
    ;
}

impl Function {
    /// The side of the kernel's window.
    pub open spec fn side(&self) -> usize {
        match self {
            Function::Constant(size, _) => *size,
            Function::Param(size, _) => *size,
        }
    }

    /// The size is valid, and a weighted kernel has one weight for each cell.
    pub open spec fn wf(&self) -> bool {
        &&& valid_size(self.side())
        &&& match self {
            Function::Constant(_, _) => true,
            Function::Param(size, weights) => weights.wf() && weights.num@.len() == *size * *size,
        }
    }

    /// Whether the size is valid and a weighted kernel has one weight for
    /// each cell.
    pub fn is_well_formed(&self) -> (b: bool)
        ensures
            b == self.wf(),
    {
        match self {
            Function::Constant(size, _) => is_valid_size(*size),
            Function::Param(size, weights) => {
                if !is_valid_size(*size) {
                    return false;
                }
                proof {
                    lemma_area(*size);
                }
                weights.is_well_formed() && weights.num.len() == *size * *size
            },
        }
    }

    /// The side of the kernel's window.
    pub fn size(&self) -> (r: usize)
        ensures
            r == self.side(),
    {
        match self {
            Function::Constant(size, _) => *size,
            Function::Param(size, _) => *size,
        }
    }

    /// The weights of a weighted kernel.
    pub fn param(self) -> (r: Option<Weights>)
        ensures
            r == match self {
                Function::Constant(_, _) => None::<Weights>,
                Function::Param(_, weights) => Some(weights),
            },
    {
        match self {
            Function::Param(_, weights) => Some(weights),
            _ => None,
        }
    }
}

} // verus!
