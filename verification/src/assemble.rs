//! Building a kernel from its description and the values it needs from
//! outside.

use vstd::prelude::*;
use crate::dog::dog_result;
use crate::emboss::emboss_result;
use crate::function::{is_valid_size, lemma_area, valid_size, Function, KernelError};
use crate::gauss::{gauss_blur_result, gauss_sharpen_result};
use crate::kernel_spec::{KernelSpec, Kind};
use crate::library::KernelLibrary;
use crate::motion::motion_result;

verus! {

/// What a kernel needs that the library cannot compute itself.
#[derive(Debug, Clone, Copy, PartialEq, Eq, Structural)]
pub enum Need {
    /// Nothing.
    Nothing,
    /// The cell in which the motion line ends.
    Endpoint,
    /// The profile of one Gaussian.
    Gauss,
    /// The profiles of two Gaussians.
    GaussPair,
}

/// The values that a kernel is built from besides its description.
#[derive(Debug)]
pub enum Samples {
    /// No values.
    Nothing,
    /// The cell `(x, y)` in which the motion line ends.
    Endpoint(i32, i32),
    /// The profile of the Gaussian: its value at every distance from the
    /// centre up to half the side of the kernel, on one scale.
    Gauss(Vec<u16>),
    /// The profiles of the two Gaussians, each on one scale.
    GaussPair(Vec<u16>, Vec<u16>),
}

impl Samples {
    /// The need that these values answer.
    pub open spec fn answers(&self) -> Need {
        match self {
            Samples::Nothing => Need::Nothing,
            Samples::Endpoint(_, _) => Need::Endpoint,
            Samples::Gauss(_) => Need::Gauss,
            Samples::GaussPair(_, _) => Need::GaussPair,
        }
    }
}

/// Why a kernel of the library cannot be used at side `size`, if it
/// cannot.
pub open spec fn named_error(size: usize, library: KernelLibrary, index: usize) -> Option<
    KernelError,
> {
    if !valid_size(size) {
        Some(KernelError::BadSize)
    } else if index >= library.entries@.len() {
        Some(KernelError::UnknownEntry)
    } else if library.entries@[index as int].weights.den <= 0 {
        Some(KernelError::BadWeights)
    } else if library.entries@[index as int].weights.num@.len() != size * size {
        Some(KernelError::SizeMismatch)
    } else {
        None
    }
}

/// What taking a kernel from the library gives: the entry's weights, or
/// the reason why there are none.
pub open spec fn named_result(
    size: usize,
    library: KernelLibrary,
    index: usize,
    r: Result<Function, KernelError>,
) -> bool {
    match r {
        Ok(f) => {
            &&& named_error(size, library, index) is None
            &&& f.wf()
            &&& f matches Function::Param(side, w)
            &&& side == size
            &&& w.num@ == library.entries@[index as int].weights.num@
            &&& w.den == library.entries@[index as int].weights.den
        },
        Err(e) => named_error(size, library, index) == Some(e),
    }
}

/// What building a kernel with a fixed aggregation gives.
pub open spec fn fixed_result(spec: KernelSpec, r: Result<Function, KernelError>) -> bool {
    match r {
        Ok(f) => {
            &&& valid_size(spec.size)
            &&& spec.kind matches Kind::Fixed(a)
            &&& f == Function::Constant(spec.size, a)
        },
        Err(e) => e == KernelError::BadSize && !valid_size(spec.size),
    }
}

/// What building the kernel that `spec` describes gives, from the values
/// in `samples`. Values of another kind than the one needed are refused.
pub open spec fn build_result(
    spec: KernelSpec,
    library: KernelLibrary,
    samples: Samples,
    r: Result<Function, KernelError>,
) -> bool {
    if samples.answers() != spec.need() {
        r == Err::<Function, KernelError>(KernelError::WrongSamples)
    } else {
        match spec.kind {
            Kind::Fixed(_) => fixed_result(spec, r),
            Kind::Motion(length, _) => {
                &&& samples matches Samples::Endpoint(x, y)
                &&& motion_result(spec.size, length, x, y, r)
            },
            Kind::GaussBlur(sigma) => {
                &&& samples matches Samples::Gauss(g)
                &&& gauss_blur_result(spec.size, sigma, g@, r)
            },
            Kind::GaussSharpen(sigma) => {
                &&& samples matches Samples::Gauss(g)
                &&& gauss_sharpen_result(spec.size, sigma, g@, r)
            },
            Kind::Dog(sigma1, sigma2, scale) => {
                &&& samples matches Samples::GaussPair(g1, g2)
                &&& dog_result(spec.size, g1@, g2@, sigma1, sigma2, scale, r)
            },
            Kind::Emboss(direction) => emboss_result(spec.size, direction, r),
            Kind::Named(index) => named_result(spec.size, library, index, r),
        }
    }
}

impl KernelSpec {
    /// What the kernel needs from outside the library.
    pub open spec fn need(&self) -> Need {
        match self.kind {
            Kind::Motion(_, _) => Need::Endpoint,
            Kind::GaussBlur(_) => Need::Gauss,
            Kind::GaussSharpen(_) => Need::Gauss,
            Kind::Dog(_, _, _) => Need::GaussPair,
            _ => Need::Nothing,
        }
    }

    /// What the kernel needs from outside the library.
    pub fn needs(&self) -> (n: Need)
        ensures
            n == self.need(),
    {
        match self.kind {
            Kind::Motion(_, _) => Need::Endpoint,
            Kind::GaussBlur(_) => Need::Gauss,
            Kind::GaussSharpen(_) => Need::Gauss,
            Kind::Dog(_, _, _) => Need::GaussPair,
            _ => Need::Nothing,
        }
    }
}

impl Function {
    /// The kernel of side `size` with the weights of entry `index` of the
    /// library.
    pub fn named(size: usize, library: &KernelLibrary, index: usize) -> (r: Result<
        Function,
        KernelError,
    >)
        ensures
            named_result(size, *library, index, r),
    {
        if !is_valid_size(size) {
            return Err(KernelError::BadSize);
        }
        proof {
            lemma_area(size);
        }
        if index >= library.entries.len() {
            return Err(KernelError::UnknownEntry);
        }
        let weights = &library.entries[index].weights;
        if weights.den <= 0 {
            return Err(KernelError::BadWeights);
        }
        if weights.num.len() != size * size {
            return Err(KernelError::SizeMismatch);
        }
        Ok(Function::Param(size, weights.duplicate()))
    }

    /// Builds the kernel that `spec` describes. A motion line takes the
    /// cell in which it ends, and a Gaussian kind the profiles of its
    /// Gaussians; the other kinds take nothing.
    pub fn build(spec: &KernelSpec, library: &KernelLibrary, samples: &Samples) -> (r: Result<
        Function,
        KernelError,
    >)
        ensures
            build_result(*spec, *library, *samples, r),
    {
        match (spec.kind, samples) {
            (Kind::Fixed(a), Samples::Nothing) => {
                if is_valid_size(spec.size) {
                    Ok(Function::Constant(spec.size, a))
                } else {
                    Err(KernelError::BadSize)
                }
            },
            (Kind::Motion(length, _), Samples::Endpoint(x, y)) => Function::motion_blur_function(
                spec.size,
                length,
                *x,
                *y,
            ),
            (Kind::GaussBlur(sigma), Samples::Gauss(g)) => Function::gauss_blur_function(
                spec.size,
                sigma,
                g,
            ),
            (Kind::GaussSharpen(sigma), Samples::Gauss(g)) => Function::gauss_sharpen_function(
                spec.size,
                sigma,
                g,
            ),
            (Kind::Dog(sigma1, sigma2, scale), Samples::GaussPair(g1, g2)) => {
                Function::generate_dog_kernel(spec.size, g1, g2, sigma1, sigma2, scale)
            },
            (Kind::Emboss(direction), Samples::Nothing) => Function::emboss_function(
                spec.size,
                direction,
            ),
            (Kind::Named(index), Samples::Nothing) => Function::named(spec.size, library, index),
            _ => Err(KernelError::WrongSamples),
        }
    }
}

} // verus!
