//! Stencil convolution of raster images, verified.
//!
//! A kernel is read from a short text, built into exact weights, and applied
//! to every pixel of a buffer: each output pixel is computed from the window
//! of input pixels around it, with positions beyond an edge read from the
//! edge itself.
//!
//! Nothing in this crate computes in floating point. Kernel weights are
//! exact fractions over a common denominator, and the channels of a pixel
//! are whole numbers of steps. Where a kernel depends on a transcendental
//! function, the caller evaluates that function and hands over the result:
//! the cell in which a motion line ends, or the profile of a Gaussian.

pub mod add;
pub mod assemble;
pub mod colormode;
pub mod convolve;
pub mod decimal;
pub mod dog;
pub mod emboss;
pub mod function;
pub mod gauss;
pub mod kernel_spec;
pub mod library;
pub mod matrix;
pub mod matrix_rules;
pub mod messages;
pub mod motion;
pub mod neighbors;
pub mod order;
pub mod text;
pub mod weights;
