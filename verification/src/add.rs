//! Combining two buffers of the same shape, pixel by pixel.

use vstd::prelude::*;
use crate::colormode::{clamp_int, opaque_level, pixel_of, ColorValue};
use crate::matrix::Matrix;
use crate::neighbors::floor_div;

verus! {

/// Why two buffers could not be combined.
#[derive(Debug, Clone, Copy, PartialEq, Eq, Structural)]
pub enum AddError {
    /// The two buffers differ in rows or in columns.
    ShapeMismatch,
}

/// The sum of two levels, or their average rounded down where `migrate` is
/// set, restricted to the range from zero to full opacity.
pub open spec fn added_level<T: ColorValue>(x: int, y: int, migrate: bool) -> int {
    clamp_int(
        if migrate {
            (x + y) / 2
        } else {
            x + y
        },
        0,
        opaque_level::<T>(),
    )
}

/// Two pixels combined, channel by channel.
pub open spec fn added_pixel<T: ColorValue>(a: [T; 4], b: [T; 4], migrate: bool) -> [T; 4] {
    pixel_of::<T>(
        added_level::<T>(a[0].level(), b[0].level(), migrate),
        added_level::<T>(a[1].level(), b[1].level(), migrate),
        added_level::<T>(a[2].level(), b[2].level(), migrate),
        added_level::<T>(a[3].level(), b[3].level(), migrate),
    )
}

/// Two channels combined.
fn add_level<T: ColorValue>(x: T, y: T, migrate: bool) -> (r: T)
    ensures
        r == T::of_level(added_level::<T>(x.level(), y.level(), migrate)),
{
    proof {
        T::lemma_level(x);
        T::lemma_level(y);
        T::lemma_bounds();
    }
    let sum: i128 = x.value() as i128 + y.value() as i128;
    let value: i128 = if migrate {
        floor_div(sum, 2)
    } else {
        sum
    };
    let top = T::from_u8(255);
    proof {
        T::lemma_of_level(opaque_level::<T>());
    }
    let limit: i128 = top.value() as i128;
    if value < 0 {
        T::from_value(0)
    } else if value > limit {
        top
    } else {
        T::from_value(value)
    }
}

impl<T: ColorValue> Matrix<T> {
    /// Combines two buffers of the same shape, pixel by pixel: the sum of
    /// each channel, or the average where `migrate` is set, restricted to
    /// the range from zero to full opacity. Buffers of different shapes are
    /// rejected.
    pub fn add(a: Matrix<T>, b: Matrix<T>, migrate: bool) -> (r: Result<Matrix<T>, AddError>)
        requires
            a.wf(),
            b.wf(),
        ensures
            match r {
                Ok(m) => {
                    &&& a.rows == b.rows
                    &&& a.cols == b.cols
                    &&& m.wf()
                    &&& m.rows == a.rows
                    &&& m.cols == a.cols
                    &&& forall|i: int|
                        0 <= i < m.data@.len() ==> m.data@[i] == added_pixel(
                            a.data@[i],
                            b.data@[i],
                            migrate,
                        )
                },
                Err(e) => e == AddError::ShapeMismatch && (a.rows != b.rows || a.cols != b.cols),
            },
    {
        if a.rows != b.rows || a.cols != b.cols {
            return Err(AddError::ShapeMismatch);
        }
        let n: usize = a.data.len();
        let mut data: Vec<[T; 4]> = Vec::new();
        let mut i: usize = 0;
        while i < n
            invariant
                i <= n,
                n == a.data@.len(),
                n == b.data@.len(),
                data@.len() == i,
                forall|k: int|
                    0 <= k < i ==> data@[k] == added_pixel(a.data@[k], b.data@[k], migrate),
            decreases n - i,
        {
            let p = a.data[i];
            let q = b.data[i];
            let pixel = [
                add_level(p[0], q[0], migrate),
                add_level(p[1], q[1], migrate),
                add_level(p[2], q[2], migrate),
                add_level(p[3], q[3], migrate),
            ];
            assert(pixel =~= added_pixel(p, q, migrate));
            data.push(pixel);
            i += 1;
        }
        Ok(Matrix { rows: a.rows, cols: a.cols, data })
    }
}

} // verus!
