//! Gaussian blur and sharpening kernels.

use vstd::prelude::*;
use vstd::arithmetic::div_mod::lemma_fundamental_div_mod_converse;
use crate::decimal::Decimal;
use crate::function::{is_valid_size, lemma_area, valid_size, Function, KernelError};
use crate::motion::distance;
use crate::neighbors::{center_index, lemma_center};
use crate::weights::{lemma_sum_update, sum_of, Weights, MAX_SIZE};

verus! {

/// The largest sum that the cells of a Gaussian kernel may have: half of
/// what fits in 64 bits, so that twice the sum still fits.
pub const MAX_GAUSS_TOTAL: i64 = 0x3fff_ffff_ffff_ffff;

/// The Gaussian at row or column `k` of a kernel of side `size`, read from
/// its profile: entry `d` of the profile is the Gaussian at distance `d`
/// from the centre.
pub open spec fn radial(profile: Seq<u16>, size: int, k: int) -> int {
    profile[distance(k, size / 2)] as int
}

/// The sum of the Gaussian over the first `upto` rows, or columns, of the
/// kernel.
pub open spec fn radial_total(profile: Seq<u16>, size: int, upto: int) -> int
    decreases upto,
{
    if upto <= 0 {
        0
    } else {
        radial_total(profile, size, upto - 1) + radial(profile, size, upto - 1)
    }
}

/// The Gaussian at cell `index` of the kernel: being isotropic, it is the
/// product of the Gaussian at the cell's row and at its column.
pub open spec fn gauss_cell(profile: Seq<u16>, size: int, index: int) -> int {
    radial(profile, size, index / size) * radial(profile, size, index % size)
}

/// The sum of the Gaussian over all cells of the kernel.
pub open spec fn gauss_total(profile: Seq<u16>, size: int) -> int {
    radial_total(profile, size, size) * radial_total(profile, size, size)
}

/// Why the profile of the Gaussian of the given sigma cannot become a
/// kernel of side `size`, if it cannot.
pub open spec fn gauss_error(size: usize, sigma: Decimal, profile: Seq<u16>) -> Option<
    KernelError,
> {
    if !valid_size(size) {
        Some(KernelError::BadSize)
    } else if !sigma.wf() || sigma.mantissa == 0 {
        Some(KernelError::BadNumber)
    } else if profile.len() != size / 2 + 1 {
        Some(KernelError::SampleCount)
    } else if gauss_total(profile, size as int) == 0 {
        Some(KernelError::NoWeight)
    } else if gauss_total(profile, size as int) > MAX_GAUSS_TOTAL {
        Some(KernelError::Overflow)
    } else {
        None
    }
}

/// `w` holds the Gaussian at every cell, divided by its sum over all
/// cells.
pub open spec fn is_gauss_blur(w: Weights, size: usize, profile: Seq<u16>) -> bool {
    &&& w.den == gauss_total(profile, size as int)
    &&& w.num@.len() == size * size
    &&& forall|i: int| 0 <= i < size * size ==> w.num@[i] == gauss_cell(profile, size as int, i)
}

/// `w` holds twice the identity kernel of side `size` less the Gaussian
/// divided by its sum.
pub open spec fn is_gauss_sharpen(w: Weights, size: usize, profile: Seq<u16>) -> bool {
    &&& w.den == gauss_total(profile, size as int)
    &&& w.num@.len() == size * size
    &&& forall|i: int|
        0 <= i < size * size ==> w.num@[i] == (if i == center_index(size as int) {
            2 * gauss_total(profile, size as int)
        } else {
            0
        }) - gauss_cell(profile, size as int, i)
}

/// What building a Gaussian blur gives: the normalized Gaussian, or the
/// reason why there is none.
pub open spec fn gauss_blur_result(
    size: usize,
    sigma: Decimal,
    profile: Seq<u16>,
    r: Result<Function, KernelError>,
) -> bool {
    match r {
        Ok(f) => {
            &&& gauss_error(size, sigma, profile) is None
            &&& f.wf()
            &&& f matches Function::Param(side, w)
            &&& side == size
            &&& is_gauss_blur(w, size, profile)
            &&& w.unit_sum()
        },
        Err(e) => gauss_error(size, sigma, profile) == Some(e),
    }
}

/// What building a Gaussian sharpening gives: twice the identity less
/// the blur, or the reason why there is none.
pub open spec fn gauss_sharpen_result(
    size: usize,
    sigma: Decimal,
    profile: Seq<u16>,
    r: Result<Function, KernelError>,
) -> bool {
    match r {
        Ok(f) => {
            &&& gauss_error(size, sigma, profile) is None
            &&& f.wf()
            &&& f matches Function::Param(side, w)
            &&& side == size
            &&& is_gauss_sharpen(w, size, profile)
            &&& w.unit_sum()
        },
        Err(e) => gauss_error(size, sigma, profile) == Some(e),
    }
}

/// The gauss-sharpen weights are twice the identity less the gauss-blur
/// weights of the same Gaussian: over the same denominator, the numerator of
/// every cell but the centre is the blur's numerator negated, and the
/// centre's is twice the denominator less the blur's.
pub proof fn lemma_sharpen_from_blur(
    blur: Weights,
    sharpen: Weights,
    size: usize,
    profile: Seq<u16>,
)
    requires
        is_gauss_blur(blur, size, profile),
        is_gauss_sharpen(sharpen, size, profile),
    ensures
        sharpen.den == blur.den,
        sharpen.num@.len() == blur.num@.len(),
        forall|i: int|
            0 <= i < blur.num@.len() ==> sharpen.num@[i] == (if i == center_index(size as int) {
                2 * blur.den
            } else {
                0
            }) - blur.num@[i],
{
}

/// The Gaussian is symmetric about the centre of the kernel, along rows and
/// along columns.
pub proof fn lemma_gauss_symmetric(profile: Seq<u16>, size: int, row: int, col: int)
    requires
        size >= 1,
        size % 2 == 1,
        0 <= row < size,
        0 <= col < size,
    ensures
        gauss_cell(profile, size, row * size + col) == gauss_cell(
            profile,
            size,
            (size - 1 - row) * size + col,
        ),
        gauss_cell(profile, size, row * size + col) == gauss_cell(
            profile,
            size,
            row * size + (size - 1 - col),
        ),
        gauss_cell(profile, size, row * size + col) == gauss_cell(profile, size, col * size + row),
{
    lemma_fundamental_div_mod_converse(row * size + col, size, row, col);
    lemma_fundamental_div_mod_converse((size - 1 - row) * size + col, size, size - 1 - row, col);
    lemma_fundamental_div_mod_converse(row * size + (size - 1 - col), size, row, size - 1 - col);
    lemma_fundamental_div_mod_converse(col * size + row, size, col, row);
    let a = radial(profile, size, row);
    let b = radial(profile, size, col);
    assert(a * b == b * a) by (nonlinear_arith);
}

/// The sum over the first `upto` rows is at most 65535 for each row.
proof fn lemma_radial_total_bound(profile: Seq<u16>, size: int, upto: int)
    requires
        0 <= upto,
    ensures
        0 <= radial_total(profile, size, upto) <= 65535 * upto,
    decreases upto,
{
    if upto > 0 {
        lemma_radial_total_bound(profile, size, upto - 1);
    }
}

/// The Gaussian at one row or column of the kernel.
pub fn radial_at(profile: &Vec<u16>, size: usize, k: usize) -> (r: i64)
    requires
        valid_size(size),
        profile@.len() == size / 2 + 1,
        k < size,
    ensures
        r == radial(profile@, size as int, k as int),
        0 <= r <= 65535,
{
    let c: usize = size / 2;
    if k <= c {
        profile[c - k] as i64
    } else {
        profile[k - c] as i64
    }
}

/// The sum of the Gaussian over the rows of the kernel.
pub fn radial_sum(profile: &Vec<u16>, size: usize) -> (t: i64)
    requires
        valid_size(size),
        profile@.len() == size / 2 + 1,
    ensures
        t == radial_total(profile@, size as int, size as int),
        0 <= t <= 65535 * MAX_SIZE,
{
    let mut t: i64 = 0;
    let mut k: usize = 0;
    while k < size
        invariant
            valid_size(size),
            profile@.len() == size / 2 + 1,
            k <= size,
            t == radial_total(profile@, size as int, k as int),
            0 <= t <= 65535 * k,
        decreases size - k,
    {
        t = t + radial_at(profile, size, k);
        k += 1;
    }
    t
}

/// The Gaussian at every cell of the kernel, row by row, each cell with
/// the given sign.
fn cells(profile: &Vec<u16>, size: usize, total: i64, negate: bool) -> (num: Vec<i64>)
    requires
        valid_size(size),
        profile@.len() == size / 2 + 1,
        total == radial_total(profile@, size as int, size as int),
    ensures
        num@.len() == size * size,
        forall|i: int|
            0 <= i < size * size ==> num@[i] == if negate {
                -gauss_cell(profile@, size as int, i)
            } else {
                gauss_cell(profile@, size as int, i)
            },
        sum_of(num@) == if negate {
            -gauss_total(profile@, size as int)
        } else {
            gauss_total(profile@, size as int)
        },
{
    proof {
        lemma_area(size);
    }
    let area: usize = size * size;
    let mut num: Vec<i64> = Vec::new();
    let mut row: usize = 0;
    let mut col: usize = 0;
    let ghost sign: int = if negate {
        -1
    } else {
        1
    };
    assert(total * 0 == 0);
    while num.len() < area
        invariant
            valid_size(size),
            profile@.len() == size / 2 + 1,
            total == radial_total(profile@, size as int, size as int),
            area == size * size,
            sign == if negate { -1int } else { 1int },
            col < size,
            row <= size,
            num@.len() == row * size + col,
            num@.len() <= area,
            forall|i: int|
                0 <= i < num@.len() ==> num@[i] == sign * gauss_cell(profile@, size as int, i),
            sum_of(num@) == sign * (total * radial_total(profile@, size as int, row as int)
                + radial(profile@, size as int, row as int) * radial_total(
                profile@,
                size as int,
                col as int,
            )),
        decreases area - num@.len(),
    {
        proof {
            let index = num@.len() as int;
            assert(row < size) by (nonlinear_arith)
                requires
                    row * size + col < size * size,
                    0 <= col,
                    0 <= row <= size,
            ;
            lemma_fundamental_div_mod_converse(index, size as int, row as int, col as int);
        }
        let ghost before = num@;
        let ghost row_before = row;
        let ghost col_before = col;
        let a: i64 = radial_at(profile, size, row);
        let b: i64 = radial_at(profile, size, col);
        assert(0 <= a * b <= 65535 * 65535) by (nonlinear_arith)
            requires
                0 <= a <= 65535,
                0 <= b <= 65535,
        ;
        let cell: i64 = a * b;
        num.push(if negate {
            -cell
        } else {
            cell
        });
        col += 1;
        if col == size {
            col = 0;
            row += 1;
        }
        proof {
            assert(num@.drop_last() =~= before);
            let s = size as int;
            let p = profile@;
            let t_row = radial_total(p, s, row_before as int);
            let t_col = radial_total(p, s, col_before as int);
            assert(a * (t_col + b) == a * t_col + a * b) by (nonlinear_arith);
            assert(total * (t_row + a) == total * t_row + total * a) by (nonlinear_arith);
            assert(sign * (total * t_row + a * t_col) + sign * (a * b) == sign * (total * t_row + (a
                * t_col + a * b))) by (nonlinear_arith);
            if col == 0 {
                assert(t_col + b == total);
                assert(a * total == total * a) by (nonlinear_arith);
                assert(radial(p, s, row as int) * radial_total(p, s, 0) == 0) by (nonlinear_arith)
                    requires
                        radial_total(p, s, 0) == 0,
                ;
            }
            assert(num@.len() == row * size + col) by (nonlinear_arith)
                requires
                    num@.len() == row_before * size + col_before + 1,
                    (row == row_before && col == col_before + 1) || (row == row_before + 1 && col
                        == 0 && col_before + 1 == size),
            ;
        }
    }
    proof {
        assert(row == size) by (nonlinear_arith)
            requires
                row * size + col == size * size,
                col < size,
                row <= size,
                size >= 1,
        ;
        let s = size as int;
        assert(radial(profile@, s, s) * radial_total(profile@, s, 0) == 0) by (nonlinear_arith)
            requires
                radial_total(profile@, s, 0) == 0,
        ;
    }
    num
}

impl Function {
    /// The sum of the Gaussian over all cells of a kernel of side `size`,
    /// where a kernel can be built from the profile.
    fn gauss_sum(size: usize, sigma: Decimal, profile: &Vec<u16>) -> (r: Result<
        (i64, i64),
        KernelError,
    >)
        ensures
            match r {
                Ok(t) => {
                    &&& gauss_error(size, sigma, profile@) is None
                    &&& t.0 == radial_total(profile@, size as int, size as int)
                    &&& t.1 == gauss_total(profile@, size as int)
                    &&& 1 <= t.1 <= MAX_GAUSS_TOTAL
                },
                Err(e) => gauss_error(size, sigma, profile@) == Some(e),
            },
    {
        if !is_valid_size(size) {
            return Err(KernelError::BadSize);
        }
        if !sigma.is_valid() || sigma.mantissa == 0 {
            return Err(KernelError::BadNumber);
        }
        if profile.len() != size / 2 + 1 {
            return Err(KernelError::SampleCount);
        }
        let t: i64 = radial_sum(profile, size);
        assert(0 <= t * t <= (65535 * MAX_SIZE) * (65535 * MAX_SIZE)) by (nonlinear_arith)
            requires
                0 <= t <= 65535 * MAX_SIZE,
        ;
        let total: i128 = t as i128 * t as i128;
        if total == 0 {
            return Err(KernelError::NoWeight);
        }
        if total > MAX_GAUSS_TOTAL as i128 {
            return Err(KernelError::Overflow);
        }
        Ok((t, total as i64))
    }

    /// The Gaussian blur kernel of side `size` from the profile of the
    /// Gaussian of the given sigma, which must be above zero. Entry `d` of
    /// the profile is the Gaussian at distance `d` from the centre, for every
    /// distance up to half the side, all on one scale. Each weight is the
    /// Gaussian at its cell divided by the sum over all cells, so the
    /// weights add up to exactly one.
    pub fn gauss_blur_function(size: usize, sigma: Decimal, profile: &Vec<u16>) -> (r: Result<
        Function,
        KernelError,
    >)
        ensures
            gauss_blur_result(size, sigma, profile@, r),
    {
        let (t, total) = match Function::gauss_sum(size, sigma, profile) {
            Ok(t) => t,
            Err(e) => {
                return Err(e);
            },
        };
        proof {
            lemma_area(size);
        }
        let num = cells(profile, size, t, false);
        Ok(Function::Param(size, Weights { num, den: total }))
    }

    /// The Gaussian sharpening kernel of side `size` from the profile of
    /// the Gaussian of the given sigma, which must be above zero: twice the
    /// identity less the Gaussian blur. Its weights add up to exactly one.
    pub fn gauss_sharpen_function(size: usize, sigma: Decimal, profile: &Vec<u16>) -> (r: Result<
        Function,
        KernelError,
    >)
        ensures
            gauss_sharpen_result(size, sigma, profile@, r),
    {
        let (t, total) = match Function::gauss_sum(size, sigma, profile) {
            Ok(t) => t,
            Err(e) => {
                return Err(e);
            },
        };
        proof {
            lemma_area(size);
            lemma_center(size as int);
        }
        let mut num = cells(profile, size, t, true);
        let center: usize = num.len() / 2;
        let focal: i64 = num[center];
        proof {
            lemma_sum_update(num@, center as int, (2 * total + focal) as i64);
            let c = gauss_cell(profile@, size as int, center as int);
            let a = radial(profile@, size as int, center as int / size as int);
            let b = radial(profile@, size as int, center as int % size as int);
            assert(0 <= a * b) by (nonlinear_arith)
                requires
                    0 <= a,
                    0 <= b,
            ;
        }
        num[center] = 2 * total + focal;
        Ok(Function::Param(size, Weights { num, den: total }))
    }
}

} // verus!
