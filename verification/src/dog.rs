//! The difference-of-Gaussians kernel.

use vstd::prelude::*;
use crate::decimal::{
    lemma_pow10_grows, lemma_pow10_split, lemma_pow10_values, ten_to, Decimal, MAX_DIGITS,
};
use crate::function::{is_valid_size, lemma_area, valid_size, Function, KernelError};
use crate::gauss::{gauss_cell, gauss_total, radial_at, radial_sum};
use crate::text::pow10;
use crate::weights::Weights;

verus! {

/// The number fits in 64 bits with a sign.
pub open spec fn fits(x: int) -> bool {
    i64::MIN <= x <= i64::MAX
}

/// The factor by which a difference of Gaussians is scaled, as numerator
/// and denominator: the scale where one above zero is given, and otherwise
/// 16 less the difference of the two sigmas.
pub open spec fn dog_scale(sigma1: Decimal, sigma2: Decimal, scale: Option<Decimal>) -> (int, int) {
    if scale is Some && scale->Some_0.mantissa != 0 {
        (scale->Some_0.mantissa as int, pow10(scale->Some_0.scale as nat) as int)
    } else {
        let unit = pow10((sigma1.scale + sigma2.scale) as nat);
        (
            16 * unit - sigma1.mantissa * pow10(sigma2.scale as nat) + sigma2.mantissa * pow10(
                sigma1.scale as nat,
            ),
            unit as int,
        )
    }
}

/// The number of steps into which a difference of Gaussians divides the
/// number one: 2 to the 32.
pub const DOG_UNIT: i64 = 0x1_0000_0000;

/// The share of cell `i` in the sum of the Gaussian over all cells, in
/// steps of one `DOG_UNIT`-th, rounded down.
pub open spec fn gauss_share(profile: Seq<u16>, size: int, i: int) -> int {
    gauss_cell(profile, size, i) * DOG_UNIT / gauss_total(profile, size)
}

/// The numerator of cell `i` of a difference of Gaussians: the share of the
/// first Gaussian less the share of the second, times the numerator of the
/// scale.
pub open spec fn dog_num(
    first: Seq<u16>,
    second: Seq<u16>,
    size: int,
    scale_num: int,
    i: int,
) -> int {
    (gauss_share(first, size, i) - gauss_share(second, size, i)) * scale_num
}

/// The denominator of a difference of Gaussians.
pub open spec fn dog_den(scale_den: int) -> int {
    DOG_UNIT * scale_den
}

/// Sigmas and scale are well-formed numbers, and the sigmas are above zero.
pub open spec fn dog_numbers_ok(sigma1: Decimal, sigma2: Decimal, scale: Option<Decimal>) -> bool {
    &&& sigma1.wf()
    &&& sigma2.wf()
    &&& sigma1.mantissa != 0
    &&& sigma2.mantissa != 0
    &&& scale is Some ==> scale->Some_0.wf()
}

/// Every weight of the difference of Gaussians fits in 64 bits.
pub open spec fn dog_fits(first: Seq<u16>, second: Seq<u16>, size: int, scale: (int, int)) -> bool {
    &&& fits(dog_den(scale.1))
    &&& forall|i: int|
        0 <= i < size * size ==> fits(#[trigger] dog_num(first, second, size, scale.0, i))
}

/// Why a difference of Gaussians cannot be built, if it cannot.
pub open spec fn dog_error(
    size: usize,
    first: Seq<u16>,
    second: Seq<u16>,
    sigma1: Decimal,
    sigma2: Decimal,
    scale: Option<Decimal>,
) -> Option<KernelError> {
    if !valid_size(size) {
        Some(KernelError::BadSize)
    } else if !dog_numbers_ok(sigma1, sigma2, scale) {
        Some(KernelError::BadNumber)
    } else if first.len() != size / 2 + 1 || second.len() != size / 2 + 1 {
        Some(KernelError::SampleCount)
    } else if gauss_total(first, size as int) == 0 || gauss_total(second, size as int) == 0 {
        Some(KernelError::NoWeight)
    } else if !dog_fits(first, second, size as int, dog_scale(sigma1, sigma2, scale)) {
        Some(KernelError::Overflow)
    } else {
        None
    }
}

/// `w` holds the difference of the two normalized Gaussians, scaled.
pub open spec fn is_dog(
    w: Weights,
    first: Seq<u16>,
    second: Seq<u16>,
    size: usize,
    scale: (int, int),
) -> bool {
    &&& w.den == dog_den(scale.1)
    &&& w.num@.len() == size * size
    &&& forall|i: int|
        0 <= i < size * size ==> w.num@[i] == dog_num(first, second, size as int, scale.0, i)
}

/// What building a difference of Gaussians gives: its weights, or the
/// reason why there are none.
pub open spec fn dog_result(
    size: usize,
    first: Seq<u16>,
    second: Seq<u16>,
    sigma1: Decimal,
    sigma2: Decimal,
    scale: Option<Decimal>,
    r: Result<Function, KernelError>,
) -> bool {
    match r {
        Ok(f) => {
            &&& dog_error(size, first, second, sigma1, sigma2, scale) is None
            &&& f.wf()
            &&& f matches Function::Param(side, w)
            &&& side == size
            &&& is_dog(w, first, second, size, dog_scale(sigma1, sigma2, scale))
        },
        Err(e) => dog_error(size, first, second, sigma1, sigma2, scale) == Some(e),
    }
}

/// A number beyond 2 to the 63 on either side stays outside 64 bits when
/// multiplied by anything but zero.
proof fn lemma_product_outgrows(large: int, other: int)
    requires
        large > 0x8000_0000_0000_0000 || large < -0x8000_0000_0000_0000,
        other != 0,
    ensures
        !fits(large * other),
{
    if large > 0 {
        if other > 0 {
            assert(large * other >= large) by (nonlinear_arith)
                requires
                    large > 0,
                    other >= 1,
            ;
        } else {
            assert(large * other <= -large) by (nonlinear_arith)
                requires
                    large > 0,
                    other <= -1,
            ;
        }
    } else {
        if other > 0 {
            assert(large * other <= large) by (nonlinear_arith)
                requires
                    large < 0,
                    other >= 1,
            ;
        } else {
            assert(large * other >= -large) by (nonlinear_arith)
                requires
                    large < 0,
                    other <= -1,
            ;
        }
    }
}

/// The product of two numbers, if it fits in 64 bits.
fn product_in_range(a: i128, b: i128) -> (r: Option<i64>)
    requires
        -0x1_0000_0000_0000_0000_0000_0000_0000_0000 < a < 0x1_0000_0000_0000_0000_0000_0000_0000_0000,
        -0x1_0000_0000_0000_0000_0000_0000_0000_0000 < b < 0x1_0000_0000_0000_0000_0000_0000_0000_0000,
    ensures
        r is Some <==> fits(a * b),
        r is Some ==> r->Some_0 == a * b,
{
    if a == 0 || b == 0 {
        assert(a * b == 0) by (nonlinear_arith)
            requires
                a == 0 || b == 0,
        ;
        return Some(0);
    }
    if a > 0x8000_0000_0000_0000 || a < -0x8000_0000_0000_0000 {
        proof {
            lemma_product_outgrows(a as int, b as int);
        }
        return None;
    }
    if b > 0x8000_0000_0000_0000 || b < -0x8000_0000_0000_0000 {
        proof {
            lemma_product_outgrows(b as int, a as int);
            assert(a * b == b * a) by (nonlinear_arith);
        }
        return None;
    }
    assert(-0x4000_0000_0000_0000_0000_0000_0000_0000 <= a * b
        <= 0x4000_0000_0000_0000_0000_0000_0000_0000) by (nonlinear_arith)
        requires
            -0x8000_0000_0000_0000 <= a <= 0x8000_0000_0000_0000,
            -0x8000_0000_0000_0000 <= b <= 0x8000_0000_0000_0000,
    ;
    let p: i128 = a * b;
    if p > i64::MAX as i128 || p < i64::MIN as i128 {
        None
    } else {
        Some(p as i64)
    }
}

/// The factor of the scale, as numerator and denominator, where the
/// denominator fits in 64 bits.
fn scale_of(sigma1: Decimal, sigma2: Decimal, scale: Option<Decimal>) -> (r: Option<(i128, i128)>)
    requires
        dog_numbers_ok(sigma1, sigma2, scale),
    ensures
        match r {
            Some(f) => {
                &&& (f.0 as int, f.1 as int) == dog_scale(sigma1, sigma2, scale)
                &&& 1 <= f.1 <= 1_000_000_000_000_000_000
                &&& -1_000_000_000_000_000_000_000_000_000_000_000_000 <= f.0
                    <= 1_000_000_000_000_000_000_000_000_000_000_000_000_000
            },
            None => dog_scale(sigma1, sigma2, scale).1 > i64::MAX,
        },
{
    proof {
        lemma_pow10_values();
    }
    match scale {
        Some(p) if p.mantissa != 0 => {
            let unit: u64 = ten_to(p.scale);
            Some((p.mantissa as i128, unit as i128))
        },
        _ => {
            let digits: u8 = sigma1.scale + sigma2.scale;
            if digits as usize > MAX_DIGITS {
                proof {
                    lemma_pow10_grows(19, digits as nat);
                    assert(pow10(19) == 10 * pow10(18)) by {
                        reveal_with_fuel(pow10, 2);
                    }
                }
                return None;
            }
            let unit: i128 = ten_to(digits) as i128;
            let unit1: i128 = ten_to(sigma1.scale) as i128;
            let unit2: i128 = ten_to(sigma2.scale) as i128;
            let m1: i128 = sigma1.mantissa as i128;
            let m2: i128 = sigma2.mantissa as i128;
            assert(0 <= m1 * unit2 <= 1_000_000_000_000_000_000 * 1_000_000_000_000_000_000 && 0
                <= m2 * unit1 <= 1_000_000_000_000_000_000 * 1_000_000_000_000_000_000)
                by (nonlinear_arith)
                requires
                    0 <= m1 <= 1_000_000_000_000_000_000,
                    0 <= m2 <= 1_000_000_000_000_000_000,
                    0 <= unit1 <= 1_000_000_000_000_000_000,
                    0 <= unit2 <= 1_000_000_000_000_000_000,
            ;
            Some((16 * unit - m1 * unit2 + m2 * unit1, unit))
        },
    }
}

impl Function {
    /// The difference-of-Gaussians kernel of side `size`, from the profiles
    /// of the two Gaussians: each Gaussian is divided by its sum over all
    /// cells, in steps of one `DOG_UNIT`-th, the second is taken from the
    /// first, cell by cell, and the difference is scaled. Without a scale, or
    /// with a scale of zero, the factor is 16 less the difference of the
    /// sigmas.
    pub fn generate_dog_kernel(
        size: usize,
        first: &Vec<u16>,
        second: &Vec<u16>,
        sigma1: Decimal,
        sigma2: Decimal,
        scale: Option<Decimal>,
    ) -> (r: Result<Function, KernelError>)
        ensures
            dog_result(size, first@, second@, sigma1, sigma2, scale, r),
    {
        if !is_valid_size(size) {
            return Err(KernelError::BadSize);
        }
        proof {
            lemma_area(size);
        }
        let scale_ok: bool = match scale {
            Some(p) => p.is_valid(),
            None => true,
        };
        if !sigma1.is_valid() || !sigma2.is_valid() || sigma1.mantissa == 0 || sigma2.mantissa == 0
            || !scale_ok {
            return Err(KernelError::BadNumber);
        }
        if first.len() != size / 2 + 1 || second.len() != size / 2 + 1 {
            return Err(KernelError::SampleCount);
        }
        let row1: i128 = radial_sum(first, size) as i128;
        let row2: i128 = radial_sum(second, size) as i128;
        assert(0 <= row1 * row1 <= 0x1_0000_0000_0000_0000 && 0 <= row2 * row2
            <= 0x1_0000_0000_0000_0000) by (nonlinear_arith)
            requires
                0 <= row1 <= 0x1_0000_0000,
                0 <= row2 <= 0x1_0000_0000,
        ;
        let total1: i128 = row1 * row1;
        let total2: i128 = row2 * row2;
        if total1 == 0 || total2 == 0 {
            return Err(KernelError::NoWeight);
        }
        let ghost factor = dog_scale(sigma1, sigma2, scale);
        let ghost s = size as int;
        proof {
            lemma_pow10_split((sigma1.scale + sigma2.scale) as nat, 0);
            if scale is Some {
                lemma_pow10_split(scale->Some_0.scale as nat, 0);
            }
            assert(factor.1 >= 1);
        }
        let (scale_num, scale_den) = match scale_of(sigma1, sigma2, scale) {
            Some(f) => f,
            None => {
                assert(dog_den(factor.1) >= factor.1) by (nonlinear_arith)
                    requires
                        dog_den(factor.1) == DOG_UNIT * factor.1,
                        factor.1 >= 1,
                        DOG_UNIT >= 1,
                ;
                return Err(KernelError::Overflow);
            },
        };
        let den: i64 = match product_in_range(DOG_UNIT as i128, scale_den) {
            Some(d) => d,
            None => {
                return Err(KernelError::Overflow);
            },
        };
        assert(den >= 1) by (nonlinear_arith)
            requires
                den == DOG_UNIT * scale_den,
                DOG_UNIT >= 1,
                scale_den >= 1,
        ;
        let area: usize = size * size;
        let mut num: Vec<i64> = Vec::new();
        let mut row: usize = 0;
        let mut col: usize = 0;
        while num.len() < area
            invariant
                valid_size(size),
                dog_numbers_ok(sigma1, sigma2, scale),
                first@.len() == size / 2 + 1,
                second@.len() == size / 2 + 1,
                s == size,
                area == size * size,
                total1 == gauss_total(first@, s),
                total2 == gauss_total(second@, s),
                1 <= total1 <= 0x1_0000_0000_0000_0000,
                1 <= total2 <= 0x1_0000_0000_0000_0000,
                factor == dog_scale(sigma1, sigma2, scale),
                scale_num == factor.0,
                -1_000_000_000_000_000_000_000_000_000_000_000_000 <= scale_num
                    <= 1_000_000_000_000_000_000_000_000_000_000_000_000_000,
                col < size,
                row <= size,
                num@.len() == row * size + col,
                num@.len() <= area,
                forall|k: int|
                    0 <= k < num@.len() ==> num@[k] == dog_num(first@, second@, s, factor.0, k),
            decreases area - num@.len(),
        {
            proof {
                let index = num@.len() as int;
                assert(row < size) by (nonlinear_arith)
                    requires
                        row * size + col < size * size,
                        0 <= col,
                        0 <= row <= size,
                ;
                vstd::arithmetic::div_mod::lemma_fundamental_div_mod_converse(
                    index,
                    s,
                    row as int,
                    col as int,
                );
            }
            let ghost row_before = row;
            let ghost col_before = col;
            let share1: i128 = share(radial_at(first, size, row), radial_at(first, size, col), total1);
            let share2: i128 = share(
                radial_at(second, size, row),
                radial_at(second, size, col),
                total2,
            );
            match product_in_range(share1 - share2, scale_num) {
                Some(weight) => {
                    num.push(weight);
                },
                None => {
                    assert(!fits(dog_num(first@, second@, s, factor.0, num@.len() as int)));
                    return Err(KernelError::Overflow);
                },
            }
            col += 1;
            if col == size {
                col = 0;
                row += 1;
            }
            assert(num@.len() == row * size + col) by (nonlinear_arith)
                requires
                    num@.len() == row_before * size + col_before + 1,
                    (row == row_before && col == col_before + 1) || (row == row_before + 1 && col
                        == 0 && col_before + 1 == size),
            ;
        }
        proof {
            assert forall|k: int| 0 <= k < size * size implies fits(
                #[trigger] dog_num(first@, second@, s, factor.0, k),
            ) by {
                assert(num@[k] == dog_num(first@, second@, s, factor.0, k));
            }
            assert(den == dog_den(factor.1));
            assert(dog_fits(first@, second@, s, factor));
        }
        Ok(Function::Param(size, Weights { num, den }))
    }
}

/// The share of a cell in a total, in steps of one `DOG_UNIT`-th: the cell
/// is the product of the Gaussian at its row and at its column.
fn share(at_row: i64, at_col: i64, total: i128) -> (r: i128)
    requires
        0 <= at_row <= 65535,
        0 <= at_col <= 65535,
        1 <= total,
    ensures
        r == at_row * at_col * DOG_UNIT / (total as int),
        0 <= r <= 0x1_0000_0000_0000_0000,
{
    assert(0 <= at_row * at_col <= 0x1_0000_0000) by (nonlinear_arith)
        requires
            0 <= at_row <= 65535,
            0 <= at_col <= 65535,
    ;
    let cell: i128 = at_row as i128 * at_col as i128;
    assert(0 <= cell * DOG_UNIT <= 0x1_0000_0000_0000_0000) by (nonlinear_arith)
        requires
            0 <= cell <= 0x1_0000_0000,
            DOG_UNIT == 0x1_0000_0000,
    ;
    let scaled: i128 = cell * DOG_UNIT as i128;
    assert(0 <= scaled as int / total as int <= scaled) by (nonlinear_arith)
        requires
            0 <= scaled,
            1 <= total,
    ;
    scaled / total
}

} // verus!
