use convolver::colormode::{Clamp, ColorValue, Hsla, Luva, Rgba, STEPS};
use convolver::function::Function;
use convolver::kernel_spec::Aggregation;
use convolver::matrix::Matrix;
use convolver::neighbors::{Neighbors, Pos};
use convolver::weights::Weights;

const U: i32 = STEPS;

fn hsla(h: i32, s: i32, l: i32, a: i32) -> [Hsla; 4] {
    [Hsla(h), Hsla(s), Hsla(l), Hsla(a)]
}

fn luva(l: i32, u: i32, v: i32, a: i32) -> [Luva; 4] {
    [Luva(l), Luva(u), Luva(v), Luva(a)]
}

#[test]
fn steps_in_one() {
    assert_eq!(STEPS, 65536);
}

#[test]
fn hue_is_kept_within_half_a_turn() {
    assert_eq!(Hsla(200 * U).clamp(0), Hsla(180 * U));
    assert_eq!(Hsla(-200 * U).clamp(0), Hsla(-180 * U));
    assert_eq!(Hsla(180 * U).clamp(0), Hsla(180 * U));
    assert_eq!(Hsla(-180 * U).clamp(0), Hsla(-180 * U));
    assert_eq!(Hsla(33 * U + 7).clamp(0), Hsla(33 * U + 7));
    assert_eq!(Hsla(i32::MAX).clamp(0), Hsla(180 * U));
    assert_eq!(Hsla(i32::MIN).clamp(0), Hsla(-180 * U));
}

#[test]
fn saturation_and_lightness_are_kept_within_one() {
    for c in 1..3u8 {
        assert_eq!(Hsla(2 * U).clamp(c), Hsla(U));
        assert_eq!(Hsla(U + 1).clamp(c), Hsla(U));
        assert_eq!(Hsla(U).clamp(c), Hsla(U));
        assert_eq!(Hsla(U / 2).clamp(c), Hsla(U / 2));
        assert_eq!(Hsla(0).clamp(c), Hsla(0));
        assert_eq!(Hsla(-1).clamp(c), Hsla(0));
    }
}

#[test]
fn perceptual_channels_are_kept_within_their_ranges() {
    assert_eq!(Luva(101 * U).clamp(0), Luva(100 * U));
    assert_eq!(Luva(-1).clamp(0), Luva(0));
    assert_eq!(Luva(50 * U).clamp(0), Luva(50 * U));
    assert_eq!(Luva(177 * U).clamp(1), Luva(176 * U));
    assert_eq!(Luva(-85 * U).clamp(1), Luva(-84 * U));
    assert_eq!(Luva(-84 * U).clamp(1), Luva(-84 * U));
    assert_eq!(Luva(109 * U).clamp(2), Luva(108 * U));
    assert_eq!(Luva(-136 * U).clamp(2), Luva(-135 * U));
    assert_eq!(Luva(-100 * U).clamp(2), Luva(-100 * U));
}

#[test]
fn bytes_are_always_in_range() {
    for c in 0..3u8 {
        for v in [0u8, 1, 127, 254, 255] {
            assert_eq!(Rgba(v).clamp(c), Rgba(v));
        }
    }
}

#[test]
fn levels_are_read_and_built() {
    assert_eq!(Rgba(9).value(), 9);
    assert_eq!(Hsla(-7).value(), -7);
    assert_eq!(Luva(123456).value(), 123456);
    assert_eq!(Rgba::from_u8(200), Rgba(200));
    assert_eq!(Hsla::from_u8(1), Hsla(U));
    assert_eq!(Hsla::from_u8(255), Hsla(255 * U));
    assert_eq!(Luva::from_u8(0), Luva(0));
    assert_eq!(Luva::from_u8(100), Luva(100 * U));
    assert_eq!(Rgba::from_value(-1), Rgba(0));
    assert_eq!(Rgba::from_value(300), Rgba(255));
    assert_eq!(Rgba::from_value(42), Rgba(42));
    assert_eq!(Hsla::from_value(1 << 40), Hsla(i32::MAX));
    assert_eq!(Hsla::from_value(-(1 << 40)), Hsla(i32::MIN));
    assert_eq!(Hsla::from_value(-5), Hsla(-5));
    assert_eq!(Luva::from_value(i128::MAX), Luva(i32::MAX));
    assert_eq!(Luva::from_value(77), Luva(77));
}

#[test]
fn byte_operators() {
    assert_eq!(Rgba(3) + Rgba(4), Rgba(7));
    assert_eq!(Rgba(9) - Rgba(4), Rgba(5));
    assert_eq!(Rgba(5) * Rgba(51), Rgba(255));
    assert_eq!(Rgba(255) / Rgba(2), Rgba(127));
    assert_eq!(Rgba::from(8u8), Rgba(8));
    assert!(Rgba(3) < Rgba(4));
}

#[test]
fn new_buffers_are_zero_in_every_encoding() {
    let m: Matrix<Hsla> = Matrix::new(2, 2);
    assert!(m.data.iter().all(|p| *p == hsla(0, 0, 0, 0)));
    let m: Matrix<Luva> = Matrix::new(1, 3);
    assert_eq!(m.data.len(), 3);
    assert!(m.data.iter().all(|p| *p == luva(0, 0, 0, 0)));
}

#[test]
fn mean_of_negative_levels_rounds_to_nearest() {
    // hues -3, -3, -4 and six zeros: sum -10 over 9, (-10 + 4) / 9 rounded
    // down is -1
    let mut data = vec![hsla(0, 0, 0, 0); 9];
    data[0][0] = Hsla(-3);
    data[1][0] = Hsla(-3);
    data[2][0] = Hsla(-4);
    let w = Neighbors { size: 3, data };
    assert_eq!(w.blur()[0], Hsla(-1));
    // sum -14: (-14 + 4) / 9 rounded down is -2
    let mut data = vec![hsla(0, 0, 0, 0); 9];
    data[0][0] = Hsla(-14);
    let w = Neighbors { size: 3, data };
    assert_eq!(w.blur()[0], Hsla(-2));
    // sum -13: (-13 + 4) / 9 is exactly -1
    let mut data = vec![hsla(0, 0, 0, 0); 9];
    data[0][0] = Hsla(-13);
    let w = Neighbors { size: 3, data };
    assert_eq!(w.blur()[0], Hsla(-1));
}

#[test]
fn mean_of_extreme_levels() {
    let w = Neighbors { size: 3, data: vec![hsla(i32::MAX, i32::MIN, 0, 0); 9] };
    assert_eq!(w.blur(), hsla(i32::MAX, i32::MIN, 0, 0));
}

#[test]
fn order_statistics_of_signed_levels() {
    let hues = [-5, 7, -9, 0, 3, 3, -1, 8, 2];
    let w = Neighbors { size: 3, data: hues.iter().map(|&h| hsla(h, -h, 0, U)).collect() };
    assert_eq!(w.positional(Pos::Min), hsla(-9, -8, 0, U));
    assert_eq!(w.positional(Pos::Mid), hsla(2, -2, 0, U));
    assert_eq!(w.positional(Pos::Max), hsla(8, 9, 0, U));
}

#[test]
fn leave_and_inner_in_the_cylindrical_encoding() {
    let w = Neighbors { size: 1, data: vec![hsla(10, 20, 30, 40)] };
    assert_eq!(w.leave(0), hsla(10, 0, 0, 255 * U));
    assert_eq!(w.leave(2), hsla(0, 0, 30, 255 * U));
    assert_eq!(w.leave(3), hsla(0, 0, 0, 40));
    assert_eq!(w.inner(), hsla(0, 0, 0, 0));
    assert_eq!(w.none(), hsla(10, 20, 30, 40));
}

#[test]
fn weighted_sum_is_kept_within_each_channel() {
    let w = Neighbors { size: 1, data: vec![hsla(100 * U, U / 2, U / 4, U)] };
    let double = Weights { num: vec![2], den: 1 };
    // hue 200 degrees is cut to 180, saturation 1.0 stays, lightness 0.5 stays
    assert_eq!(w.kernel(&double), hsla(180 * U, U, U / 2, 255 * U));
    let negate = Weights { num: vec![-3], den: 1 };
    assert_eq!(w.kernel(&negate), hsla(-180 * U, 0, 0, 255 * U));
    let third = Weights { num: vec![1], den: 3 };
    assert_eq!(w.kernel(&third), hsla(2184533, 10922, 5461, 255 * U));
    let minus_third = Weights { num: vec![-1], den: 3 };
    // -100 * 65536 / 3 rounded down
    assert_eq!(w.kernel(&minus_third)[0], Hsla(-2184534));

    let p = Neighbors { size: 1, data: vec![luva(60 * U, -50 * U, 60 * U, U)] };
    assert_eq!(p.kernel(&double), luva(100 * U, -84 * U, 108 * U, 255 * U));
    assert_eq!(p.kernel(&negate), luva(0, 150 * U, -135 * U, 255 * U));
}

#[test]
fn uniform_buffer_in_the_perceptual_encoding() {
    let pixel = luva(50 * U, -10 * U, 20 * U, 255 * U);
    let kernels = vec![
        Function::Constant(3, Aggregation::Blur),
        Function::Constant(3, Aggregation::Identity),
        Function::Constant(3, Aggregation::Max),
        Function::Param(3, Weights { num: vec![1, 2, 1, 2, 4, 2, 1, 2, 1], den: 16 }),
    ];
    for kernel in kernels {
        let mut m: Matrix<Luva> = Matrix { rows: 4, cols: 4, data: vec![pixel; 16] };
        m.convolve(&kernel);
        assert!(m.data.iter().all(|p| *p == pixel));
    }
}

#[test]
fn pass_in_the_cylindrical_encoding() {
    let mut m: Matrix<Hsla> = Matrix::new(1, 3);
    m.set(0, 0, hsla(-90 * U, U, 0, U));
    m.set(0, 1, hsla(0, U, U, U));
    m.set(0, 2, hsla(90 * U, 0, U, U));
    m.convolve(&Function::Constant(3, Aggregation::Blur));
    // every window repeats the row three times; at the left edge the first
    // pixel counts twice in each row
    assert_eq!(m.data[1], hsla(0, 43691, 43691, U));
    assert_eq!(m.data[0][0], Hsla(-60 * U));
    assert_eq!(m.data[2][0], Hsla(60 * U));
}

#[test]
fn sum_in_the_cylindrical_encoding() {
    let a: Matrix<Hsla> = Matrix { rows: 1, cols: 2, data: vec![hsla(-30, 10, 3, U), hsla(7, 8, 9, 200 * U)] };
    let b: Matrix<Hsla> = Matrix { rows: 1, cols: 2, data: vec![hsla(10, 5, 4, U), hsla(1, 1, 2, 100 * U)] };
    let sum = Matrix::add(
        Matrix { rows: 1, cols: 2, data: a.data.clone() },
        Matrix { rows: 1, cols: 2, data: b.data.clone() },
        false,
    )
    .unwrap();
    assert_eq!(sum.data, vec![hsla(0, 15, 7, 2 * U), hsla(8, 9, 11, 255 * U)]);
    let mean = Matrix::add(a, b, true).unwrap();
    assert_eq!(mean.data, vec![hsla(0, 7, 3, U), hsla(4, 4, 5, 150 * U)]);
}
