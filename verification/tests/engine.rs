use convolver::add::AddError;
use convolver::colormode::{Clamp, Rgba};
use convolver::function::Function;
use convolver::kernel_spec::Aggregation;
use convolver::library::KernelLibrary;
use convolver::matrix::Matrix;
use convolver::matrix_rules::conways_rule;
use convolver::neighbors::{Neighbors, Pos};
use convolver::weights::Weights;

fn px(r: u8, g: u8, b: u8, a: u8) -> [Rgba; 4] {
    [Rgba(r), Rgba(g), Rgba(b), Rgba(a)]
}

fn whole(n: u64) -> convolver::decimal::Decimal {
    convolver::decimal::Decimal { mantissa: n, scale: 0 }
}

fn grey(v: u8) -> [Rgba; 4] {
    px(v, v, v, v)
}

// A buffer whose pixel at (row, col) has the value 10 * row + col in
// every channel.
fn ramp(rows: usize, cols: usize) -> Matrix<Rgba> {
    let mut m = Matrix::new(rows, cols);
    for r in 0..rows {
        for c in 0..cols {
            m.set(r, c, grey((10 * r + c) as u8));
        }
    }
    m
}

fn levels(window: &Neighbors<Rgba>) -> Vec<u8> {
    window.data.iter().map(|p| p[0].0).collect()
}

#[test]
fn new_buffer_is_zero() {
    let m: Matrix<Rgba> = Matrix::new(3, 4);
    assert_eq!(m.rows, 3);
    assert_eq!(m.cols, 4);
    assert_eq!(m.data.len(), 12);
    assert!(m.data.iter().all(|p| *p == grey(0)));
    let empty: Matrix<Rgba> = Matrix::new(0, 7);
    assert_eq!(empty.data.len(), 0);
}

#[test]
fn set_then_get() {
    let mut m = Matrix::new(3, 4);
    m.set(1, 2, px(1, 2, 3, 4));
    assert_eq!(m.get(1, 2), px(1, 2, 3, 4));
    assert_eq!(m.pixel(1, 2), px(1, 2, 3, 4));
    assert_eq!(m.data[6], px(1, 2, 3, 4));
    assert_eq!(m.get(0, 0), grey(0));
    assert_eq!(m.get(2, 3), grey(0));
    assert_eq!(m.data.iter().filter(|p| **p != grey(0)).count(), 1);
}

#[test]
fn clamp_keeps_a_channel_in_range() {
    for c in 0..3u8 {
        assert_eq!(Rgba(0).clamp(c), Rgba(0));
        assert_eq!(Rgba(200).clamp(c), Rgba(200));
        assert_eq!(Rgba(255).clamp(c), Rgba(255));
    }
    assert_eq!(Rgba::saturate(-5), Rgba(0));
    assert_eq!(Rgba::saturate(0), Rgba(0));
    assert_eq!(Rgba::saturate(77), Rgba(77));
    assert_eq!(Rgba::saturate(255), Rgba(255));
    assert_eq!(Rgba::saturate(256), Rgba(255));
    assert_eq!(Rgba::saturate(i128::MAX), Rgba(255));
    assert_eq!(Rgba::saturate(i128::MIN), Rgba(0));
}

#[test]
fn window_in_the_middle() {
    let m = ramp(4, 5);
    let w = m.window(1, 2, 3);
    assert_eq!(w.size, 3);
    assert_eq!(levels(&w), vec![1, 2, 3, 11, 12, 13, 21, 22, 23]);
    assert_eq!(w.none(), grey(12));
}

#[test]
fn window_at_the_edges_repeats_the_border() {
    let m = ramp(4, 5);
    assert_eq!(levels(&m.window(0, 0, 3)), vec![0, 0, 1, 0, 0, 1, 10, 10, 11]);
    assert_eq!(levels(&m.window(3, 4, 3)), vec![23, 24, 24, 33, 34, 34, 33, 34, 34]);
    assert_eq!(levels(&m.window(0, 4, 3)), vec![3, 4, 4, 3, 4, 4, 13, 14, 14]);
    let w = m.window(0, 0, 5);
    assert_eq!(
        levels(&w),
        vec![
            0, 0, 0, 1, 2, 0, 0, 0, 1, 2, 0, 0, 0, 1, 2, 10, 10, 10, 11, 12, 20, 20, 20, 21, 22
        ]
    );
    assert_eq!(w.none(), grey(0));
}

#[test]
fn window_wider_than_the_buffer() {
    let mut one = Matrix::new(1, 1);
    one.set(0, 0, grey(9));
    let w = one.window(0, 0, 7);
    assert_eq!(w.data.len(), 49);
    assert!(w.data.iter().all(|p| *p == grey(9)));

    let strip = ramp(1, 3);
    assert_eq!(levels(&strip.window(0, 1, 3)), vec![0, 1, 2, 0, 1, 2, 0, 1, 2]);
    let column = ramp(3, 1);
    assert_eq!(levels(&column.window(1, 0, 3)), vec![0, 0, 0, 10, 10, 10, 20, 20, 20]);
}

#[test]
fn identity_pass_changes_nothing() {
    for size in [1usize, 3, 5] {
        let mut m = ramp(4, 5);
        m.convolve(&Function::Constant(size, Aggregation::Identity));
        let again = ramp(4, 5);
        assert_eq!(m.rows, 4);
        assert_eq!(m.cols, 5);
        assert_eq!(m.data, again.data);
    }
}

#[test]
fn pass_over_an_empty_buffer() {
    let mut m: Matrix<Rgba> = Matrix::new(0, 3);
    m.convolve(&Function::Constant(3, Aggregation::Blur));
    assert_eq!(m.data.len(), 0);
    assert_eq!(m.rows, 0);
    assert_eq!(m.cols, 3);
}

#[test]
fn uniform_buffer_is_reproduced() {
    let uniform = || {
        let mut m = Matrix::new(4, 4);
        for r in 0..4 {
            for c in 0..4 {
                m.set(r, c, px(10, 20, 30, 255));
            }
        }
        m
    };
    let mut kernels = vec![
        Function::Constant(1, Aggregation::Blur),
        Function::Constant(3, Aggregation::Blur),
        Function::Constant(5, Aggregation::Blur),
        Function::Constant(3, Aggregation::Median),
        Function::Param(3, Weights { num: vec![1, 2, 1, 2, 4, 2, 1, 2, 1], den: 16 }),
        Function::gauss_sharpen_function(3, whole(1), &vec![2, 1]).unwrap(),
        Function::gauss_blur_function(5, whole(1), &vec![9, 4, 1]).unwrap(),
        Function::motion_blur_function(
            5,
            convolver::decimal::Decimal { mantissa: 5, scale: 0 },
            7,
            2,
        )
        .unwrap(),
    ];
    kernels.push(Function::named(3, &KernelLibrary::standard(), 28).unwrap());
    for kernel in kernels {
        let mut m = uniform();
        m.convolve(&kernel);
        assert_eq!(m.data.len(), 16);
        assert!(m.data.iter().all(|p| *p == px(10, 20, 30, 255)));
    }
}

#[test]
fn blur_pass_reads_the_old_buffer_only() {
    // A single bright pixel in a 3 by 3 buffer: each output pixel is the
    // mean of its own clamped window of the input.
    let mut m = Matrix::new(3, 3);
    m.set(1, 1, grey(90));
    m.convolve(&Function::Constant(3, Aggregation::Blur));
    assert!(m.data.iter().all(|p| *p == grey(10)));

    let mut m = Matrix::new(3, 3);
    m.set(0, 0, grey(90));
    m.convolve(&Function::Constant(3, Aggregation::Blur));
    let got: Vec<u8> = m.data.iter().map(|p| p[0].0).collect();
    assert_eq!(got, vec![40, 20, 0, 20, 10, 0, 0, 0, 0]);
}

#[test]
fn edge_detection_pass() {
    let lib = KernelLibrary::standard();
    let sobel = Function::named(3, &lib, 26).unwrap();
    let mut m = Matrix::new(3, 4);
    for r in 0..3 {
        for c in 0..4 {
            m.set(r, c, px(if c >= 2 { 100 } else { 0 }, 0, 0, 7));
        }
    }
    m.convolve(&sobel);
    let reds: Vec<u8> = m.data.iter().map(|p| p[0].0).collect();
    assert_eq!(reds, vec![0, 255, 255, 0, 0, 255, 255, 0, 0, 255, 255, 0]);
    assert!(m.data.iter().all(|p| p[3] == Rgba(255) && p[1] == Rgba(0)));
}

#[test]
fn one_pixel_of_a_pass() {
    let m = ramp(4, 5);
    let blur = Function::Constant(3, Aggregation::Blur);
    // window around (1, 2): 1 2 3 11 12 13 21 22 23, mean 12
    assert_eq!(m.pixel_at(&blur, 7), grey(12));
    // window around (0, 0): 0 0 1 0 0 1 10 10 11, sum 33, (33 + 4) / 9 = 4
    assert_eq!(m.pixel_at(&blur, 0), grey(4));
    let max = Function::Constant(3, Aggregation::Max);
    assert_eq!(m.pixel_at(&max, 0), grey(11));
    let inner = Function::Constant(3, Aggregation::Inner);
    assert_eq!(m.pixel_at(&inner, 5), grey(0));
}

#[test]
fn calculate_dispatches_on_the_kernel() {
    let window = || ramp(3, 3).window(1, 1, 3);
    assert_eq!(Function::Constant(3, Aggregation::Identity).calculate(window()), grey(11));
    assert_eq!(Function::Constant(3, Aggregation::Blur).calculate(window()), grey(11));
    assert_eq!(Function::Constant(3, Aggregation::Min).calculate(window()), grey(0));
    assert_eq!(Function::Constant(3, Aggregation::Median).calculate(window()), grey(11));
    assert_eq!(Function::Constant(3, Aggregation::Max).calculate(window()), grey(22));
    assert_eq!(Function::Constant(3, Aggregation::Inner).calculate(window()), grey(0));
    let pick = Function::Param(3, Weights { num: vec![0, 0, 0, 0, 0, 1, 0, 0, 0], den: 1 });
    assert_eq!(pick.calculate(window()), px(12, 12, 12, 255));
}

#[test]
fn sum_of_two_buffers() {
    let mut a = Matrix::new(1, 3);
    let mut b = Matrix::new(1, 3);
    a.set(0, 0, px(10, 200, 255, 0));
    b.set(0, 0, px(20, 100, 255, 0));
    a.set(0, 1, px(1, 2, 3, 4));
    b.set(0, 1, px(4, 3, 2, 2));
    a.set(0, 2, px(255, 128, 127, 1));
    b.set(0, 2, px(0, 128, 128, 0));
    let plain = Matrix::add(
        Matrix { rows: 1, cols: 3, data: a.data.clone() },
        Matrix { rows: 1, cols: 3, data: b.data.clone() },
        false,
    )
    .unwrap();
    assert_eq!(plain.rows, 1);
    assert_eq!(plain.cols, 3);
    assert_eq!(plain.data, vec![px(30, 255, 255, 0), px(5, 5, 5, 6), px(255, 255, 255, 1)]);
    let mean = Matrix::add(a, b, true).unwrap();
    assert_eq!(mean.data, vec![px(15, 150, 255, 0), px(2, 2, 2, 3), px(127, 128, 127, 0)]);
}

#[test]
fn sum_of_buffers_of_different_shapes() {
    let r = Matrix::<Rgba>::add(Matrix::new(2, 3), Matrix::new(3, 2), false);
    assert_eq!(r.err(), Some(AddError::ShapeMismatch));
    let r = Matrix::<Rgba>::add(Matrix::new(2, 3), Matrix::new(2, 4), true);
    assert_eq!(r.err(), Some(AddError::ShapeMismatch));
    let r = Matrix::<Rgba>::add(Matrix::new(1, 6), Matrix::new(6, 1), true);
    assert_eq!(r.err(), Some(AddError::ShapeMismatch));
    assert!(Matrix::<Rgba>::add(Matrix::new(0, 0), Matrix::new(0, 0), true).is_ok());
    assert_eq!(AddError::ShapeMismatch.message(), "the two images differ in size");
}

#[test]
fn game_of_life_rule() {
    let cells = |bits: [u8; 9]| {
        let mut out = [false; 9];
        for i in 0..9 {
            out[i] = bits[i] == 1;
        }
        out
    };
    // live cell, two neighbours: lives
    assert!(conways_rule(cells([1, 1, 0, 0, 1, 0, 0, 0, 0])));
    // live cell, three neighbours: lives
    assert!(conways_rule(cells([1, 1, 0, 0, 1, 0, 0, 0, 1])));
    // live cell, one neighbour: dies
    assert!(!conways_rule(cells([1, 0, 0, 0, 1, 0, 0, 0, 0])));
    // live cell, none: dies
    assert!(!conways_rule(cells([0, 0, 0, 0, 1, 0, 0, 0, 0])));
    // live cell, four: dies
    assert!(!conways_rule(cells([1, 1, 1, 1, 1, 0, 0, 0, 0])));
    // live cell, eight: dies
    assert!(!conways_rule(cells([1, 1, 1, 1, 1, 1, 1, 1, 1])));
    // dead cell, three: born
    assert!(conways_rule(cells([1, 1, 1, 0, 0, 0, 0, 0, 0])));
    // dead cell, two: stays dead
    assert!(!conways_rule(cells([1, 1, 0, 0, 0, 0, 0, 0, 0])));
    // dead cell, four: stays dead
    assert!(!conways_rule(cells([1, 1, 1, 1, 0, 0, 0, 0, 0])));
    assert!(!conways_rule(cells([0, 0, 0, 0, 0, 0, 0, 0, 0])));
    let _ = Pos::Mid;
}

// One pass in floating point, for kernels whose weights floating point
// holds exactly.
fn float_pass(m: &Matrix<Rgba>, size: usize, weights: Option<&[f32]>) -> Vec<[Rgba; 4]> {
    let half = (size as isize - 1) / 2;
    let mut out = Vec::new();
    for row in 0..m.rows as isize {
        for col in 0..m.cols as isize {
            let mut window = Vec::new();
            for drow in -half..=half {
                for dcol in -half..=half {
                    let r = (row + drow).clamp(0, m.rows as isize - 1);
                    let c = (col + dcol).clamp(0, m.cols as isize - 1);
                    window.push(m.data[r as usize * m.cols + c as usize]);
                }
            }
            let pixel = match weights {
                Some(w) => {
                    let mut sums = [0f32; 3];
                    for (k, p) in w.iter().zip(window.iter()) {
                        for ch in 0..3 {
                            sums[ch] += p[ch].0 as f32 * k;
                        }
                    }
                    [Rgba(sums[0] as u8), Rgba(sums[1] as u8), Rgba(sums[2] as u8), Rgba(255)]
                }
                None => {
                    let area = window.len() as f32;
                    let mut sums = [0f32; 4];
                    for p in window.iter() {
                        for ch in 0..4 {
                            sums[ch] += p[ch].0 as f32;
                        }
                    }
                    [
                        Rgba(((sums[0] + area / 2.0) / area) as u8),
                        Rgba(((sums[1] + area / 2.0) / area) as u8),
                        Rgba(((sums[2] + area / 2.0) / area) as u8),
                        Rgba(((sums[3] + area / 2.0) / area) as u8),
                    ]
                }
            };
            out.push(pixel);
        }
    }
    out
}

fn noise(rows: usize, cols: usize, seed: u32) -> Matrix<Rgba> {
    let mut state = seed;
    let mut next = move || {
        state = state.wrapping_mul(1664525).wrapping_add(1013904223);
        (state >> 24) as u8
    };
    let mut m = Matrix::new(rows, cols);
    for r in 0..rows {
        for c in 0..cols {
            m.set(r, c, px(next(), next(), next(), next()));
        }
    }
    m
}

#[test]
fn passes_agree_with_floating_point() {
    let lib = KernelLibrary::standard();
    for seed in [1u32, 2, 3] {
        for (rows, cols) in [(6usize, 7usize), (1, 9), (4, 1), (2, 2)] {
            let image = noise(rows, cols, seed);
            for size in [1usize, 3, 5] {
                let mut m = Matrix { rows, cols, data: image.data.clone() };
                m.convolve(&Function::Constant(size, Aggregation::Blur));
                assert_eq!(m.data, float_pass(&image, size, None));
            }
            for index in 0..30 {
                let entry = &lib.entries[index];
                let size = if entry.weights.num.len() == 25 { 5 } else { 3 };
                let kernel = Function::named(size, &lib, index).unwrap();
                let floats: Vec<f32> = entry
                    .weights
                    .num
                    .iter()
                    .map(|&n| n as f32 / entry.weights.den as f32)
                    .collect();
                let mut m = Matrix { rows, cols, data: image.data.clone() };
                m.convolve(&kernel);
                assert_eq!(m.data, float_pass(&image, size, Some(&floats)));
            }
        }
    }
}
