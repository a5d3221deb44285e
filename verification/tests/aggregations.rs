use convolver::colormode::Rgba;
use convolver::neighbors::{floor_div, Neighbors, Pos};
use convolver::order::sort_levels;
use convolver::weights::{zeros, Weights};

fn px(r: u8, g: u8, b: u8, a: u8) -> [Rgba; 4] {
    [Rgba(r), Rgba(g), Rgba(b), Rgba(a)]
}

fn window(size: usize, reds: &[u8]) -> Neighbors<Rgba> {
    Neighbors {
        size,
        data: reds.iter().map(|&v| px(v, 255 - v, v / 2, 200)).collect(),
    }
}

#[test]
fn none_is_the_focal_sample() {
    let w = window(3, &[1, 2, 3, 4, 5, 6, 7, 8, 9]);
    assert_eq!(w.none(), px(5, 250, 2, 200));
    let w = window(1, &[42]);
    assert_eq!(w.none(), px(42, 213, 21, 200));
}

#[test]
fn blur_rounds_to_nearest() {
    // sum 13 over 9 samples: (13 + 4) / 9 = 1
    let w = Neighbors { size: 3, data: [5u8, 1, 1, 1, 1, 1, 1, 1, 1].iter().map(|&v| px(v, 0, 0, 0)).collect() };
    assert_eq!(w.blur()[0], Rgba(1));
    // sum 14: (14 + 4) / 9 = 2
    let w = Neighbors { size: 3, data: [6u8, 1, 1, 1, 1, 1, 1, 1, 1].iter().map(|&v| px(v, 0, 0, 0)).collect() };
    assert_eq!(w.blur()[0], Rgba(2));
    // sum 4: (4 + 4) / 9 = 0
    let w = Neighbors { size: 3, data: [4u8, 0, 0, 0, 0, 0, 0, 0, 0].iter().map(|&v| px(v, 0, 0, 0)).collect() };
    assert_eq!(w.blur()[0], Rgba(0));
    // sum 5: (5 + 4) / 9 = 1
    let w = Neighbors { size: 3, data: [5u8, 0, 0, 0, 0, 0, 0, 0, 0].iter().map(|&v| px(v, 0, 0, 0)).collect() };
    assert_eq!(w.blur()[0], Rgba(1));
}

#[test]
fn blur_of_each_channel() {
    let w = Neighbors {
        size: 3,
        data: vec![
            px(0, 255, 9, 1),
            px(0, 255, 9, 2),
            px(0, 255, 9, 3),
            px(90, 255, 0, 4),
            px(0, 255, 0, 5),
            px(0, 255, 0, 6),
            px(0, 255, 0, 7),
            px(0, 255, 0, 8),
            px(0, 255, 0, 9),
        ],
    };
    assert_eq!(w.blur(), px(10, 255, 3, 5));
}

#[test]
fn blur_does_not_depend_on_the_order() {
    let a = window(3, &[9, 200, 31, 4, 77, 0, 255, 18, 3]);
    let b = window(3, &[3, 18, 255, 0, 77, 4, 31, 200, 9]);
    let c = window(3, &[77, 9, 3, 200, 18, 31, 255, 4, 0]);
    assert_eq!(a.blur(), b.blur());
    assert_eq!(a.blur(), c.blur());
    assert_eq!(a.blur()[0], Rgba(66));
}

#[test]
fn blur_of_an_empty_window() {
    let w: Neighbors<Rgba> = Neighbors { size: 0, data: Vec::new() };
    assert_eq!(w.blur(), px(0, 0, 0, 0));
}

#[test]
fn positional_orders_each_channel_alone() {
    let w = Neighbors {
        size: 3,
        data: vec![
            px(9, 1, 50, 0),
            px(8, 2, 50, 0),
            px(7, 3, 50, 0),
            px(6, 4, 50, 0),
            px(5, 5, 50, 1),
            px(4, 6, 50, 1),
            px(3, 7, 50, 1),
            px(2, 8, 50, 1),
            px(1, 9, 51, 1),
        ],
    };
    assert_eq!(w.positional(Pos::Min), px(1, 1, 50, 0));
    assert_eq!(w.positional(Pos::Mid), px(5, 5, 50, 1));
    assert_eq!(w.positional(Pos::Max), px(9, 9, 51, 1));
}

#[test]
fn positional_with_repeated_values() {
    let w = window(3, &[7, 7, 1, 7, 200, 1, 1, 7, 7]);
    assert_eq!(w.positional(Pos::Min)[0], Rgba(1));
    assert_eq!(w.positional(Pos::Mid)[0], Rgba(7));
    assert_eq!(w.positional(Pos::Max)[0], Rgba(200));
    let one = window(1, &[13]);
    assert_eq!(one.positional(Pos::Min)[0], Rgba(13));
    assert_eq!(one.positional(Pos::Mid)[0], Rgba(13));
    assert_eq!(one.positional(Pos::Max)[0], Rgba(13));
}

#[test]
fn levels_are_sorted() {
    let mut v: Vec<i64> = vec![5, -3, 255, 0, -3, 9, i64::MIN, 1, i64::MAX];
    sort_levels(&mut v);
    assert_eq!(v, vec![i64::MIN, -3, -3, 0, 1, 5, 9, 255, i64::MAX]);
    let mut e: Vec<i64> = Vec::new();
    sort_levels(&mut e);
    assert!(e.is_empty());
    let mut one: Vec<i64> = vec![4];
    sort_levels(&mut one);
    assert_eq!(one, vec![4]);
}

#[test]
fn leave_keeps_one_channel() {
    let w = Neighbors { size: 1, data: vec![px(11, 22, 33, 44)] };
    assert_eq!(w.leave(0), px(11, 0, 0, 255));
    assert_eq!(w.leave(1), px(0, 22, 0, 255));
    assert_eq!(w.leave(2), px(0, 0, 33, 255));
    assert_eq!(w.leave(3), px(0, 0, 0, 44));
}

#[test]
fn inner_is_zero() {
    let w = window(3, &[1, 2, 3, 4, 5, 6, 7, 8, 9]);
    assert_eq!(w.inner(), px(0, 0, 0, 0));
}

#[test]
fn weighted_sum() {
    let w = Neighbors {
        size: 3,
        data: vec![
            px(1, 10, 0, 0),
            px(2, 20, 0, 0),
            px(3, 30, 0, 0),
            px(4, 40, 0, 0),
            px(5, 50, 100, 9),
            px(6, 60, 0, 0),
            px(7, 70, 0, 0),
            px(8, 80, 0, 0),
            px(9, 90, 0, 0),
        ],
    };
    // sobel_h: -1 0 1 -2 0 2 -1 0 1
    let sobel = Weights { num: vec![-1, 0, 1, -2, 0, 2, -1, 0, 1], den: 1 };
    assert_eq!(w.kernel(&sobel), px(8, 80, 0, 255));
    let negative = Weights { num: vec![1, 0, -1, 2, 0, -2, 1, 0, -1], den: 1 };
    assert_eq!(w.kernel(&negative), px(0, 0, 0, 255));
    let large = Weights { num: vec![0, 0, 0, 0, 100, 0, 0, 0, 0], den: 1 };
    assert_eq!(w.kernel(&large), px(255, 255, 255, 255));
    let third = Weights { num: vec![0, 0, 0, 0, 1, 0, 0, 0, 0], den: 3 };
    assert_eq!(w.kernel(&third), px(1, 16, 33, 255));
    let box_blur = Weights { num: vec![1; 9], den: 9 };
    assert_eq!(w.kernel(&box_blur), px(5, 50, 11, 255));
}

#[test]
fn weighted_sum_leaves_out_the_surplus() {
    let w = window(3, &[10, 20, 30, 40, 50, 60, 70, 80, 90]);
    let short = Weights { num: vec![1, 1], den: 1 };
    assert_eq!(w.kernel(&short)[0], Rgba(30));
    let long = Weights { num: vec![1, 0, 0, 0, 0, 0, 0, 0, 1, 100, 100], den: 1 };
    assert_eq!(w.kernel(&long)[0], Rgba(100));
    let none = Weights { num: Vec::new(), den: 1 };
    assert_eq!(w.kernel(&none), px(0, 0, 0, 255));
}

#[test]
fn weighted_sum_with_extreme_weights() {
    let w = window(1, &[255]);
    let top = Weights { num: vec![i64::MAX], den: 1 };
    assert_eq!(w.kernel(&top)[0], Rgba(255));
    let bottom = Weights { num: vec![i64::MIN], den: i64::MAX };
    assert_eq!(w.kernel(&bottom)[0], Rgba(0));
    let exact = Weights { num: vec![i64::MAX], den: i64::MAX };
    assert_eq!(w.kernel(&exact)[0], Rgba(255));
}

#[test]
fn uniform_window_under_normalized_weights() {
    let data = vec![px(10, 20, 30, 255); 9];
    let w = Neighbors { size: 3, data };
    assert_eq!(w.blur(), px(10, 20, 30, 255));
    let gauss = Weights { num: vec![1, 2, 1, 2, 4, 2, 1, 2, 1], den: 16 };
    assert_eq!(w.kernel(&gauss), px(10, 20, 30, 255));
    let thirds = Weights { num: vec![0, 0, 0, 1, 1, 1, 0, 0, 0], den: 3 };
    assert_eq!(w.kernel(&thirds), px(10, 20, 30, 255));
    let sharpen = Weights { num: vec![-1, -2, -1, -2, 28, -2, -1, -2, -1], den: 16 };
    assert_eq!(w.kernel(&sharpen), px(10, 20, 30, 255));
}

fn flat_falloff() -> Vec<u16> {
    vec![100; 256]
}

// A falloff that counts only samples equal to the focal one in a channel.
fn sharp_falloff() -> Vec<u16> {
    let mut f = vec![0u16; 256];
    f[0] = 1000;
    f
}

#[test]
fn bilateral_with_flat_falloff_is_the_weighted_mean() {
    let w = window(3, &[10, 20, 30, 40, 50, 60, 70, 80, 90]);
    let uniform = Weights { num: vec![1; 9], den: 9 };
    // mean of reds is 50; greens 255 - v, mean 205; blues v / 2, mean 25
    assert_eq!(w.bilateral_filter(&uniform, &flat_falloff()), px(50, 205, 25, 200));
    let center_heavy = Weights { num: vec![0, 0, 0, 0, 5, 5, 0, 0, 0], den: 10 };
    assert_eq!(w.bilateral_filter(&center_heavy, &flat_falloff()), px(55, 200, 27, 200));
}

#[test]
fn bilateral_keeps_edges() {
    // Left column near 10, the rest near 200: with a steep falloff the focal
    // sample hardly mixes with the other side.
    let reds = [10u8, 200, 200, 10, 200, 200, 10, 200, 200];
    let w = Neighbors { size: 3, data: reds.iter().map(|&v| px(v, v, v, 255)).collect() };
    let uniform = Weights { num: vec![1; 9], den: 9 };
    // Samples equal to the focal one weigh 4000, the others 1000 (alpha
    // alone matches): (6 * 4000 * 200 + 3 * 1000 * 10) / (6 * 4000 + 3 * 1000)
    let expected = ((6 * 4000 * 200 + 3 * 1000 * 10) / (6 * 4000 + 3 * 1000)) as u8;
    assert_eq!(expected, 178);
    assert_eq!(
        w.bilateral_filter(&uniform, &sharp_falloff()),
        px(expected, expected, expected, 255)
    );
}

#[test]
fn bilateral_without_weight() {
    let w = window(3, &[10, 20, 30, 40, 50, 60, 70, 80, 90]);
    let nothing = Weights { num: vec![0; 9], den: 1 };
    assert_eq!(w.bilateral_filter(&nothing, &flat_falloff()), px(0, 0, 0, 0));
    let cancel = Weights { num: vec![1, 0, 0, 0, 0, 0, 0, 0, -1], den: 1 };
    // weights cancel; the red total is 10 - 90 < 0, the green 245 - 165 > 0
    let got = w.bilateral_filter(&cancel, &flat_falloff());
    assert_eq!(got[0], Rgba(0));
    assert_eq!(got[1], Rgba(255));
    let negative = Weights { num: vec![-1; 9], den: 1 };
    assert_eq!(w.bilateral_filter(&negative, &flat_falloff()), px(50, 205, 25, 200));
}

#[test]
fn division_rounds_down() {
    assert_eq!(floor_div(7, 2), 3);
    assert_eq!(floor_div(-7, 2), -4);
    assert_eq!(floor_div(-8, 2), -4);
    assert_eq!(floor_div(-1, 9), -1);
    assert_eq!(floor_div(0, 9), 0);
    assert_eq!(floor_div(8, 9), 0);
    assert_eq!(floor_div(i128::MAX, 1), i128::MAX);
    assert_eq!(floor_div(i128::MIN + 1, i128::MAX), -1);
}

#[test]
fn zeros_are_zero() {
    assert_eq!(zeros(4), vec![0, 0, 0, 0]);
    assert!(zeros(0).is_empty());
}
