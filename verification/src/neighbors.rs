//! The window of samples around a focal pixel, and the aggregations over it.

use vstd::prelude::*;
use vstd::arithmetic::div_mod::lemma_fundamental_div_mod_converse;
use vstd::seq_lib::{commutative_foldl, lemma_fold_left_permutation};
use crate::colormode::{clamp_int, opaque_level, pixel_of, zero_pixel, ColorValue, Rgba};
use crate::order::{ascending, lemma_ascending, sort_levels};
use crate::weights::{sum_of, Weights, MAX_AREA};

verus! {

/// Which of the ordered samples of a channel is wanted.
#[derive(Debug, Clone, Copy, PartialEq, Eq, Structural)]
pub enum Pos {
    Max,
    Mid,
    Min,
}

/// The samples around a focal pixel: a square of side `size`, row by row,
/// with the focal pixel in the middle.
pub struct Neighbors<T> {
    pub size: usize,
    pub data: Vec<[T; 4]>,
}

/// Index of the focal sample in a window of side `size`.
pub open spec fn center_index(size: int) -> int {
    (size * size - 1) / 2
}

/// The focal sample of a window of odd side lies in its middle row and
/// middle column.
pub proof fn lemma_center(size: int)
    requires
        size >= 1,
        size % 2 == 1,
    ensures
        center_index(size) == (size * size) / 2,
        center_index(size) == (size / 2) * size + size / 2,
        0 <= center_index(size) < size * size,
{
    let h = size / 2;
    assert(size == 2 * h + 1);
    assert(size * size == 2 * (h * size + h) + 1) by (nonlinear_arith)
        requires
            size == 2 * h + 1,
    ;
    assert(h * size + h >= 0) by (nonlinear_arith)
        requires
            h >= 0,
            size >= 1,
    ;
}

impl<T: Copy> Neighbors<T> {
    /// The side is odd and there is one sample for each cell.
    pub open spec fn wf(&self) -> bool {
        &&& self.size % 2 == 1
        &&& self.data@.len() == self.size * self.size
    }

    /// Whether the side is odd and there is one sample for each cell.
    pub fn is_well_formed(&self) -> (b: bool)
        ensures
            b == self.wf(),
    {
        let side: u128 = self.size as u128;
        assert(side * side <= 0xffff_ffff_ffff_ffff * 0xffff_ffff_ffff_ffff) by (nonlinear_arith)
            requires
                0 <= side <= 0xffff_ffff_ffff_ffff,
        ;
        self.size % 2 == 1 && side * side == self.data.len() as u128
    }

    /// The focal sample, unchanged.
    pub fn none(&self) -> (pixel: [T; 4])
        requires
            self.wf(),
        ensures
            pixel == self.data@[center_index(self.size as int)],
    {
        proof {
            lemma_center(self.size as int);
        }
        let n: usize = self.data.len();
        self.data[n / 2]
    }
}

/// The function that adds the level of channel `c` of a pixel to a running
/// total.
pub open spec fn add_channel<T: ColorValue>(c: int) -> spec_fn(int, [T; 4]) -> int {
    |total: int, p: [T; 4]| total + p[c].level()
}

/// The sum of the levels of channel `c` over the samples.
pub open spec fn channel_total<T: ColorValue>(data: Seq<[T; 4]>, c: int) -> int {
    data.fold_left(0int, add_channel::<T>(c))
}

/// `total / count`, rounded to the nearest whole number by adding half of
/// `count` before dividing.
pub open spec fn rounded_mean(total: int, count: int) -> int {
    (total + count / 2) / count
}

/// The mean of the samples, channel by channel; the zero pixel where there
/// are no samples.
pub open spec fn blur_of<T: ColorValue>(data: Seq<[T; 4]>) -> [T; 4] {
    let n = data.len() as int;
    if n == 0 {
        zero_pixel::<T>()
    } else {
        pixel_of::<T>(
            rounded_mean(channel_total(data, 0), n),
            rounded_mean(channel_total(data, 1), n),
            rounded_mean(channel_total(data, 2), n),
            rounded_mean(channel_total(data, 3), n),
        )
    }
}

/// The pixel that keeps channel `channel` of `focal`, has zero in the other
/// colour channels and is fully opaque.
pub open spec fn leave_of<T: ColorValue>(focal: [T; 4], channel: int) -> [T; 4] {
    [
        if channel == 0 { focal[0] } else { T::of_level(0) },
        if channel == 1 { focal[1] } else { T::of_level(0) },
        if channel == 2 { focal[2] } else { T::of_level(0) },
        if channel == 3 { focal[3] } else { T::of_level(opaque_level::<T>()) },
    ]
}

/// A channel total lies between the smallest and the largest level, each
/// taken once for every sample.
pub proof fn lemma_channel_total_bound<T: ColorValue>(data: Seq<[T; 4]>, c: int)
    requires
        0 <= c < 4,
    ensures
        T::lowest() * data.len() <= channel_total(data, c) <= T::highest() * data.len(),
    decreases data.len(),
{
    if data.len() > 0 {
        lemma_channel_total_bound(data.drop_last(), c);
        T::lemma_level(data.last()[c]);
        let n = data.len() as int;
        assert(T::lowest() * n == T::lowest() * (n - 1) + T::lowest()) by (nonlinear_arith);
        assert(T::highest() * n == T::highest() * (n - 1) + T::highest()) by (nonlinear_arith);
    } else {
        assert(T::lowest() * 0 == 0);
        assert(T::highest() * 0 == 0);
    }
}

/// The mean of numbers between `low` and `high` lies between `low` and
/// `high`.
pub proof fn lemma_rounded_mean_bound(total: int, count: int, low: int, high: int)
    requires
        count > 0,
        low * count <= total <= high * count,
    ensures
        low <= rounded_mean(total, count) <= high,
{
    let half = count / 2;
    let x = total + half;
    let q = x / count;
    vstd::arithmetic::div_mod::lemma_fundamental_div_mod(x, count);
    vstd::arithmetic::div_mod::lemma_mod_bound(x, count);
    assert(q <= high) by (nonlinear_arith)
        requires
            count * q <= x,
            x < high * count + count,
            count > 0,
    ;
    assert(q >= low) by (nonlinear_arith)
        requires
            x < count * q + count,
            x >= low * count,
            count > 0,
    ;
}

/// The mean of the samples does not depend on their order: two windows
/// that hold the same samples, each as often as the other, have the same mean.
pub proof fn lemma_blur_symmetric<T: ColorValue>(a: Seq<[T; 4]>, b: Seq<[T; 4]>)
    requires
        a.to_multiset() == b.to_multiset(),
    ensures
        blur_of(a) == blur_of(b),
{
    broadcast use vstd::seq_lib::group_to_multiset_ensures;

    assert(a.len() == b.len()) by {
        assert(a.to_multiset().len() == a.len());
        assert(b.to_multiset().len() == b.len());
    }
    assert forall|c: int| 0 <= c < 4 implies channel_total(a, c) == channel_total(b, c) by {
        assert(commutative_foldl(add_channel::<T>(c)));
        lemma_fold_left_permutation(a, b, add_channel::<T>(c), 0int);
    }
}

/// The total of a channel over equal samples is the sample's level times
/// their number.
pub proof fn lemma_uniform_total<T: ColorValue>(data: Seq<[T; 4]>, pixel: [T; 4], c: int)
    requires
        0 <= c < 4,
        forall|i: int| 0 <= i < data.len() ==> data[i] == pixel,
    ensures
        channel_total(data, c) == pixel[c].level() * data.len(),
    decreases data.len(),
{
    if data.len() > 0 {
        lemma_uniform_total(data.drop_last(), pixel, c);
        assert(pixel[c].level() * (data.len() - 1) + pixel[c].level() == pixel[c].level()
            * data.len()) by (nonlinear_arith);
    } else {
        assert(pixel[c].level() * 0 == 0);
    }
}

/// The mean of samples that are all equal is that sample.
pub proof fn lemma_blur_uniform<T: ColorValue>(data: Seq<[T; 4]>, pixel: [T; 4])
    requires
        data.len() > 0,
        forall|i: int| 0 <= i < data.len() ==> data[i] == pixel,
    ensures
        blur_of(data) =~= pixel,
{
    assert forall|c: int| 0 <= c < 4 implies T::of_level(
        rounded_mean(channel_total(data, c), data.len() as int),
    ) == pixel[c] by {
        lemma_uniform_total(data, pixel, c);
        T::lemma_level(pixel[c]);
        let n = data.len() as int;
        let v = pixel[c].level();
        let half = n / 2;
        lemma_fundamental_div_mod_converse(v * n + half, n, v, half);
    }
    assert(blur_of(data)[0] == pixel[0]);
    assert(blur_of(data)[1] == pixel[1]);
    assert(blur_of(data)[2] == pixel[2]);
    assert(blur_of(data)[3] == pixel[3]);
}

/// The levels of channel `c` of the samples, in the order of the samples.
pub open spec fn level_values<T: ColorValue>(data: Seq<[T; 4]>, c: int) -> Seq<i64> {
    Seq::new(data.len(), |i: int| data[i][c].level() as i64)
}

/// The place of the wanted sample among `count` ordered samples.
pub open spec fn rank_of(location: Pos, count: int) -> int {
    match location {
        Pos::Min => 0,
        Pos::Mid => count / 2,
        Pos::Max => count - 1,
    }
}

/// Channel by channel, the sample at the wanted place once the samples of
/// that channel are put in ascending order.
pub open spec fn positional_of<T: ColorValue>(data: Seq<[T; 4]>, location: Pos) -> [T; 4] {
    let rank = rank_of(location, data.len() as int);
    pixel_of::<T>(
        ascending(level_values(data, 0))[rank] as int,
        ascending(level_values(data, 1))[rank] as int,
        ascending(level_values(data, 2))[rank] as int,
        ascending(level_values(data, 3))[rank] as int,
    )
}

/// The sum of the level of channel `c` times `num[i]` over the first `n`
/// samples.
pub open spec fn weighted_total<T: ColorValue>(
    data: Seq<[T; 4]>,
    num: Seq<i64>,
    c: int,
    n: int,
) -> int
    decreases n,
{
    if n <= 0 {
        0
    } else {
        weighted_total(data, num, c, n - 1) + data[n - 1][c].level() * num[n - 1]
    }
}

/// The smaller of two lengths.
pub open spec fn shorter(a: int, b: int) -> int {
    if a <= b {
        a
    } else {
        b
    }
}

/// The weighted sum of colour channel `c`, divided by the denominator of
/// the weights, rounded down and restricted to the legal range of the
/// channel.
pub open spec fn weighted_level<T: ColorValue>(data: Seq<[T; 4]>, weights: Weights, c: u8) -> int {
    clamp_int(
        weighted_total(
            data,
            weights.num@,
            c as int,
            shorter(data.len() as int, weights.num@.len() as int),
        ) / (weights.den as int),
        T::floor_of(c),
        T::ceiling_of(c),
    )
}

/// The weighted sum of the samples in the three colour channels, fully
/// opaque.
pub open spec fn kernel_of<T: ColorValue>(data: Seq<[T; 4]>, weights: Weights) -> [T; 4] {
    pixel_of::<T>(
        weighted_level(data, weights, 0),
        weighted_level(data, weights, 1),
        weighted_level(data, weights, 2),
        opaque_level::<T>(),
    )
}

/// The largest size of one term of a weighted total: 2 to the 31 times 2 to
/// the 63.
pub open spec fn term_limit() -> int {
    0x4000_0000_0000_0000_0000_0000
}

/// One term of a weighted total is within `term_limit`.
pub proof fn lemma_term_bound<T: ColorValue>(x: T, w: i64)
    ensures
        -term_limit() <= x.level() * w <= term_limit(),
{
    T::lemma_level(x);
    T::lemma_bounds();
    let v = x.level();
    assert(-0x4000_0000_0000_0000_0000_0000 <= v * w <= 0x4000_0000_0000_0000_0000_0000)
        by (nonlinear_arith)
        requires
            -0x8000_0000 <= v <= 0x8000_0000,
            -0x8000_0000_0000_0000 <= w <= 0x8000_0000_0000_0000,
    ;
}

/// A weighted total stays within `term_limit` for each sample.
pub proof fn lemma_weighted_total_bound<T: ColorValue>(
    data: Seq<[T; 4]>,
    num: Seq<i64>,
    c: int,
    n: int,
)
    requires
        0 <= c < 4,
        0 <= n <= data.len(),
        n <= num.len(),
    ensures
        -(n * term_limit()) <= weighted_total(data, num, c, n) <= n * term_limit(),
    decreases n,
{
    if n > 0 {
        lemma_weighted_total_bound(data, num, c, n - 1);
        lemma_term_bound(data[n - 1][c], num[n - 1]);
        assert(n * term_limit() == (n - 1) * term_limit() + term_limit()) by (nonlinear_arith);
    } else {
        assert(n * term_limit() == 0);
    }
}

/// Over equal samples a weighted total is the sample's level times the sum
/// of the weights.
pub proof fn lemma_weighted_uniform_total<T: ColorValue>(
    data: Seq<[T; 4]>,
    num: Seq<i64>,
    pixel: [T; 4],
    c: int,
    n: int,
)
    requires
        0 <= c < 4,
        0 <= n <= data.len(),
        n <= num.len(),
        forall|i: int| 0 <= i < data.len() ==> data[i] == pixel,
    ensures
        weighted_total(data, num, c, n) == pixel[c].level() * sum_of(num.take(n)),
    decreases n,
{
    if n > 0 {
        lemma_weighted_uniform_total(data, num, pixel, c, n - 1);
        assert(num.take(n).drop_last() =~= num.take(n - 1));
        let v = pixel[c].level();
        let a = sum_of(num.take(n - 1));
        let b = num[n - 1] as int;
        assert(v * a + v * b == v * (a + b)) by (nonlinear_arith);
    } else {
        assert(pixel[c].level() * 0 == 0);
    }
}

/// Weights that add up to one leave a uniform window as it is, provided
/// its colour channels are within their legal ranges, but for the fourth
/// channel, which becomes fully opaque.
pub proof fn lemma_kernel_uniform<T: ColorValue>(
    data: Seq<[T; 4]>,
    weights: Weights,
    pixel: [T; 4],
)
    requires
        weights.wf(),
        weights.unit_sum(),
        weights.num@.len() == data.len(),
        forall|i: int| 0 <= i < data.len() ==> data[i] == pixel,
        forall|c: u8|
            c < 3 ==> #[trigger] T::floor_of(c) <= pixel[c as int].level() <= T::ceiling_of(c),
    ensures
        kernel_of(data, weights) =~= [
            pixel[0],
            pixel[1],
            pixel[2],
            T::of_level(opaque_level::<T>()),
        ],
{
    let n = data.len() as int;
    assert(weights.num@.take(n) =~= weights.num@);
    assert forall|c: u8| c < 3 implies T::of_level(#[trigger] weighted_level(data, weights, c))
        == pixel[c as int] by {
        lemma_weighted_uniform_total(data, weights.num@, pixel, c as int, n);
        T::lemma_level(pixel[c as int]);
        let v = pixel[c as int].level();
        let d = weights.den as int;
        lemma_fundamental_div_mod_converse(v * d, d, v, 0);
        assert(T::floor_of(c) <= v <= T::ceiling_of(c));
    }
    assert(T::of_level(weighted_level(data, weights, 0u8)) == pixel[0]);
    assert(T::of_level(weighted_level(data, weights, 1u8)) == pixel[1]);
    assert(T::of_level(weighted_level(data, weights, 2u8)) == pixel[2]);
}

/// `a / b`, rounded down.
pub fn floor_div(a: i128, b: i128) -> (q: i128)
    requires
        b > 0,
        a > i128::MIN,
    ensures
        q == a as int / b as int,
{
    if a >= 0 {
        a / b
    } else {
        let m: i128 = -a;
        let quotient: i128 = m / b;
        let rest: i128 = m % b;
        proof {
            vstd::arithmetic::div_mod::lemma_fundamental_div_mod(m as int, b as int);
            assert(b * quotient == quotient * b) by (nonlinear_arith);
        }
        if rest == 0 {
            proof {
                assert(a == (-quotient) * b + 0) by (nonlinear_arith)
                    requires
                        -a == quotient * b + rest,
                        rest == 0,
                ;
                lemma_fundamental_div_mod_converse(a as int, b as int, -quotient as int, 0);
            }
            -quotient
        } else {
            proof {
                assert(a == (-quotient - 1) * b + (b - rest)) by (nonlinear_arith)
                    requires
                        -a == quotient * b + rest,
                ;
                lemma_fundamental_div_mod_converse(
                    a as int,
                    b as int,
                    -quotient - 1,
                    b - rest,
                );
            }
            -quotient - 1
        }
    }
}

impl<T: ColorValue> Neighbors<T> {
    /// The sum of the levels of one channel over all samples.
    fn total(&self, c: usize) -> (t: i128)
        requires
            c < 4,
        ensures
            t == channel_total(self.data@, c as int),
            T::lowest() * self.data@.len() <= t <= T::highest() * self.data@.len(),
            -0x8000_0000 * self.data@.len() <= t <= 0x8000_0000 * self.data@.len(),
    {
        let n: usize = self.data.len();
        let mut t: i128 = 0;
        let mut i: usize = 0;
        while i < n
            invariant
                i <= n,
                n == self.data@.len(),
                c < 4,
                t == channel_total(self.data@.take(i as int), c as int),
                -0x8000_0000 * i <= t <= 0x8000_0000 * i,
            decreases n - i,
        {
            assert(self.data@.take(i + 1).drop_last() =~= self.data@.take(i as int));
            let p = self.data[i];
            proof {
                T::lemma_level(p[c as int]);
                T::lemma_bounds();
            }
            t = t + p[c].value() as i128;
            i += 1;
        }
        proof {
            assert(self.data@.take(n as int) =~= self.data@);
            lemma_channel_total_bound(self.data@, c as int);
        }
        t
    }

    /// The rounded mean of one channel over all samples.
    fn mean(&self, c: usize) -> (r: T)
        requires
            c < 4,
            self.data@.len() > 0,
        ensures
            r == T::of_level(
                rounded_mean(channel_total(self.data@, c as int), self.data@.len() as int),
            ),
    {
        let n: i128 = self.data.len() as i128;
        let t: i128 = self.total(c);
        proof {
            lemma_rounded_mean_bound(t as int, n as int, T::lowest(), T::highest());
            assert(T::lowest() * n == T::lowest() * self.data@.len());
        }
        T::from_value(floor_div(t + n / 2, n))
    }

    /// The mean of the samples, channel by channel, rounded to the nearest
    /// whole level. An empty window gives the zero pixel.
    pub fn blur(&self) -> (pixel: [T; 4])
        ensures
            pixel == blur_of(self.data@),
    {
        if self.data.len() == 0 {
            let zero = T::from_u8(0);
            assert(0 * T::unit() == 0);
            let pixel = [zero, zero, zero, zero];
            assert(pixel =~= blur_of(self.data@));
            return pixel;
        }
        let pixel = [self.mean(0), self.mean(1), self.mean(2), self.mean(3)];
        assert(pixel =~= blur_of(self.data@));
        pixel
    }

    /// The pixel whose channels are all zero, whatever the samples.
    pub fn inner(&self) -> (pixel: [T; 4])
        ensures
            pixel == zero_pixel::<T>(),
    {
        let zero = T::from_u8(0);
        assert(0 * T::unit() == 0);
        let pixel = [zero, zero, zero, zero];
        assert(pixel =~= zero_pixel::<T>());
        pixel
    }

    /// Keeps one channel of the focal sample: the other colour channels
    /// are zero and the pixel is fully opaque.
    pub fn leave(&self, channel: usize) -> (pixel: [T; 4])
        requires
            self.wf(),
            channel < 4,
        ensures
            pixel == leave_of(self.data@[center_index(self.size as int)], channel as int),
    {
        let focal = self.none();
        let zero = T::from_u8(0);
        assert(0 * T::unit() == 0);
        let mut pixel = [zero, zero, zero, T::from_u8(255)];
        pixel[channel] = focal[channel];
        assert(pixel =~= leave_of(focal, channel as int));
        pixel
    }

    /// The levels of channel `c` of every sample.
    fn channel(&self, c: usize) -> (v: Vec<i64>)
        requires
            c < 4,
        ensures
            v@ == level_values(self.data@, c as int),
    {
        let n: usize = self.data.len();
        let mut v: Vec<i64> = Vec::new();
        let mut i: usize = 0;
        while i < n
            invariant
                i <= n,
                n == self.data@.len(),
                c < 4,
                v@.len() == i,
                forall|k: int| 0 <= k < i ==> v@[k] == self.data@[k][c as int].level(),
            decreases n - i,
        {
            let p = self.data[i];
            v.push(p[c].value());
            i += 1;
        }
        assert(v@ =~= level_values(self.data@, c as int));
        v
    }

    /// The sample of channel `c` at the wanted place in ascending order.
    fn ranked(&self, c: usize, location: Pos) -> (r: T)
        requires
            c < 4,
            self.data@.len() > 0,
        ensures
            r == T::of_level(
                ascending(level_values(self.data@, c as int))[rank_of(
                    location,
                    self.data@.len() as int,
                )] as int,
            ),
    {
        let mut values = self.channel(c);
        let ghost before = values@;
        proof {
            lemma_ascending(before);
        }
        sort_levels(&mut values);
        let len: usize = values.len();
        let level: i64 = match location {
            Pos::Min => values[0],
            Pos::Max => values[len - 1],
            Pos::Mid => values[len / 2],
        };
        proof {
            assert(before.contains(level));
            let i = choose|i: int| 0 <= i < before.len() && before[i] == level;
            T::lemma_level(self.data@[i][c as int]);
            T::lemma_bounds();
        }
        T::from_value(level as i128)
    }

    /// Channel by channel, the smallest, the middle or the largest of the
    /// samples. The window must not be empty.
    pub fn positional(&self, location: Pos) -> (pixel: [T; 4])
        requires
            self.data@.len() > 0,
        ensures
            pixel == positional_of(self.data@, location),
    {
        let pixel = [
            self.ranked(0, location),
            self.ranked(1, location),
            self.ranked(2, location),
            self.ranked(3, location),
        ];
        assert(pixel =~= positional_of(self.data@, location));
        pixel
    }

    /// The weighted sum of the samples: sample `i` counts `num[i] / den`
    /// times. Where samples and weights differ in number, the surplus of
    /// either is left out. Each colour channel is rounded down and
    /// restricted to its legal range, and the fourth channel is fully opaque.
    pub fn kernel(&self, kernel: &Weights) -> (pixel: [T; 4])
        requires
            kernel.wf(),
        ensures
            pixel == kernel_of(self.data@, *kernel),
    {
        let n: usize = if self.data.len() <= kernel.num.len() {
            self.data.len()
        } else {
            kernel.num.len()
        };
        let mut sum_0: i128 = 0;
        let mut sum_1: i128 = 0;
        let mut sum_2: i128 = 0;
        let mut i: usize = 0;
        while i < n
            invariant
                i <= n,
                n <= self.data@.len(),
                n <= kernel.num@.len(),
                n <= MAX_AREA,
                sum_0 == weighted_total(self.data@, kernel.num@, 0, i as int),
                sum_1 == weighted_total(self.data@, kernel.num@, 1, i as int),
                sum_2 == weighted_total(self.data@, kernel.num@, 2, i as int),
            decreases n - i,
        {
            let p = self.data[i];
            let k: i128 = kernel.num[i] as i128;
            proof {
                lemma_weighted_total_bound(self.data@, kernel.num@, 0, i as int);
                lemma_weighted_total_bound(self.data@, kernel.num@, 1, i as int);
                lemma_weighted_total_bound(self.data@, kernel.num@, 2, i as int);
                lemma_term_bound(p[0], kernel.num@[i as int]);
                lemma_term_bound(p[1], kernel.num@[i as int]);
                lemma_term_bound(p[2], kernel.num@[i as int]);
                assert(i * term_limit() <= MAX_AREA * term_limit()) by (nonlinear_arith)
                    requires
                        i <= MAX_AREA,
                ;
            }
            sum_0 = sum_0 + p[0].value() as i128 * k;
            sum_1 = sum_1 + p[1].value() as i128 * k;
            sum_2 = sum_2 + p[2].value() as i128 * k;
            i += 1;
        }
        proof {
            lemma_weighted_total_bound(self.data@, kernel.num@, 0, n as int);
            lemma_weighted_total_bound(self.data@, kernel.num@, 1, n as int);
            lemma_weighted_total_bound(self.data@, kernel.num@, 2, n as int);
            assert(n * term_limit() <= MAX_AREA * term_limit()) by (nonlinear_arith)
                requires
                    n <= MAX_AREA,
            ;
        }
        let den: i128 = kernel.den as i128;
        let pixel = [
            channel_level::<T>(sum_0, den, 0),
            channel_level::<T>(sum_1, den, 1),
            channel_level::<T>(sum_2, den, 2),
            T::from_u8(255),
        ];
        assert(pixel =~= kernel_of(self.data@, *kernel));
        pixel
    }
}

/// `total / den` as colour channel `c`: rounded down and restricted to the
/// legal range of the channel.
fn channel_level<T: ColorValue>(total: i128, den: i128, c: u8) -> (r: T)
    requires
        den > 0,
        total > i128::MIN,
        c < 3,
    ensures
        r == T::of_level(clamp_int(total as int / den as int, T::floor_of(c), T::ceiling_of(c))),
{
    let whole = T::from_value(floor_div(total, den));
    let r = whole.clamp(c);
    proof {
        T::lemma_bounds();
        T::lemma_of_level(clamp_int(total as int / den as int, T::lowest(), T::highest()));
        T::lemma_level(r);
    }
    r
}

/// The number of entries of a falloff table: one for each distance between
/// two channel values.
pub const FALLOFF_ENTRIES: usize = 256;

/// The distance between two channel values.
pub open spec fn gap(a: u8, b: u8) -> int {
    if a <= b {
        b - a
    } else {
        a - b
    }
}

/// How much a sample counts for its likeness to the focal sample: the sum,
/// over the four channels, of the falloff at the distance between the two.
pub open spec fn range_weight(falloff: Seq<u16>, p: [Rgba; 4], focal: [Rgba; 4]) -> int {
    falloff[gap(p[0].0, focal[0].0)] + falloff[gap(p[1].0, focal[1].0)] + falloff[gap(
        p[2].0,
        focal[2].0,
    )] + falloff[gap(p[3].0, focal[3].0)]
}

/// The weight of sample `i`: its spatial weight times its range weight.
pub open spec fn bilateral_weight(
    data: Seq<[Rgba; 4]>,
    num: Seq<i64>,
    falloff: Seq<u16>,
    focal: [Rgba; 4],
    i: int,
) -> int {
    num[i] * range_weight(falloff, data[i], focal)
}

/// The sum of the weights of the first `n` samples.
pub open spec fn bilateral_weight_total(
    data: Seq<[Rgba; 4]>,
    num: Seq<i64>,
    falloff: Seq<u16>,
    focal: [Rgba; 4],
    n: int,
) -> int
    decreases n,
{
    if n <= 0 {
        0
    } else {
        bilateral_weight_total(data, num, falloff, focal, n - 1) + bilateral_weight(
            data,
            num,
            falloff,
            focal,
            n - 1,
        )
    }
}

/// The sum of channel `c` of the first `n` samples, each times its weight.
pub open spec fn bilateral_total(
    data: Seq<[Rgba; 4]>,
    num: Seq<i64>,
    falloff: Seq<u16>,
    focal: [Rgba; 4],
    c: int,
    n: int,
) -> int
    decreases n,
{
    if n <= 0 {
        0
    } else {
        bilateral_total(data, num, falloff, focal, c, n - 1) + bilateral_weight(
            data,
            num,
            falloff,
            focal,
            n - 1,
        ) * data[n - 1][c].0
    }
}

/// `total / weight` as a channel, restricted to 0 to 255. With no weight at
/// all, a total above zero gives 255 and any other gives 0.
pub open spec fn ratio_level(total: int, weight: int) -> int {
    if weight > 0 {
        clamp_int(total / weight, 0, 255)
    } else if weight < 0 {
        clamp_int((-total) / (-weight), 0, 255)
    } else if total > 0 {
        255
    } else {
        0
    }
}

/// The edge-preserving mean of a window: channel by channel, the weighted
/// sum of the samples over the sum of the weights.
pub open spec fn bilateral_of(
    data: Seq<[Rgba; 4]>,
    size: int,
    num: Seq<i64>,
    falloff: Seq<u16>,
) -> [Rgba; 4] {
    let focal = data[center_index(size)];
    let n = data.len() as int;
    let weight = bilateral_weight_total(data, num, falloff, focal, n);
    [
        Rgba(ratio_level(bilateral_total(data, num, falloff, focal, 0, n), weight) as u8),
        Rgba(ratio_level(bilateral_total(data, num, falloff, focal, 1, n), weight) as u8),
        Rgba(ratio_level(bilateral_total(data, num, falloff, focal, 2, n), weight) as u8),
        Rgba(ratio_level(bilateral_total(data, num, falloff, focal, 3, n), weight) as u8),
    ]
}

/// The largest size of one bilateral weight: 2 to the 63, times four
/// falloff entries of at most 65535.
pub open spec fn weight_limit() -> int {
    0x8000_0000_0000_0000int * 262140
}

/// One bilateral weight is within `weight_limit`.
pub proof fn lemma_bilateral_weight_bound(
    data: Seq<[Rgba; 4]>,
    num: Seq<i64>,
    falloff: Seq<u16>,
    focal: [Rgba; 4],
    i: int,
)
    requires
        0 <= i < data.len(),
        i < num.len(),
        falloff.len() == FALLOFF_ENTRIES,
    ensures
        0 <= range_weight(falloff, data[i], focal) <= 262140,
        -weight_limit() <= bilateral_weight(data, num, falloff, focal, i) <= weight_limit(),
{
    let r = range_weight(falloff, data[i], focal);
    let w = num[i] as int;
    assert(-(0x8000_0000_0000_0000 * 262140) <= w * r <= 0x8000_0000_0000_0000 * 262140)
        by (nonlinear_arith)
        requires
            0 <= r <= 262140,
            -0x8000_0000_0000_0000 <= w <= 0x8000_0000_0000_0000,
    ;
}

/// The bilateral sums over `n` samples are within `n` times the limit of
/// one term.
pub proof fn lemma_bilateral_bounds(
    data: Seq<[Rgba; 4]>,
    num: Seq<i64>,
    falloff: Seq<u16>,
    focal: [Rgba; 4],
    c: int,
    n: int,
)
    requires
        0 <= c < 4,
        0 <= n <= data.len(),
        n <= num.len(),
        falloff.len() == FALLOFF_ENTRIES,
    ensures
        -(n * weight_limit()) <= bilateral_weight_total(data, num, falloff, focal, n) <= n
            * weight_limit(),
        -(n * (255 * weight_limit())) <= bilateral_total(data, num, falloff, focal, c, n) <= n * (
        255 * weight_limit()),
    decreases n,
{
    let limit = weight_limit();
    if n > 0 {
        lemma_bilateral_bounds(data, num, falloff, focal, c, n - 1);
        lemma_bilateral_weight_bound(data, num, falloff, focal, n - 1);
        let w = bilateral_weight(data, num, falloff, focal, n - 1);
        let v = data[n - 1][c].0 as int;
        assert(-(255 * limit) <= w * v <= 255 * limit) by (nonlinear_arith)
            requires
                -limit <= w <= limit,
                0 <= v <= 255,
        ;
        assert(n * limit == (n - 1) * limit + limit) by (nonlinear_arith);
        assert(n * (255 * limit) == (n - 1) * (255 * limit) + 255 * limit) by (nonlinear_arith);
    } else {
        assert(n * limit == 0 && n * (255 * limit) == 0) by (nonlinear_arith)
            requires
                n == 0,
        ;
    }
}

/// `total / den` as a byte: restricted to 0 to 255.
fn byte_level(total: i128, den: i128) -> (r: Rgba)
    requires
        den > 0,
    ensures
        r.0 == clamp_int(total as int / den as int, 0, 255),
{
    if total <= 0 {
        assert(total as int / den as int <= 0) by (nonlinear_arith)
            requires
                total <= 0,
                den > 0,
        ;
        Rgba(0)
    } else {
        assert(total as int / den as int >= 0) by (nonlinear_arith)
            requires
                total > 0,
                den > 0,
        ;
        Rgba::saturate(total / den)
    }
}

/// `total / weight` as a channel.
fn ratio(total: i128, weight: i128) -> (r: Rgba)
    requires
        total > i128::MIN,
        weight > i128::MIN,
    ensures
        r.0 == ratio_level(total as int, weight as int),
{
    if weight > 0 {
        byte_level(total, weight)
    } else if weight < 0 {
        byte_level(-total, -weight)
    } else if total > 0 {
        Rgba(255)
    } else {
        Rgba(0)
    }
}

/// The distance between two channel values.
fn gap_of(a: u8, b: u8) -> (d: usize)
    ensures
        d == gap(a, b),
        d < FALLOFF_ENTRIES,
{
    if a <= b {
        (b - a) as usize
    } else {
        (a - b) as usize
    }
}

impl Neighbors<Rgba> {
    /// Edge-preserving smoothing. Sample `i` weighs `spatial.num[i]`
    /// times its range weight, which is read from `falloff`: entry `d` of
    /// that table says how much a channel at distance `d` from the focal
    /// sample counts, on any one scale. The result is, channel by channel,
    /// the weighted sum of the samples over the sum of the weights.
    pub fn bilateral_filter(&self, spatial: &Weights, falloff: &Vec<u16>) -> (pixel: [Rgba; 4])
        requires
            self.wf(),
            spatial.wf(),
            spatial.num@.len() == self.data@.len(),
            falloff@.len() == FALLOFF_ENTRIES,
        ensures
            pixel == bilateral_of(self.data@, self.size as int, spatial.num@, falloff@),
    {
        let focal = self.none();
        let n: usize = self.data.len();
        let mut weight: i128 = 0;
        let mut sum_0: i128 = 0;
        let mut sum_1: i128 = 0;
        let mut sum_2: i128 = 0;
        let mut sum_3: i128 = 0;
        let mut i: usize = 0;
        while i < n
            invariant
                i <= n,
                n == self.data@.len(),
                n == spatial.num@.len(),
                n <= MAX_AREA,
                falloff@.len() == FALLOFF_ENTRIES,
                weight == bilateral_weight_total(
                    self.data@,
                    spatial.num@,
                    falloff@,
                    focal,
                    i as int,
                ),
                sum_0 == bilateral_total(self.data@, spatial.num@, falloff@, focal, 0, i as int),
                sum_1 == bilateral_total(self.data@, spatial.num@, falloff@, focal, 1, i as int),
                sum_2 == bilateral_total(self.data@, spatial.num@, falloff@, focal, 2, i as int),
                sum_3 == bilateral_total(self.data@, spatial.num@, falloff@, focal, 3, i as int),
            decreases n - i,
        {
            let p = self.data[i];
            proof {
                let limit = weight_limit();
                lemma_bilateral_weight_bound(self.data@, spatial.num@, falloff@, focal, i as int);
                lemma_bilateral_bounds(self.data@, spatial.num@, falloff@, focal, 0, i as int);
                lemma_bilateral_bounds(self.data@, spatial.num@, falloff@, focal, 1, i as int);
                lemma_bilateral_bounds(self.data@, spatial.num@, falloff@, focal, 2, i as int);
                lemma_bilateral_bounds(self.data@, spatial.num@, falloff@, focal, 3, i as int);
                lemma_bilateral_bounds(self.data@, spatial.num@, falloff@, focal, 0, i + 1);
                lemma_bilateral_bounds(self.data@, spatial.num@, falloff@, focal, 1, i + 1);
                lemma_bilateral_bounds(self.data@, spatial.num@, falloff@, focal, 2, i + 1);
                lemma_bilateral_bounds(self.data@, spatial.num@, falloff@, focal, 3, i + 1);
                assert(i * limit <= MAX_AREA * limit && (i + 1) * limit <= MAX_AREA * limit && i * (
                255 * limit) <= MAX_AREA * (255 * limit) && (i + 1) * (255 * limit) <= MAX_AREA * (
                255 * limit)) by (nonlinear_arith)
                    requires
                        0 <= i < MAX_AREA,
                        limit >= 0,
                ;
                let w = bilateral_weight(self.data@, spatial.num@, falloff@, focal, i as int);
                assert(-(255 * limit) <= w * p[0].0 <= 255 * limit && -(255 * limit) <= w * p[1].0
                    <= 255 * limit && -(255 * limit) <= w * p[2].0 <= 255 * limit && -(255 * limit)
                    <= w * p[3].0 <= 255 * limit) by (nonlinear_arith)
                    requires
                        -limit <= w <= limit,
                        0 <= p[0].0 <= 255,
                        0 <= p[1].0 <= 255,
                        0 <= p[2].0 <= 255,
                        0 <= p[3].0 <= 255,
                ;
            }
            let range: i128 = falloff[gap_of(p[0].0, focal[0].0)] as i128 + falloff[gap_of(
                p[1].0,
                focal[1].0,
            )] as i128 + falloff[gap_of(p[2].0, focal[2].0)] as i128 + falloff[gap_of(
                p[3].0,
                focal[3].0,
            )] as i128;
            let w: i128 = spatial.num[i] as i128 * range;
            weight = weight + w;
            sum_0 = sum_0 + w * p[0].0 as i128;
            sum_1 = sum_1 + w * p[1].0 as i128;
            sum_2 = sum_2 + w * p[2].0 as i128;
            sum_3 = sum_3 + w * p[3].0 as i128;
            i += 1;
        }
        proof {
            lemma_bilateral_bounds(self.data@, spatial.num@, falloff@, focal, 0, n as int);
            lemma_bilateral_bounds(self.data@, spatial.num@, falloff@, focal, 1, n as int);
            lemma_bilateral_bounds(self.data@, spatial.num@, falloff@, focal, 2, n as int);
            lemma_bilateral_bounds(self.data@, spatial.num@, falloff@, focal, 3, n as int);
            let limit = weight_limit();
            assert(n * limit <= MAX_AREA * limit && n * (255 * limit) <= MAX_AREA * (255 * limit))
                by (nonlinear_arith)
                requires
                    0 <= n <= MAX_AREA,
                    limit >= 0,
            ;
        }
        let pixel = [
            ratio(sum_0, weight),
            ratio(sum_1, weight),
            ratio(sum_2, weight),
            ratio(sum_3, weight),
        ];
        assert(pixel =~= bilateral_of(self.data@, self.size as int, spatial.num@, falloff@));
        pixel
    }
}

} // verus!
