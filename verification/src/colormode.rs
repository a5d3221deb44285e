//! Pixel channels: what the engine asks of them, and the three encodings.

use vstd::prelude::*;

verus! {

/// The value `x` restricted to the closed interval from `low` to `high`.
pub open spec fn clamp_int(x: int, low: int, high: int) -> int {
    if x < low {
        low
    } else if x > high {
        high
    } else {
        x
    }
}

/// A channel value that can be restricted to the legal range of the
/// channel slot it sits in. Slots 0, 1 and 2 are the colour channels and may
/// each have a range of their own.
pub trait Clamp: Sized {
    /// The numeric value of the channel, in the smallest steps that the
    /// encoding tells apart.
    spec fn level(&self) -> int;

    /// The smallest legal level of colour channel `channel`.
    spec fn floor_of(channel: u8) -> int;

    /// The largest legal level of colour channel `channel`.
    spec fn ceiling_of(channel: u8) -> int;

    /// The value restricted to the legal range of colour channel
    /// `channel`.
    fn clamp(&self, channel: u8) -> (r: Self)
        requires
            channel < 3,
        ensures
            r.level() == clamp_int(
                self.level(),
                Self::floor_of(channel),
                Self::ceiling_of(channel),
            ),
    ;
}

/// What the engine asks of a pixel channel: a whole number of steps, the
/// level, that can be read, built and restricted to a channel's range.
pub trait ColorValue: Clamp + Copy {
    /// The smallest level that the type can hold.
    spec fn lowest() -> int;

    /// The largest level that the type can hold.
    spec fn highest() -> int;

    /// The level that stands for the number one.
    spec fn unit() -> int;

    /// The channel of the given level.
    spec fn of_level(v: int) -> Self;

    /// A channel is known by its level, which the type can hold.
    proof fn lemma_level(x: Self)
        ensures
            Self::lowest() <= x.level() <= Self::highest(),
            Self::of_level(x.level()) == x,
    ;

    /// A level that the type can hold is the level of its channel.
    proof fn lemma_of_level(v: int)
        requires
            Self::lowest() <= v <= Self::highest(),
        ensures
            Self::of_level(v).level() == v,
    ;

    /// The levels fit in 32 bits, zero and 255 are among them, and so are
    /// the legal ranges of the colour channels.
    proof fn lemma_bounds()
        ensures
            i32::MIN <= Self::lowest() <= 0,
            Self::unit() >= 1,
            255 * Self::unit() <= Self::highest() <= i32::MAX,
            forall|c: u8|
                c < 3 ==> Self::lowest() <= #[trigger] Self::floor_of(c) <= Self::ceiling_of(c)
                    <= Self::highest(),
    ;

    /// The level of the channel.
    fn value(&self) -> (v: i64)
        ensures
            v == self.level(),
    ;

    /// The channel of the level nearest to `v` that the type can hold.
    fn from_value(v: i128) -> (r: Self)
        ensures
            r == Self::of_level(clamp_int(v as int, Self::lowest(), Self::highest())),
    ;

    /// The channel that stands for the number `x`.
    fn from_u8(x: u8) -> (r: Self)
        ensures
            r == Self::of_level(x * Self::unit()),
    ;
}

/// The pixel with the given levels in its four channels.
pub open spec fn pixel_of<T: ColorValue>(a: int, b: int, c: int, d: int) -> [T; 4] {
    [T::of_level(a), T::of_level(b), T::of_level(c), T::of_level(d)]
}

/// The pixel whose four channels are zero.
pub open spec fn zero_pixel<T: ColorValue>() -> [T; 4] {
    pixel_of::<T>(0, 0, 0, 0)
}

/// The level of full opacity: what stands for the number 255.
pub open spec fn opaque_level<T: ColorValue>() -> int {
    255 * T::unit()
}

/// One 8-bit channel of a linear RGBA pixel. Its level is the byte.
#[derive(Debug, Clone, Copy, PartialEq, Eq, PartialOrd, Structural)]
pub struct Rgba(pub u8);

/// The number of steps into which the cylindrical and the perceptual
/// encoding divide the number one.
pub const STEPS: i32 = 65536;

/// One channel of a pixel in the cylindrical encoding: hue in degrees, then
/// saturation, lightness and opacity, each in steps of one `STEPS`-th.
#[derive(Debug, Clone, Copy, PartialEq, Eq, PartialOrd, Structural)]
pub struct Hsla(pub i32);

/// One channel of a pixel in the perceptual encoding: lightness, then the
/// two chromaticities and opacity, each in steps of one `STEPS`-th.
#[derive(Debug, Clone, Copy, PartialEq, Eq, PartialOrd, Structural)]
pub struct Luva(pub i32);

/// `x` restricted to the closed interval from `low` to `high`.
fn restrict(x: i32, low: i32, high: i32) -> (r: i32)
    requires
        low <= high,
    ensures
        r == clamp_int(x as int, low as int, high as int),
{
    if x < low {
        low
    } else if x > high {
        high
    } else {
        x
    }
}

/// The number nearest to `v` that fits in 32 bits.
fn narrow(v: i128) -> (r: i32)
    ensures
        r == clamp_int(v as int, i32::MIN as int, i32::MAX as int),
{
    if v < i32::MIN as i128 {
        i32::MIN
    } else if v > i32::MAX as i128 {
        i32::MAX
    } else {
        v as i32
    }
}

impl Clamp for Rgba {
    open spec fn level(&self) -> int {
        self.0 as int
    }

    open spec fn floor_of(channel: u8) -> int {
        0
    }

    open spec fn ceiling_of(channel: u8) -> int {
        255
    }

    fn clamp(&self, channel: u8) -> (r: Self) {
        Rgba(self.0)
    }
}

impl ColorValue for Rgba {
    open spec fn lowest() -> int {
        0
    }

    open spec fn highest() -> int {
        255
    }

    open spec fn unit() -> int {
        1
    }

    open spec fn of_level(v: int) -> Self {
        Rgba(v as u8)
    }

    proof fn lemma_level(x: Self) {
    }

    proof fn lemma_of_level(v: int) {
    }

    proof fn lemma_bounds() {
    }

    fn value(&self) -> (v: i64) {
        self.0 as i64
    }

    fn from_value(v: i128) -> (r: Self) {
        if v < 0 {
            Rgba(0)
        } else if v > 255 {
            Rgba(255)
        } else {
            Rgba(v as u8)
        }
    }

    fn from_u8(x: u8) -> (r: Self) {
        Rgba(x)
    }
}

impl Clamp for Hsla {
    open spec fn level(&self) -> int {
        self.0 as int
    }

    open spec fn floor_of(channel: u8) -> int {
        if channel == 0 {
            -180 * STEPS
        } else {
            0
        }
    }

    open spec fn ceiling_of(channel: u8) -> int {
        if channel == 0 {
            180 * STEPS
        } else {
            STEPS as int
        }
    }

    fn clamp(&self, channel: u8) -> (r: Self) {
        if channel == 0 {
            Hsla(restrict(self.0, -180 * STEPS, 180 * STEPS))
        } else {
            Hsla(restrict(self.0, 0, STEPS))
        }
    }
}

impl ColorValue for Hsla {
    open spec fn lowest() -> int {
        i32::MIN as int
    }

    open spec fn highest() -> int {
        i32::MAX as int
    }

    open spec fn unit() -> int {
        STEPS as int
    }

    open spec fn of_level(v: int) -> Self {
        Hsla(v as i32)
    }

    proof fn lemma_level(x: Self) {
    }

    proof fn lemma_of_level(v: int) {
    }

    proof fn lemma_bounds() {
    }

    fn value(&self) -> (v: i64) {
        self.0 as i64
    }

    fn from_value(v: i128) -> (r: Self) {
        Hsla(narrow(v))
    }

    fn from_u8(x: u8) -> (r: Self) {
        Hsla(x as i32 * STEPS)
    }
}

impl Clamp for Luva {
    open spec fn level(&self) -> int {
        self.0 as int
    }

    open spec fn floor_of(channel: u8) -> int {
        if channel == 0 {
            0
        } else if channel == 1 {
            -84 * STEPS
        } else {
            -135 * STEPS
        }
    }

    open spec fn ceiling_of(channel: u8) -> int {
        if channel == 0 {
            100 * STEPS
        } else if channel == 1 {
            176 * STEPS
        } else {
            108 * STEPS
        }
    }

    fn clamp(&self, channel: u8) -> (r: Self) {
        if channel == 0 {
            Luva(restrict(self.0, 0, 100 * STEPS))
        } else if channel == 1 {
            Luva(restrict(self.0, -84 * STEPS, 176 * STEPS))
        } else {
            Luva(restrict(self.0, -135 * STEPS, 108 * STEPS))
        }
    }
}

impl ColorValue for Luva {
    open spec fn lowest() -> int {
        i32::MIN as int
    }

    open spec fn highest() -> int {
        i32::MAX as int
    }

    open spec fn unit() -> int {
        STEPS as int
    }

    open spec fn of_level(v: int) -> Self {
        Luva(v as i32)
    }

    proof fn lemma_level(x: Self) {
    }

    proof fn lemma_of_level(v: int) {
    }

    proof fn lemma_bounds() {
    }

    fn value(&self) -> (v: i64) {
        self.0 as i64
    }

    fn from_value(v: i128) -> (r: Self) {
        Luva(narrow(v))
    }

    fn from_u8(x: u8) -> (r: Self) {
        Luva(x as i32 * STEPS)
    }
}

impl Rgba {
    /// The channel nearest to `x`: values below 0 become 0 and values above
    /// 255 become 255.
    pub fn saturate(x: i128) -> (r: Rgba)
        ensures
            r.0 == clamp_int(x as int, 0, 255),
    {
        if x < 0 {
            Rgba(0)
        } else if x > 255 {
            Rgba(255)
        } else {
            Rgba(x as u8)
        }
    }
}

impl core::ops::Add for Rgba {
    type Output = Rgba;

    fn add(self, other: Rgba) -> (r: Rgba) {
        Rgba(self.0 + other.0)
    }
}

impl vstd::std_specs::ops::AddSpecImpl for Rgba {
    open spec fn obeys_add_spec() -> bool {
        true
    }

    open spec fn add_req(self, other: Rgba) -> bool {
        self.0 + other.0 <= 255
    }

    open spec fn add_spec(self, other: Rgba) -> Rgba {
        Rgba((self.0 + other.0) as u8)
    }
}

impl core::ops::Sub for Rgba {
    type Output = Rgba;

    fn sub(self, other: Rgba) -> (r: Rgba) {
        Rgba(self.0 - other.0)
    }
}

impl vstd::std_specs::ops::SubSpecImpl for Rgba {
    open spec fn obeys_sub_spec() -> bool {
        true
    }

    open spec fn sub_req(self, other: Rgba) -> bool {
        self.0 >= other.0
    }

    open spec fn sub_spec(self, other: Rgba) -> Rgba {
        Rgba((self.0 - other.0) as u8)
    }
}

impl core::ops::Mul for Rgba {
    type Output = Rgba;

    fn mul(self, other: Rgba) -> (r: Rgba) {
        Rgba(self.0 * other.0)
    }
}

impl vstd::std_specs::ops::MulSpecImpl for Rgba {
    open spec fn obeys_mul_spec() -> bool {
        true
    }

    open spec fn mul_req(self, other: Rgba) -> bool {
        self.0 * other.0 <= 255
    }

    open spec fn mul_spec(self, other: Rgba) -> Rgba {
        Rgba((self.0 * other.0) as u8)
    }
}

impl core::ops::Div for Rgba {
    type Output = Rgba;

    fn div(self, other: Rgba) -> (r: Rgba) {
        Rgba(self.0 / other.0)
    }
}

impl vstd::std_specs::ops::DivSpecImpl for Rgba {
    open spec fn obeys_div_spec() -> bool {
        true
    }

    open spec fn div_req(self, other: Rgba) -> bool {
        other.0 != 0
    }

    open spec fn div_spec(self, other: Rgba) -> Rgba {
        Rgba(self.0 / other.0)
    }
}

impl From<u8> for Rgba {
    fn from(x: u8) -> (r: Rgba) {
        Rgba(x)
    }
}

impl vstd::std_specs::convert::FromSpecImpl<u8> for Rgba {
    open spec fn obeys_from_spec() -> bool {
        true
    }

    open spec fn from_spec(x: u8) -> Rgba {
        Rgba(x)
    }
}

} // verus!
