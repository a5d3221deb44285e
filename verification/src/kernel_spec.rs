//! Reading a kernel text of the form `<size>-<kind>[-<argument>...]`.

use vstd::prelude::*;
use crate::decimal::{is_number, lemma_number_is_valid, number_of, Decimal};
use crate::library::KernelLibrary;
use crate::text::{
    all_digits, chars_of, digit_value, digits_value, is_digit, is_digit_char, token_is, tokenize,
    tokens, views,
};
use crate::weights::MAX_SIZE;

verus! {

/// The fixed aggregations, which read the window and nothing else.
#[derive(Debug, Clone, Copy, PartialEq, Eq, Structural)]
pub enum Aggregation {
    /// The focal sample, unchanged.
    Identity,
    /// The mean of the samples, channel by channel.
    Blur,
    /// The smallest sample of each channel.
    Min,
    /// The middle sample of each channel.
    Median,
    /// The largest sample of each channel.
    Max,
    /// The pixel whose channels are all zero.
    Inner,
}

/// The eight compass directions of an emboss kernel.
#[derive(Debug, Clone, Copy, PartialEq, Eq, Structural)]
pub enum Direction {
    N,
    S,
    E,
    W,
    NW,
    NE,
    SW,
    SE,
}

/// What a kernel text asks for, after its size.
#[derive(Debug, Clone, Copy, PartialEq, Eq)]
pub enum Kind {
    /// One of the fixed aggregations.
    Fixed(Aggregation),
    /// A line of the given length at the given angle in degrees.
    Motion(Decimal, Decimal),
    /// A Gaussian blur of the given sigma.
    GaussBlur(Decimal),
    /// A Gaussian sharpening of the given sigma.
    GaussSharpen(Decimal),
    /// The difference of two Gaussians, with its scale where one is given.
    Dog(Decimal, Decimal, Option<Decimal>),
    /// A gradient in the given direction.
    Emboss(Direction),
    /// The library entry at the given index.
    Named(usize),
}

/// A kernel text, read: the side of the window and the kind of kernel.
#[derive(Debug, Clone, Copy, PartialEq, Eq)]
pub struct KernelSpec {
    pub size: usize,
    pub kind: Kind,
}

/// Why a kernel text was rejected.
#[derive(Debug, Clone, Copy, PartialEq, Eq, Structural)]
pub enum ParseError {
    /// The text has fewer than two parts.
    TooFewParts,
    /// The size is empty or holds something other than digits.
    InvalidSize,
    /// The size is above `MAX_SIZE`.
    SizeTooLarge,
    /// The size is even.
    EvenSize,
    /// The kind needs more parts than the text has.
    MissingArgument,
    /// A numeric argument is not a decimal number.
    InvalidNumber,
    /// A sigma is zero.
    NonPositiveSigma,
    /// The length of a motion line is zero or exceeds the size.
    BadLength,
    /// The second part of a Gaussian kind is neither `blur` nor `sharpen`.
    UnknownGaussKind,
    /// The direction of an emboss is not one of the eight.
    UnknownDirection,
    /// The library holds no kernel of that name.
    UnknownKernel,
    /// The library's kernel of that name does not have size times size weights.
    SizeMismatch,
}

/// The size that a token writes: an odd number of at most `MAX_SIZE`.
pub open spec fn size_of(t: Seq<char>) -> Result<usize, ParseError> {
    if t.len() == 0 || !all_digits(t) {
        Err(ParseError::InvalidSize)
    } else if digits_value(t) > MAX_SIZE {
        Err(ParseError::SizeTooLarge)
    } else if digits_value(t) % 2 == 0 {
        Err(ParseError::EvenSize)
    } else {
        Ok(digits_value(t) as usize)
    }
}

/// `c` is the lower-case letter `letter` or its capital.
pub open spec fn is_letter(c: char, letter: char) -> bool {
    c == letter || c as int + 32 == letter as int
}

/// The direction that a token names, in either case.
pub open spec fn direction_of(t: Seq<char>) -> Option<Direction> {
    if t.len() == 1 {
        if is_letter(t[0], 'n') {
            Some(Direction::N)
        } else if is_letter(t[0], 's') {
            Some(Direction::S)
        } else if is_letter(t[0], 'e') {
            Some(Direction::E)
        } else if is_letter(t[0], 'w') {
            Some(Direction::W)
        } else {
            None
        }
    } else if t.len() == 2 {
        if is_letter(t[0], 'n') && is_letter(t[1], 'w') {
            Some(Direction::NW)
        } else if is_letter(t[0], 'n') && is_letter(t[1], 'e') {
            Some(Direction::NE)
        } else if is_letter(t[0], 's') && is_letter(t[1], 'w') {
            Some(Direction::SW)
        } else if is_letter(t[0], 's') && is_letter(t[1], 'e') {
            Some(Direction::SE)
        } else {
            None
        }
    } else {
        None
    }
}

/// The sigma that a token writes: a decimal number above zero.
pub open spec fn sigma_of(t: Seq<char>) -> Result<Decimal, ParseError> {
    match number_of(t) {
        None => Err(ParseError::InvalidNumber),
        Some(d) => if d.mantissa == 0 {
            Err(ParseError::NonPositiveSigma)
        } else {
            Ok(d)
        },
    }
}

/// A motion line: a length above zero whose whole part is at most the size,
/// and an angle.
pub open spec fn motion_of(size: usize, parts: Seq<Seq<char>>) -> Result<Kind, ParseError> {
    if parts.len() < 4 {
        Err(ParseError::MissingArgument)
    } else {
        match (number_of(parts[2]), number_of(parts[3])) {
            (Some(length), Some(angle)) => if length.mantissa == 0 || length.floor() > size {
                Err(ParseError::BadLength)
            } else {
                Ok(Kind::Motion(length, angle))
            },
            _ => Err(ParseError::InvalidNumber),
        }
    }
}

/// A Gaussian kernel: `blur` or `sharpen`, and a sigma.
pub open spec fn gauss_of(parts: Seq<Seq<char>>) -> Result<Kind, ParseError> {
    if parts.len() < 4 {
        Err(ParseError::MissingArgument)
    } else if parts[2] == "blur"@ {
        match sigma_of(parts[3]) {
            Ok(sigma) => Ok(Kind::GaussBlur(sigma)),
            Err(e) => Err(e),
        }
    } else if parts[2] == "sharpen"@ {
        match sigma_of(parts[3]) {
            Ok(sigma) => Ok(Kind::GaussSharpen(sigma)),
            Err(e) => Err(e),
        }
    } else {
        Err(ParseError::UnknownGaussKind)
    }
}

/// A difference of Gaussians: two sigmas and, where the text has a fifth
/// part, a scale.
pub open spec fn dog_of(parts: Seq<Seq<char>>) -> Result<Kind, ParseError> {
    if parts.len() < 4 {
        Err(ParseError::MissingArgument)
    } else {
        match sigma_of(parts[2]) {
            Err(e) => Err(e),
            Ok(sigma1) => match sigma_of(parts[3]) {
                Err(e) => Err(e),
                Ok(sigma2) => if parts.len() < 5 {
                    Ok(Kind::Dog(sigma1, sigma2, None))
                } else {
                    match number_of(parts[4]) {
                        None => Err(ParseError::InvalidNumber),
                        Some(scale) => Ok(Kind::Dog(sigma1, sigma2, Some(scale))),
                    }
                },
            },
        }
    }
}

/// An emboss kernel: one of the eight directions.
pub open spec fn emboss_of(parts: Seq<Seq<char>>) -> Result<Kind, ParseError> {
    if parts.len() < 3 {
        Err(ParseError::MissingArgument)
    } else {
        match direction_of(parts[2]) {
            Some(d) => Ok(Kind::Emboss(d)),
            None => Err(ParseError::UnknownDirection),
        }
    }
}

/// A kernel of the library: the first entry of that name, which must hold
/// size times size weights.
pub open spec fn named_of(
    size: usize,
    name: Seq<char>,
    names: Seq<Seq<char>>,
    lengths: Seq<nat>,
) -> Result<Kind, ParseError> {
    match names.index_of_first(name) {
        None => Err(ParseError::UnknownKernel),
        Some(i) => if lengths[i] != size * size {
            Err(ParseError::SizeMismatch)
        } else {
            Ok(Kind::Named(i as usize))
        },
    }
}

/// The kind that the parts after the size ask for.
pub open spec fn kind_of(
    size: usize,
    parts: Seq<Seq<char>>,
    names: Seq<Seq<char>>,
    lengths: Seq<nat>,
) -> Result<Kind, ParseError> {
    let word = parts[1];
    if word == "none"@ {
        Ok(Kind::Fixed(Aggregation::Identity))
    } else if word == "blur"@ {
        Ok(Kind::Fixed(Aggregation::Blur))
    } else if word == "min"@ {
        Ok(Kind::Fixed(Aggregation::Min))
    } else if word == "median"@ {
        Ok(Kind::Fixed(Aggregation::Median))
    } else if word == "max"@ {
        Ok(Kind::Fixed(Aggregation::Max))
    } else if word == "inner"@ {
        Ok(Kind::Fixed(Aggregation::Inner))
    } else if word == "motion"@ {
        motion_of(size, parts)
    } else if word == "gauss"@ {
        gauss_of(parts)
    } else if word == "dog"@ {
        dog_of(parts)
    } else if word == "emboss"@ {
        emboss_of(parts)
    } else {
        named_of(size, word, names, lengths)
    }
}

/// What the kernel text `s` asks for, given the names of the library's
/// entries and the number of weights of each.
pub open spec fn parse_of(s: Seq<char>, names: Seq<Seq<char>>, lengths: Seq<nat>) -> Result<
    KernelSpec,
    ParseError,
> {
    let parts = tokens(s);
    if parts.len() < 2 {
        Err(ParseError::TooFewParts)
    } else {
        match size_of(parts[0]) {
            Err(e) => Err(e),
            Ok(size) => match kind_of(size, parts, names, lengths) {
                Err(e) => Err(e),
                Ok(kind) => Ok(KernelSpec { size, kind }),
            },
        }
    }
}

/// A text that is read asks for a kernel that can be described: its size is
/// odd and within `MAX_SIZE`, its numbers are well-formed, a sigma is above
/// zero, and a motion line is above zero and no longer than the size.
pub proof fn lemma_parsed_is_valid(s: Seq<char>, names: Seq<Seq<char>>, lengths: Seq<nat>)
    requires
        parse_of(s, names, lengths) is Ok,
    ensures
        parse_of(s, names, lengths)->Ok_0.wf(),
{
    let parts = tokens(s);
    if is_number(parts[2]) {
        lemma_number_is_valid(parts[2]);
    }
    if is_number(parts[3]) {
        lemma_number_is_valid(parts[3]);
    }
    if is_number(parts[4]) {
        lemma_number_is_valid(parts[4]);
    }
}

/// Reads the size of a kernel.
pub fn parse_size(t: &Vec<char>) -> (r: Result<usize, ParseError>)
    ensures
        r == size_of(t@),
{
    let n: usize = t.len();
    if n == 0 {
        return Err(ParseError::InvalidSize);
    }
    let mut value: usize = 0;
    let mut too_large: bool = false;
    let mut i: usize = 0;
    while i < n
        invariant
            i <= n,
            n == t@.len(),
            all_digits(t@.subrange(0, i as int)),
            value <= MAX_SIZE,
            !too_large ==> value == digits_value(t@.subrange(0, i as int)),
            too_large ==> digits_value(t@.subrange(0, i as int)) > MAX_SIZE,
        decreases n - i,
    {
        let c: char = t[i];
        if !is_digit_char(c) {
            assert(!is_digit(t@[i as int]));
            return Err(ParseError::InvalidSize);
        }
        let d: u8 = digit_value(c);
        proof {
            assert(t@.subrange(0, i + 1).drop_last() =~= t@.subrange(0, i as int));
            assert(t@.subrange(0, i + 1).last() == c);
        }
        if !too_large {
            let next: usize = value * 10 + d as usize;
            if next > MAX_SIZE {
                too_large = true;
            } else {
                value = next;
            }
        }
        i += 1;
    }
    assert(t@.subrange(0, n as int) =~= t@);
    if too_large {
        Err(ParseError::SizeTooLarge)
    } else if value % 2 == 0 {
        Err(ParseError::EvenSize)
    } else {
        Ok(value)
    }
}

fn is_letter_char(c: char, letter: char) -> (b: bool)
    requires
        'a' <= letter <= 'z',
    ensures
        b == is_letter(c, letter),
{
    c == letter || (c as u32) + 32 == (letter as u32)
}

/// Reads the direction of an emboss kernel.
pub fn parse_direction(t: &Vec<char>) -> (r: Option<Direction>)
    ensures
        r == direction_of(t@),
{
    if t.len() == 1 {
        let a: char = t[0];
        if is_letter_char(a, 'n') {
            Some(Direction::N)
        } else if is_letter_char(a, 's') {
            Some(Direction::S)
        } else if is_letter_char(a, 'e') {
            Some(Direction::E)
        } else if is_letter_char(a, 'w') {
            Some(Direction::W)
        } else {
            None
        }
    } else if t.len() == 2 {
        let a: char = t[0];
        let b: char = t[1];
        if is_letter_char(a, 'n') && is_letter_char(b, 'w') {
            Some(Direction::NW)
        } else if is_letter_char(a, 'n') && is_letter_char(b, 'e') {
            Some(Direction::NE)
        } else if is_letter_char(a, 's') && is_letter_char(b, 'w') {
            Some(Direction::SW)
        } else if is_letter_char(a, 's') && is_letter_char(b, 'e') {
            Some(Direction::SE)
        } else {
            None
        }
    } else {
        None
    }
}

/// Reads a sigma.
pub fn parse_sigma(t: &Vec<char>) -> (r: Result<Decimal, ParseError>)
    ensures
        r == sigma_of(t@),
        r is Ok ==> r->Ok_0.wf(),
{
    match Decimal::parse(t) {
        None => Err(ParseError::InvalidNumber),
        Some(d) => if d.mantissa == 0 {
            Err(ParseError::NonPositiveSigma)
        } else {
            Ok(d)
        },
    }
}

fn parse_motion(size: usize, parts: &Vec<Vec<char>>) -> (r: Result<Kind, ParseError>)
    ensures
        r == motion_of(size, views(parts@)),
{
    if parts.len() < 4 {
        return Err(ParseError::MissingArgument);
    }
    assert(views(parts@)[2] == parts@[2]@);
    assert(views(parts@)[3] == parts@[3]@);
    let length = Decimal::parse(&parts[2]);
    let angle = Decimal::parse(&parts[3]);
    match (length, angle) {
        (Some(length), Some(angle)) => {
            if length.mantissa == 0 || length.whole() > size as u64 {
                Err(ParseError::BadLength)
            } else {
                Ok(Kind::Motion(length, angle))
            }
        },
        _ => Err(ParseError::InvalidNumber),
    }
}

fn parse_gauss(parts: &Vec<Vec<char>>) -> (r: Result<Kind, ParseError>)
    ensures
        r == gauss_of(views(parts@)),
{
    if parts.len() < 4 {
        return Err(ParseError::MissingArgument);
    }
    assert(views(parts@)[2] == parts@[2]@);
    assert(views(parts@)[3] == parts@[3]@);
    if token_is(&parts[2], "blur") {
        match parse_sigma(&parts[3]) {
            Ok(sigma) => Ok(Kind::GaussBlur(sigma)),
            Err(e) => Err(e),
        }
    } else if token_is(&parts[2], "sharpen") {
        match parse_sigma(&parts[3]) {
            Ok(sigma) => Ok(Kind::GaussSharpen(sigma)),
            Err(e) => Err(e),
        }
    } else {
        Err(ParseError::UnknownGaussKind)
    }
}

fn parse_dog(parts: &Vec<Vec<char>>) -> (r: Result<Kind, ParseError>)
    ensures
        r == dog_of(views(parts@)),
{
    if parts.len() < 4 {
        return Err(ParseError::MissingArgument);
    }
    assert(views(parts@)[2] == parts@[2]@);
    assert(views(parts@)[3] == parts@[3]@);
    let sigma1 = match parse_sigma(&parts[2]) {
        Ok(d) => d,
        Err(e) => {
            return Err(e);
        },
    };
    let sigma2 = match parse_sigma(&parts[3]) {
        Ok(d) => d,
        Err(e) => {
            return Err(e);
        },
    };
    if parts.len() < 5 {
        return Ok(Kind::Dog(sigma1, sigma2, None));
    }
    assert(views(parts@)[4] == parts@[4]@);
    match Decimal::parse(&parts[4]) {
        None => Err(ParseError::InvalidNumber),
        Some(scale) => Ok(Kind::Dog(sigma1, sigma2, Some(scale))),
    }
}

fn parse_emboss(parts: &Vec<Vec<char>>) -> (r: Result<Kind, ParseError>)
    ensures
        r == emboss_of(views(parts@)),
{
    if parts.len() < 3 {
        return Err(ParseError::MissingArgument);
    }
    assert(views(parts@)[2] == parts@[2]@);
    match parse_direction(&parts[2]) {
        Some(d) => Ok(Kind::Emboss(d)),
        None => Err(ParseError::UnknownDirection),
    }
}

fn parse_named(size: usize, name: &Vec<char>, library: &KernelLibrary) -> (r: Result<
    Kind,
    ParseError,
>)
    requires
        size <= MAX_SIZE,
    ensures
        r == named_of(size, name@, library.names(), library.lengths()),
{
    proof {
        library.names().index_of_first_ensures(name@);
    }
    match library.find(name) {
        None => Err(ParseError::UnknownKernel),
        Some(i) => {
            assert(size * size <= MAX_SIZE * MAX_SIZE) by (nonlinear_arith)
                requires
                    size <= MAX_SIZE,
            ;
            if library.entries[i].weights.num.len() != size * size {
                Err(ParseError::SizeMismatch)
            } else {
                Ok(Kind::Named(i))
            }
        },
    }
}

fn parse_kind(size: usize, parts: &Vec<Vec<char>>, library: &KernelLibrary) -> (r: Result<
    Kind,
    ParseError,
>)
    requires
        size <= MAX_SIZE,
        parts@.len() >= 2,
    ensures
        r == kind_of(size, views(parts@), library.names(), library.lengths()),
{
    assert(views(parts@)[1] == parts@[1]@);
    let word = &parts[1];
    if token_is(word, "none") {
        Ok(Kind::Fixed(Aggregation::Identity))
    } else if token_is(word, "blur") {
        Ok(Kind::Fixed(Aggregation::Blur))
    } else if token_is(word, "min") {
        Ok(Kind::Fixed(Aggregation::Min))
    } else if token_is(word, "median") {
        Ok(Kind::Fixed(Aggregation::Median))
    } else if token_is(word, "max") {
        Ok(Kind::Fixed(Aggregation::Max))
    } else if token_is(word, "inner") {
        Ok(Kind::Fixed(Aggregation::Inner))
    } else if token_is(word, "motion") {
        parse_motion(size, parts)
    } else if token_is(word, "gauss") {
        parse_gauss(parts)
    } else if token_is(word, "dog") {
        parse_dog(parts)
    } else if token_is(word, "emboss") {
        parse_emboss(parts)
    } else {
        parse_named(size, word, library)
    }
}

impl KernelSpec {
    /// The size is odd and within `MAX_SIZE`, the numbers are well-formed,
    /// a sigma is above zero, and the length of a motion line is above zero
    /// with a whole part of at most the size.
    pub open spec fn wf(&self) -> bool {
        &&& self.size % 2 == 1
        &&& self.size <= MAX_SIZE
        &&& match self.kind {
            Kind::Motion(length, angle) => {
                &&& length.wf()
                &&& angle.wf()
                &&& length.mantissa != 0
                &&& length.floor() <= self.size
            },
            Kind::GaussBlur(sigma) => sigma.wf() && sigma.mantissa != 0,
            Kind::GaussSharpen(sigma) => sigma.wf() && sigma.mantissa != 0,
            Kind::Dog(sigma1, sigma2, scale) => {
                &&& sigma1.wf()
                &&& sigma2.wf()
                &&& sigma1.mantissa != 0
                &&& sigma2.mantissa != 0
                &&& scale is Some ==> scale->Some_0.wf()
            },
            _ => true,
        }
    }

    /// Reads a kernel text of the form `<size>-<kind>[-<argument>...]`.
    /// Named kernels are looked up in `library`.
    pub fn from_str(s: &str, library: &KernelLibrary) -> (r: Result<KernelSpec, ParseError>)
        ensures
            r == parse_of(s@, library.names(), library.lengths()),
            r is Ok ==> r->Ok_0.wf(),
    {
        proof {
            if parse_of(s@, library.names(), library.lengths()) is Ok {
                lemma_parsed_is_valid(s@, library.names(), library.lengths());
            }
        }
        let chars = chars_of(s);
        let parts = tokenize(&chars);
        if parts.len() < 2 {
            return Err(ParseError::TooFewParts);
        }
        assert(views(parts@)[0] == parts@[0]@);
        let size = match parse_size(&parts[0]) {
            Ok(size) => size,
            Err(e) => {
                return Err(e);
            },
        };
        match parse_kind(size, &parts, library) {
            Ok(kind) => Ok(KernelSpec { size, kind }),
            Err(e) => Err(e),
        }
    }
}

} // verus!
