//! Decimal numbers as they are written in a kernel text.

use vstd::prelude::*;
use crate::text::{
    all_digits, digit_value, digits_value, is_digit, is_digit_char, lemma_position,
    lemma_position_is, position, pow10,
};

verus! {

/// The largest number of digits that a decimal number may hold.
pub const MAX_DIGITS: usize = 18;

/// A non-negative decimal number: `mantissa` divided by 10 to the power
/// `scale`.
#[derive(Debug, Clone, Copy, PartialEq, Eq, Structural)]
pub struct Decimal {
    pub mantissa: u64,
    pub scale: u8,
}

/// The digits of `t` before its decimal point.
pub open spec fn whole_part(t: Seq<char>) -> Seq<char> {
    t.subrange(0, position(t, '.'))
}

/// The digits of `t` after its decimal point; empty if it has none.
pub open spec fn fraction_part(t: Seq<char>) -> Seq<char> {
    let p = position(t, '.');
    if p < t.len() {
        t.subrange(p + 1, t.len() as int)
    } else {
        Seq::empty()
    }
}

/// `t` is a decimal number: digits with at most one decimal point among
/// them, at least one digit and at most `MAX_DIGITS`.
pub open spec fn is_number(t: Seq<char>) -> bool {
    &&& all_digits(whole_part(t))
    &&& all_digits(fraction_part(t))
    &&& 1 <= whole_part(t).len() + fraction_part(t).len() <= MAX_DIGITS
}

/// The decimal number that `t` writes, if it writes one.
pub open spec fn number_of(t: Seq<char>) -> Option<Decimal> {
    if is_number(t) {
        Some(
            Decimal {
                mantissa: digits_value(whole_part(t) + fraction_part(t)) as u64,
                scale: fraction_part(t).len() as u8,
            },
        )
    } else {
        None
    }
}

/// `pow10` on the exponents that fit in 64 bits.
pub proof fn lemma_pow10_values()
    ensures
        pow10(0) == 1,
        pow10(1) == 10,
        pow10(2) == 100,
        pow10(3) == 1_000,
        pow10(4) == 10_000,
        pow10(5) == 100_000,
        pow10(6) == 1_000_000,
        pow10(7) == 10_000_000,
        pow10(8) == 100_000_000,
        pow10(9) == 1_000_000_000,
        pow10(10) == 10_000_000_000,
        pow10(11) == 100_000_000_000,
        pow10(12) == 1_000_000_000_000,
        pow10(13) == 10_000_000_000_000,
        pow10(14) == 100_000_000_000_000,
        pow10(15) == 1_000_000_000_000_000,
        pow10(16) == 10_000_000_000_000_000,
        pow10(17) == 100_000_000_000_000_000,
        pow10(18) == 1_000_000_000_000_000_000,
{
    reveal_with_fuel(pow10, 20);
}

/// 10 to the power `n`, for an exponent within `MAX_DIGITS`.
pub fn ten_to(n: u8) -> (r: u64)
    requires
        n <= MAX_DIGITS,
    ensures
        r == pow10(n as nat),
        1 <= r <= 1_000_000_000_000_000_000,
{
    let mut r: u64 = 1;
    let mut i: u8 = 0;
    proof {
        lemma_pow10_values();
    }
    while i < n
        invariant
            i <= n <= MAX_DIGITS,
            r == pow10(i as nat),
            pow10(n as nat) <= 1_000_000_000_000_000_000,
            pow10(n as nat) == pow10((n - i) as nat) * pow10(i as nat),
        decreases n - i,
    {
        proof {
            lemma_pow10_split((n - i) as nat, i as nat);
            lemma_pow10_split((n - i - 1) as nat, (i + 1) as nat);
            assert(pow10((n - i) as nat) >= 10);
            assert(r * 10 <= pow10(n as nat)) by (nonlinear_arith)
                requires
                    pow10(n as nat) == pow10((n - i) as nat) * r,
                    pow10((n - i) as nat) >= 10,
                    r >= 0,
            ;
        }
        r = r * 10;
        i += 1;
    }
    r
}

/// Powers of ten multiply as their exponents add.
pub proof fn lemma_pow10_split(a: nat, b: nat)
    ensures
        pow10(a + b) == pow10(a) * pow10(b),
        pow10(a) >= 1,
    decreases a,
{
    if a == 0 {
        assert(pow10(0) == 1);
    } else {
        lemma_pow10_split((a - 1) as nat, b);
        assert(pow10(a + b) == 10 * pow10((a - 1 + b) as nat));
        assert(10 * (pow10((a - 1) as nat) * pow10(b)) == (10 * pow10((a - 1) as nat)) * pow10(b))
            by (nonlinear_arith);
    }
}

/// A string of `n` digits writes a number below 10 to the power `n`.
pub proof fn lemma_digits_value_bound(t: Seq<char>)
    ensures
        digits_value(t) < pow10(t.len()),
    decreases t.len(),
{
    if t.len() > 0 {
        lemma_digits_value_bound(t.drop_last());
    }
}

/// Powers of ten grow with their exponent.
pub proof fn lemma_pow10_grows(a: nat, b: nat)
    requires
        a <= b,
    ensures
        pow10(a) <= pow10(b),
    decreases b - a,
{
    if a < b {
        lemma_pow10_grows(a, (b - 1) as nat);
    }
}

/// A token that writes a number writes a well-formed one: the mantissa is
/// the number that its digits write, the scale the count of digits after
/// the point.
pub proof fn lemma_number_is_valid(t: Seq<char>)
    requires
        is_number(t),
    ensures
        number_of(t) is Some,
        number_of(t)->Some_0.wf(),
        number_of(t)->Some_0.mantissa == digits_value(whole_part(t) + fraction_part(t)),
        number_of(t)->Some_0.scale == fraction_part(t).len(),
{
    let digits = whole_part(t) + fraction_part(t);
    lemma_digits_value_bound(digits);
    lemma_pow10_grows(digits.len(), MAX_DIGITS as nat);
    lemma_pow10_values();
}

impl Decimal {
    /// Mantissa and scale stay within `MAX_DIGITS` digits.
    pub open spec fn wf(&self) -> bool {
        &&& self.scale <= MAX_DIGITS
        &&& self.mantissa < pow10(MAX_DIGITS as nat)
    }

    /// The whole part of the number: its value rounded down.
    pub open spec fn floor(&self) -> nat {
        self.mantissa as nat / pow10(self.scale as nat)
    }

    /// Whether mantissa and scale are within their limits.
    pub fn is_valid(&self) -> (b: bool)
        ensures
            b == self.wf(),
    {
        proof {
            lemma_pow10_values();
        }
        self.scale as usize <= MAX_DIGITS && self.mantissa < 1_000_000_000_000_000_000
    }

    /// Reads a decimal number from a token.
    pub fn parse(t: &Vec<char>) -> (r: Option<Decimal>)
        ensures
            r == number_of(t@),
            r is Some ==> r->Some_0.wf(),
    {
        let n: usize = t.len();
        let mut seen_dot: bool = false;
        let mut mantissa: u64 = 0;
        let mut digits: u8 = 0;
        let mut scale: u8 = 0;
        let ghost mut seen: Seq<char> = Seq::empty();
        let ghost mut dot: int = 0;
        let mut i: usize = 0;
        proof {
            lemma_position(t@, '.');
            lemma_pow10_values();
        }
        while i < n
            invariant
                i <= n,
                n == t@.len(),
                digits <= MAX_DIGITS,
                scale <= digits,
                all_digits(seen),
                seen.len() == digits,
                mantissa == digits_value(seen),
                mantissa < pow10(digits as nat),
                pow10(MAX_DIGITS as nat) == 1_000_000_000_000_000_000,
                !seen_dot ==> i <= position(t@, '.') && seen == t@.subrange(0, i as int) && scale
                    == 0,
                seen_dot ==> 0 <= dot == position(t@, '.') && dot < i && seen == t@.subrange(0, dot)
                    + t@.subrange(dot + 1, i as int) && scale == i - dot - 1,
            decreases n - i,
        {
            let c: char = t[i];
            proof {
                lemma_position(t@, '.');
            }
            if is_digit_char(c) {
                if digits as usize == MAX_DIGITS {
                    proof {
                        assert(whole_part(t@).len() + fraction_part(t@).len() > MAX_DIGITS);
                    }
                    return None;
                }
                let d: u8 = digit_value(c);
                proof {
                    let next = seen.push(c);
                    assert(next.drop_last() =~= seen);
                    lemma_pow10_split(1, digits as nat);
                    assert(pow10(1) == 10) by {
                        reveal_with_fuel(pow10, 2);
                    }
                    lemma_pow10_split((MAX_DIGITS - digits - 1) as nat, (digits + 1) as nat);
                    assert(pow10((digits + 1) as nat) <= pow10(MAX_DIGITS as nat)) by (nonlinear_arith)
                        requires
                            pow10(MAX_DIGITS as nat) == pow10((MAX_DIGITS - digits - 1) as nat)
                                * pow10((digits + 1) as nat),
                            pow10((MAX_DIGITS - digits - 1) as nat) >= 1,
                            pow10((digits + 1) as nat) >= 0,
                    ;
                    if seen_dot {
                        assert(next =~= t@.subrange(0, dot) + t@.subrange(dot + 1, i + 1));
                    } else {
                        assert(next =~= t@.subrange(0, i + 1));
                        if position(t@, '.') == i {
                            assert(t@[i as int] == '.');
                        }
                    }
                    seen = next;
                }
                mantissa = mantissa * 10 + d as u64;
                digits += 1;
                if seen_dot {
                    scale += 1;
                }
            } else if c == '.' {
                if seen_dot {
                    proof {
                        let frac = fraction_part(t@);
                        assert(frac[i - dot - 1] == '.');
                        assert(!is_digit(frac[i - dot - 1]));
                    }
                    return None;
                }
                proof {
                    lemma_position_is(t@, '.', i as int);
                    dot = i as int;
                    assert(t@.subrange(dot + 1, i + 1) =~= Seq::<char>::empty());
                    assert(seen =~= t@.subrange(0, dot) + t@.subrange(dot + 1, i + 1));
                }
                seen_dot = true;
            } else {
                proof {
                    let p = position(t@, '.');
                    if i < p {
                        assert(whole_part(t@)[i as int] == c);
                    } else {
                        assert(p < i);
                        assert(fraction_part(t@)[i - p - 1] == c);
                    }
                }
                return None;
            }
            i += 1;
        }
        proof {
            if seen_dot {
                assert(whole_part(t@) + fraction_part(t@) =~= seen);
                assert(fraction_part(t@).len() == scale);
            } else {
                assert(t@.subrange(0, n as int) =~= t@);
                assert(position(t@, '.') == n);
                assert(whole_part(t@) + fraction_part(t@) =~= seen);
            }
            assert forall|k: int| 0 <= k < whole_part(t@).len() implies is_digit(
                #[trigger] whole_part(t@)[k],
            ) by {
                assert(whole_part(t@)[k] == seen[k]);
            }
            assert forall|k: int| 0 <= k < fraction_part(t@).len() implies is_digit(
                #[trigger] fraction_part(t@)[k],
            ) by {
                assert(fraction_part(t@)[k] == seen[whole_part(t@).len() + k]);
            }
        }
        if digits == 0 {
            return None;
        }
        Some(Decimal { mantissa, scale })
    }

    /// The whole part of the number.
    pub fn whole(&self) -> (r: u64)
        requires
            self.wf(),
        ensures
            r == self.floor(),
    {
        self.mantissa / ten_to(self.scale)
    }
}

} // verus!
