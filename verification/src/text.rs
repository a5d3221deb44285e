//! Characters, digits and the parts of a hyphen-separated text.

use vstd::prelude::*;

verus! {

/// The blank characters that are stripped from both ends of a token.
pub open spec fn is_space(c: char) -> bool {
    c == ' ' || c == '\t' || c == '\n' || c == '\r' || c == '\x0b' || c == '\x0c'
}

/// Whether the character is a blank.
pub fn is_space_char(c: char) -> (b: bool)
    ensures
        b == is_space(c),
{
    c == ' ' || c == '\t' || c == '\n' || c == '\r' || c == '\x0b' || c == '\x0c'
}

/// The character is one of the ten decimal digits.
pub open spec fn is_digit(c: char) -> bool {
    '0' <= c <= '9'
}

/// The number that a decimal digit stands for; 0 for any other character.
pub open spec fn digit_of(c: char) -> nat {
    if is_digit(c) {
        (c as int - '0' as int) as nat
    } else {
        0
    }
}

/// Every character of `t` is a decimal digit.
pub open spec fn all_digits(t: Seq<char>) -> bool {
    forall|i: int| 0 <= i < t.len() ==> is_digit(#[trigger] t[i])
}

/// The number written by a string of decimal digits, most significant first.
pub open spec fn digits_value(t: Seq<char>) -> nat
    decreases t.len(),
{
    if t.len() == 0 {
        0
    } else {
        digits_value(t.drop_last()) * 10 + digit_of(t.last())
    }
}

/// 10 to the power `n`.
pub open spec fn pow10(n: nat) -> nat
    decreases n,
{
    if n == 0 {
        1
    } else {
        10 * pow10((n - 1) as nat)
    }
}

/// Index of the first occurrence of `c` in `s`, or the length of `s` if
/// there is none.
pub open spec fn position(s: Seq<char>, c: char) -> int
    decreases s.len(),
{
    if s.len() == 0 || s[0] == c {
        0
    } else {
        1 + position(s.drop_first(), c)
    }
}

/// `s` without its leading blanks.
pub open spec fn skip_leading(s: Seq<char>) -> Seq<char>
    decreases s.len(),
{
    if s.len() > 0 && is_space(s[0]) {
        skip_leading(s.drop_first())
    } else {
        s
    }
}

/// `s` without its trailing blanks.
pub open spec fn skip_trailing(s: Seq<char>) -> Seq<char>
    decreases s.len(),
{
    if s.len() > 0 && is_space(s.last()) {
        skip_trailing(s.drop_last())
    } else {
        s
    }
}

/// `s` without the blanks at either end.
pub open spec fn trim(s: Seq<char>) -> Seq<char> {
    skip_trailing(skip_leading(s))
}

/// The pieces of `s` between its hyphens, in order. A string without a
/// hyphen is a single piece; two adjacent hyphens enclose an empty piece.
pub open spec fn split(s: Seq<char>) -> Seq<Seq<char>>
    decreases s.len(),
{
    let i = position(s, '-');
    if 0 <= i < s.len() {
        seq![s.subrange(0, i)] + split(s.subrange(i + 1, s.len() as int))
    } else {
        seq![s]
    }
}

/// The hyphen-separated pieces of `s`, each trimmed.
pub open spec fn tokens(s: Seq<char>) -> Seq<Seq<char>> {
    Seq::new(split(s).len(), |k: int| trim(split(s)[k]))
}

/// The strings that a list of tokens holds.
pub open spec fn views(parts: Seq<Vec<char>>) -> Seq<Seq<char>> {
    Seq::new(parts.len(), |k: int| parts[k]@)
}

/// `position` finds the first occurrence and nothing before it.
pub proof fn lemma_position(s: Seq<char>, c: char)
    ensures
        0 <= position(s, c) <= s.len(),
        position(s, c) < s.len() ==> s[position(s, c)] == c,
        forall|j: int| 0 <= j < position(s, c) ==> s[j] != c,
    decreases s.len(),
{
    if s.len() == 0 || s[0] == c {
    } else {
        lemma_position(s.drop_first(), c);
        let p = position(s.drop_first(), c);
        assert forall|j: int| 0 <= j < position(s, c) implies s[j] != c by {
            if j > 0 {
                assert(s.drop_first()[j - 1] == s[j]);
            }
        }
    }
}

/// An index with no `c` before it, and with `c` at it or at the end of the
/// string, is the position of `c`.
pub proof fn lemma_position_is(s: Seq<char>, c: char, k: int)
    requires
        0 <= k <= s.len(),
        forall|j: int| 0 <= j < k ==> s[j] != c,
        k < s.len() ==> s[k] == c,
    ensures
        position(s, c) == k,
{
    lemma_position(s, c);
    let p = position(s, c);
    if p < k {
        assert(s[p] == c);
    } else if p > k {
        assert(s[k] != c);
    }
}

/// Whether the character is a decimal digit.
pub fn is_digit_char(c: char) -> (b: bool)
    ensures
        b == is_digit(c),
{
    '0' <= c && c <= '9'
}

/// The value of a decimal digit.
pub fn digit_value(c: char) -> (d: u8)
    requires
        is_digit(c),
    ensures
        d == digit_of(c),
        d <= 9,
{
    ((c as u32) - ('0' as u32)) as u8
}

/// The characters of `s`.
pub fn chars_of(s: &str) -> (v: Vec<char>)
    ensures
        v@ == s@,
{
    let n: usize = s.unicode_len();
    let mut v: Vec<char> = Vec::new();
    let mut i: usize = 0;
    while i < n
        invariant
            i <= n,
            n == s@.len(),
            v@ == s@.subrange(0, i as int),
        decreases n - i,
    {
        let c: char = s.get_char(i);
        v.push(c);
        assert(v@ =~= s@.subrange(0, i + 1));
        i += 1;
    }
    assert(s@.subrange(0, n as int) =~= s@);
    v
}

/// Whether the token is exactly the text `lit`.
pub fn token_is(t: &Vec<char>, lit: &str) -> (b: bool)
    ensures
        b == (t@ == lit@),
{
    let n: usize = lit.unicode_len();
    if t.len() != n {
        return false;
    }
    let mut i: usize = 0;
    while i < n
        invariant
            i <= n,
            n == lit@.len(),
            n == t@.len(),
            forall|j: int| 0 <= j < i ==> t@[j] == lit@[j],
        decreases n - i,
    {
        if t[i] != lit.get_char(i) {
            return false;
        }
        i += 1;
    }
    assert(t@ =~= lit@);
    true
}

/// The characters of `s` from `from` up to `to`, without the blanks at
/// either end.
pub fn trim_range(s: &Vec<char>, from: usize, to: usize) -> (r: Vec<char>)
    requires
        from <= to <= s@.len(),
    ensures
        r@ == trim(s@.subrange(from as int, to as int)),
{
    let mut a: usize = from;
    while a < to && is_space_char(s[a])
        invariant
            from <= a <= to <= s@.len(),
            skip_leading(s@.subrange(from as int, to as int)) == skip_leading(
                s@.subrange(a as int, to as int),
            ),
        decreases to - a,
    {
        assert(s@.subrange(a as int, to as int).drop_first() =~= s@.subrange(a + 1, to as int));
        a += 1;
    }
    let mut b: usize = to;
    while b > a && is_space_char(s[b - 1])
        invariant
            a <= b <= to <= s@.len(),
            skip_trailing(s@.subrange(a as int, to as int)) == skip_trailing(
                s@.subrange(a as int, b as int),
            ),
        decreases b - a,
    {
        assert(s@.subrange(a as int, b as int).drop_last() =~= s@.subrange(a as int, b - 1));
        b -= 1;
    }
    let mut r: Vec<char> = Vec::new();
    let mut i: usize = a;
    while i < b
        invariant
            a <= i <= b <= s@.len(),
            r@ == s@.subrange(a as int, i as int),
        decreases b - i,
    {
        r.push(s[i]);
        assert(r@ =~= s@.subrange(a as int, i + 1));
        i += 1;
    }
    r
}

/// Cuts `s` at its hyphens and trims each piece.
pub fn tokenize(s: &Vec<char>) -> (r: Vec<Vec<char>>)
    ensures
        views(r@) == tokens(s@),
{
    let n: usize = s.len();
    let mut out: Vec<Vec<char>> = Vec::new();
    let ghost mut done: Seq<Seq<char>> = Seq::empty();
    let mut start: usize = 0;
    let mut i: usize = 0;
    assert(s@.subrange(0, n as int) =~= s@);
    while i < n
        invariant
            start <= i <= n,
            n == s@.len(),
            forall|j: int| start <= j < i ==> s@[j] != '-',
            split(s@) == done + split(s@.subrange(start as int, n as int)),
            out@.len() == done.len(),
            forall|k: int| 0 <= k < out@.len() ==> (#[trigger] out@[k])@ == trim(done[k]),
        decreases n - i,
    {
        if s[i] == '-' {
            let piece = trim_range(s, start, i);
            proof {
                let rest = s@.subrange(start as int, n as int);
                lemma_position_is(rest, '-', i - start);
                assert(rest.subrange(0, i - start) =~= s@.subrange(start as int, i as int));
                assert(rest.subrange(i - start + 1, rest.len() as int) =~= s@.subrange(
                    i + 1,
                    n as int,
                ));
                assert(done + (seq![s@.subrange(start as int, i as int)] + split(
                    s@.subrange(i + 1, n as int),
                )) =~= done.push(s@.subrange(start as int, i as int)) + split(
                    s@.subrange(i + 1, n as int),
                ));
                done = done.push(s@.subrange(start as int, i as int));
            }
            out.push(piece);
            start = i + 1;
        }
        i += 1;
    }
    let piece = trim_range(s, start, n);
    proof {
        let rest = s@.subrange(start as int, n as int);
        lemma_position_is(rest, '-', rest.len() as int);
        assert(done + seq![rest] =~= done.push(rest));
        done = done.push(rest);
    }
    out.push(piece);
    assert(views(out@) =~= tokens(s@));
    out
}

} // verus!
