//! Kernel weights as exact fractions.

use vstd::prelude::*;

verus! {

/// The largest side of a kernel.
pub const MAX_SIZE: usize = 65535;

/// The largest number of cells of a kernel: `MAX_SIZE` squared.
pub const MAX_AREA: usize = 4294836225;

/// The weights of a kernel as exact fractions over one common denominator:
/// cell `i` weighs `num[i] / den`.
#[derive(Debug)]
pub struct Weights {
    pub num: Vec<i64>,
    pub den: i64,
}

/// The sum of the numbers in `s`.
pub open spec fn sum_of(s: Seq<i64>) -> int
    decreases s.len(),
{
    if s.len() == 0 {
        0
    } else {
        sum_of(s.drop_last()) + s.last()
    }
}

impl Weights {
    /// The denominator is positive and the weights fit a kernel.
    pub open spec fn wf(&self) -> bool {
        &&& self.den > 0
        &&& self.num@.len() <= MAX_AREA
    }

    /// The weights add up to exactly one.
    pub open spec fn unit_sum(&self) -> bool {
        sum_of(self.num@) == self.den
    }

    /// Whether the denominator is positive and the weights fit a kernel.
    pub fn is_well_formed(&self) -> (b: bool)
        ensures
            b == self.wf(),
    {
        self.den > 0 && self.num.len() <= MAX_AREA
    }

    /// An independent copy of the weights.
    pub fn duplicate(&self) -> (r: Weights)
        ensures
            r.num@ == self.num@,
            r.den == self.den,
    {
        let mut num: Vec<i64> = Vec::new();
        let n: usize = self.num.len();
        let mut i: usize = 0;
        while i < n
            invariant
                i <= n,
                n == self.num@.len(),
                num@ == self.num@.subrange(0, i as int),
            decreases n - i,
        {
            num.push(self.num[i]);
            assert(num@ =~= self.num@.subrange(0, i + 1));
            i += 1;
        }
        assert(self.num@.subrange(0, n as int) =~= self.num@);
        Weights { num, den: self.den }
    }
}

/// Replacing one number changes the sum by the difference.
pub proof fn lemma_sum_update(s: Seq<i64>, i: int, v: i64)
    requires
        0 <= i < s.len(),
    ensures
        sum_of(s.update(i, v)) == sum_of(s) - s[i] + v,
    decreases s.len(),
{
    let t = s.update(i, v);
    if i == s.len() - 1 {
        assert(t.drop_last() =~= s.drop_last());
    } else {
        lemma_sum_update(s.drop_last(), i, v);
        assert(t.drop_last() =~= s.drop_last().update(i, v));
    }
}

/// A sum of zeros is zero.
pub proof fn lemma_sum_zero(s: Seq<i64>)
    requires
        forall|i: int| 0 <= i < s.len() ==> s[i] == 0,
    ensures
        sum_of(s) == 0,
    decreases s.len(),
{
    if s.len() > 0 {
        lemma_sum_zero(s.drop_last());
    }
}

/// `n` zeros.
pub fn zeros(n: usize) -> (v: Vec<i64>)
    ensures
        v@.len() == n,
        forall|i: int| 0 <= i < n ==> v@[i] == 0,
        sum_of(v@) == 0,
{
    let mut v: Vec<i64> = Vec::new();
    let mut i: usize = 0;
    while i < n
        invariant
            i <= n,
            v@.len() == i,
            forall|k: int| 0 <= k < i ==> v@[k] == 0,
        decreases n - i,
    {
        v.push(0);
        i += 1;
    }
    proof {
        lemma_sum_zero(v@);
    }
    v
}

} // verus!
