//! The library of classic kernels, looked up by name.

use vstd::prelude::*;
use crate::text::chars_of;
use crate::weights::Weights;

verus! {

/// A named set of kernel weights.
#[derive(Debug)]
pub struct KernelEntry {
    pub name: Vec<char>,
    pub weights: Weights,
}

/// The table in which a kernel is looked up by its name. Where a name
/// occurs more than once, the first entry counts.
#[derive(Debug)]
pub struct KernelLibrary {
    pub entries: Vec<KernelEntry>,
}

/// The number of kernels in the standard library.
pub const STANDARD_COUNT: usize = 30;

/// The name of entry `k` of the standard library.
pub open spec fn standard_name(k: int) -> Seq<char> {
    if k == 0 {
        "emboss"@
    } else if k == 1 {
        "kirsch_e"@
    } else if k == 2 {
        "kirsch_n"@
    } else if k == 3 {
        "kirsch_ne"@
    } else if k == 4 {
        "kirsch_nw"@
    } else if k == 5 {
        "kirsch_s"@
    } else if k == 6 {
        "kirsch_se"@
    } else if k == 7 {
        "kirsch_sw"@
    } else if k == 8 {
        "kirsch_w"@
    } else if k == 9 {
        "laplacian_4"@
    } else if k == 10 {
        "laplacian_8"@
    } else if k == 11 {
        "laplacian_8r"@
    } else if k == 12 {
        "prewitt_h"@
    } else if k == 13 {
        "prewitt_v"@
    } else if k == 14 {
        "robinson_e"@
    } else if k == 15 {
        "robinson_n"@
    } else if k == 16 {
        "robinson_ne"@
    } else if k == 17 {
        "robinson_nw"@
    } else if k == 18 {
        "robinson_s"@
    } else if k == 19 {
        "robinson_se"@
    } else if k == 20 {
        "robinson_sw"@
    } else if k == 21 {
        "robinson_w"@
    } else if k == 22 {
        "scharr_h"@
    } else if k == 23 {
        "scharr_v"@
    } else if k == 24 {
        "sharpen"@
    } else if k == 25 {
        "sharpen+"@
    } else if k == 26 {
        "sobel_h"@
    } else if k == 27 {
        "sobel_v"@
    } else if k == 28 {
        "unsharp_masking"@
    } else {
        "laplacian_og"@
    }
}

/// The numerators of entry `k` of the standard library, row by row.
pub open spec fn standard_num(k: int) -> Seq<i64> {
    if k == 0 {
        seq![-1i64, -1i64, 0i64, -1i64, 0i64, 1i64, 0i64, 1i64, 1i64]
    } else if k == 1 {
        seq![-3i64, -3i64, 5i64, -3i64, 0i64, 5i64, -3i64, -3i64, 5i64]
    } else if k == 2 {
        seq![5i64, 5i64, 5i64, -3i64, 0i64, -3i64, -3i64, -3i64, -3i64]
    } else if k == 3 {
        seq![-3i64, 5i64, 5i64, -3i64, 0i64, 5i64, -3i64, -3i64, -3i64]
    } else if k == 4 {
        seq![5i64, 5i64, -3i64, 5i64, 0i64, -3i64, -3i64, -3i64, -3i64]
    } else if k == 5 {
        seq![-3i64, -3i64, -3i64, -3i64, 0i64, -3i64, 5i64, 5i64, 5i64]
    } else if k == 6 {
        seq![-3i64, -3i64, -3i64, -3i64, 0i64, 5i64, -3i64, 5i64, 5i64]
    } else if k == 7 {
        seq![-3i64, -3i64, -3i64, 5i64, 0i64, -3i64, 5i64, 5i64, -3i64]
    } else if k == 8 {
        seq![5i64, -3i64, -3i64, 5i64, 0i64, -3i64, 5i64, -3i64, -3i64]
    } else if k == 9 {
        seq![0i64, 1i64, 0i64, 1i64, -4i64, 1i64, 0i64, 1i64, 0i64]
    } else if k == 10 {
        seq![1i64, 1i64, 1i64, 1i64, -8i64, 1i64, 1i64, 1i64, 1i64]
    } else if k == 11 {
        seq![-1i64, -1i64, -1i64, -1i64, 8i64, -1i64, -1i64, -1i64, -1i64]
    } else if k == 12 {
        seq![-1i64, 0i64, 1i64, -1i64, 0i64, 1i64, -1i64, 0i64, 1i64]
    } else if k == 13 {
        seq![-1i64, -1i64, -1i64, 0i64, 0i64, 0i64, 1i64, 1i64, 1i64]
    } else if k == 14 {
        seq![1i64, 0i64, -1i64, 2i64, 0i64, -2i64, 1i64, 0i64, -1i64]
    } else if k == 15 {
        seq![-1i64, -2i64, -1i64, 0i64, 0i64, 0i64, 1i64, 2i64, 1i64]
    } else if k == 16 {
        seq![0i64, -1i64, -2i64, 1i64, 0i64, -1i64, 2i64, 1i64, 0i64]
    } else if k == 17 {
        seq![-2i64, -1i64, 0i64, -1i64, 0i64, 1i64, 0i64, 1i64, 2i64]
    } else if k == 18 {
        seq![1i64, 2i64, 1i64, 0i64, 0i64, 0i64, -1i64, -2i64, -1i64]
    } else if k == 19 {
        seq![2i64, 1i64, 0i64, 1i64, 0i64, -1i64, 0i64, -1i64, -2i64]
    } else if k == 20 {
        seq![0i64, 1i64, 2i64, -1i64, 0i64, 1i64, -2i64, -1i64, 0i64]
    } else if k == 21 {
        seq![-1i64, 0i64, 1i64, -2i64, 0i64, 2i64, -1i64, 0i64, 1i64]
    } else if k == 22 {
        seq![-3i64, 0i64, 3i64, -10i64, 0i64, 10i64, -3i64, 0i64, 3i64]
    } else if k == 23 {
        seq![-3i64, -10i64, -3i64, 0i64, 0i64, 0i64, 3i64, 10i64, 3i64]
    } else if k == 24 {
        seq![0i64, -1i64, 0i64, -1i64, 5i64, -1i64, 0i64, -1i64, 0i64]
    } else if k == 25 {
        seq![-1i64, -1i64, -1i64, -1i64, 9i64, -1i64, -1i64, -1i64, -1i64]
    } else if k == 26 {
        seq![-1i64, 0i64, 1i64, -2i64, 0i64, 2i64, -1i64, 0i64, 1i64]
    } else if k == 27 {
        seq![-1i64, -2i64, -1i64, 0i64, 0i64, 0i64, 1i64, 2i64, 1i64]
    } else if k == 28 {
        seq![-1i64, -2i64, -1i64, -2i64, 28i64, -2i64, -1i64, -2i64, -1i64]
    } else {
        seq![
            0i64, 0i64, -1i64, 0i64, 0i64,
            0i64, -1i64, -2i64, -1i64, 0i64,
            -1i64, -2i64, 16i64, -2i64, -1i64,
            0i64, -1i64, -2i64, -1i64, 0i64,
            0i64, 0i64, -1i64, 0i64, 0i64,
        ]
    }
}

/// The denominator of entry `k` of the standard library.
pub open spec fn standard_den(k: int) -> i64 {
    if k == 28 {
        16
    } else {
        1
    }
}

/// Builds one entry from its parts.
fn entry(name: &str, num: Vec<i64>, den: i64) -> (e: KernelEntry)
    ensures
        e.name@ == name@,
        e.weights.num@ == num@,
        e.weights.den == den,
{
    KernelEntry { name: chars_of(name), weights: Weights { num, den } }
}

/// Entry `k` of the standard library.
fn standard_entry(k: usize) -> (e: KernelEntry)
    requires
        k < STANDARD_COUNT,
    ensures
        e.name@ == standard_name(k as int),
        e.weights.num@ =~= standard_num(k as int),
        e.weights.den == standard_den(k as int),
{
    if k == 0 {
        entry("emboss", vec![-1, -1, 0, -1, 0, 1, 0, 1, 1], 1)
    } else if k == 1 {
        entry("kirsch_e", vec![-3, -3, 5, -3, 0, 5, -3, -3, 5], 1)
    } else if k == 2 {
        entry("kirsch_n", vec![5, 5, 5, -3, 0, -3, -3, -3, -3], 1)
    } else if k == 3 {
        entry("kirsch_ne", vec![-3, 5, 5, -3, 0, 5, -3, -3, -3], 1)
    } else if k == 4 {
        entry("kirsch_nw", vec![5, 5, -3, 5, 0, -3, -3, -3, -3], 1)
    } else if k == 5 {
        entry("kirsch_s", vec![-3, -3, -3, -3, 0, -3, 5, 5, 5], 1)
    } else if k == 6 {
        entry("kirsch_se", vec![-3, -3, -3, -3, 0, 5, -3, 5, 5], 1)
    } else if k == 7 {
        entry("kirsch_sw", vec![-3, -3, -3, 5, 0, -3, 5, 5, -3], 1)
    } else if k == 8 {
        entry("kirsch_w", vec![5, -3, -3, 5, 0, -3, 5, -3, -3], 1)
    } else if k == 9 {
        entry("laplacian_4", vec![0, 1, 0, 1, -4, 1, 0, 1, 0], 1)
    } else if k == 10 {
        entry("laplacian_8", vec![1, 1, 1, 1, -8, 1, 1, 1, 1], 1)
    } else if k == 11 {
        entry("laplacian_8r", vec![-1, -1, -1, -1, 8, -1, -1, -1, -1], 1)
    } else if k == 12 {
        entry("prewitt_h", vec![-1, 0, 1, -1, 0, 1, -1, 0, 1], 1)
    } else if k == 13 {
        entry("prewitt_v", vec![-1, -1, -1, 0, 0, 0, 1, 1, 1], 1)
    } else if k == 14 {
        entry("robinson_e", vec![1, 0, -1, 2, 0, -2, 1, 0, -1], 1)
    } else if k == 15 {
        entry("robinson_n", vec![-1, -2, -1, 0, 0, 0, 1, 2, 1], 1)
    } else if k == 16 {
        entry("robinson_ne", vec![0, -1, -2, 1, 0, -1, 2, 1, 0], 1)
    } else if k == 17 {
        entry("robinson_nw", vec![-2, -1, 0, -1, 0, 1, 0, 1, 2], 1)
    } else if k == 18 {
        entry("robinson_s", vec![1, 2, 1, 0, 0, 0, -1, -2, -1], 1)
    } else if k == 19 {
        entry("robinson_se", vec![2, 1, 0, 1, 0, -1, 0, -1, -2], 1)
    } else if k == 20 {
        entry("robinson_sw", vec![0, 1, 2, -1, 0, 1, -2, -1, 0], 1)
    } else if k == 21 {
        entry("robinson_w", vec![-1, 0, 1, -2, 0, 2, -1, 0, 1], 1)
    } else if k == 22 {
        entry("scharr_h", vec![-3, 0, 3, -10, 0, 10, -3, 0, 3], 1)
    } else if k == 23 {
        entry("scharr_v", vec![-3, -10, -3, 0, 0, 0, 3, 10, 3], 1)
    } else if k == 24 {
        entry("sharpen", vec![0, -1, 0, -1, 5, -1, 0, -1, 0], 1)
    } else if k == 25 {
        entry("sharpen+", vec![-1, -1, -1, -1, 9, -1, -1, -1, -1], 1)
    } else if k == 26 {
        entry("sobel_h", vec![-1, 0, 1, -2, 0, 2, -1, 0, 1], 1)
    } else if k == 27 {
        entry("sobel_v", vec![-1, -2, -1, 0, 0, 0, 1, 2, 1], 1)
    } else if k == 28 {
        entry("unsharp_masking", vec![-1, -2, -1, -2, 28, -2, -1, -2, -1], 16)
    } else {
        entry(
            "laplacian_og",
            vec![
                0, 0, -1, 0, 0,
                0, -1, -2, -1, 0,
                -1, -2, 16, -2, -1,
                0, -1, -2, -1, 0,
                0, 0, -1, 0, 0,
            ],
            1,
        )
    }
}

impl KernelLibrary {
    /// The names of the entries, in order.
    pub open spec fn names(&self) -> Seq<Seq<char>> {
        Seq::new(self.entries@.len(), |k: int| self.entries@[k].name@)
    }

    /// The number of weights of each entry, in order.
    pub open spec fn lengths(&self) -> Seq<nat> {
        Seq::new(self.entries@.len(), |k: int| self.entries@[k].weights.num@.len())
    }

    /// Every entry has weights that a kernel can carry.
    pub open spec fn wf(&self) -> bool {
        forall|k: int| 0 <= k < self.entries@.len() ==> (#[trigger] self.entries@[k]).weights.wf()
    }

    /// A library without entries.
    pub fn new() -> (lib: Self)
        ensures
            lib.entries@.len() == 0,
            lib.wf(),
    {
        KernelLibrary { entries: Vec::new() }
    }

    /// The classic edge-detection and sharpening kernels.
    pub fn standard() -> (lib: Self)
        ensures
            lib.wf(),
            lib.entries@.len() == STANDARD_COUNT,
            forall|k: int|
                0 <= k < STANDARD_COUNT ==> {
                    &&& (#[trigger] lib.entries@[k]).name@ == standard_name(k)
                    &&& lib.entries@[k].weights.num@ == standard_num(k)
                    &&& lib.entries@[k].weights.den == standard_den(k)
                },
    {
        let mut entries: Vec<KernelEntry> = Vec::new();
        let mut k: usize = 0;
        while k < STANDARD_COUNT
            invariant
                k <= STANDARD_COUNT,
                entries@.len() == k,
                forall|j: int|
                    0 <= j < k ==> {
                        &&& (#[trigger] entries@[j]).name@ == standard_name(j)
                        &&& entries@[j].weights.num@ == standard_num(j)
                        &&& entries@[j].weights.den == standard_den(j)
                        &&& entries@[j].weights.wf()
                    },
            decreases STANDARD_COUNT - k,
        {
            let e = standard_entry(k);
            entries.push(e);
            k += 1;
        }
        KernelLibrary { entries }
    }

    /// Index of the first entry called `name`, if there is one.
    pub fn find(&self, name: &Vec<char>) -> (r: Option<usize>)
        ensures
            match r {
                Some(i) => self.names().index_of_first(name@) == Some(i as int),
                None => self.names().index_of_first(name@) is None,
            },
    {
        let n: usize = self.entries.len();
        let mut i: usize = 0;
        proof {
            self.names().index_of_first_ensures(name@);
        }
        while i < n
            invariant
                i <= n,
                n == self.entries@.len(),
                forall|j: int| 0 <= j < i ==> self.names()[j] != name@,
            decreases n - i,
        {
            if same_chars(&self.entries[i].name, name) {
                proof {
                    assert(self.names()[i as int] == name@);
                    assert(self.names().contains(name@));
                    self.names().index_of_first_ensures(name@);
                }
                return Some(i);
            }
            assert(self.names()[i as int] != name@);
            i += 1;
        }
        proof {
            if self.names().contains(name@) {
                let j = choose|j: int| 0 <= j < self.names().len() && self.names()[j] == name@;
                assert(self.names()[j] != name@);
            }
        }
        None
    }

    /// Where an entry called `name` goes: the place of the first entry of
    /// that name, or the end of the table if there is none.
    pub open spec fn slot_of(&self, name: Seq<char>) -> int {
        match self.names().index_of_first(name) {
            Some(i) => i,
            None => self.entries@.len() as int,
        }
    }

    /// Gives `name` the weights `weights`: the first entry of that name is
    /// replaced, and where there is none a new entry is added at the end.
    /// The other entries stay as they are.
    pub fn insert(&mut self, name: &str, weights: Weights)
        ensures
            0 <= old(self).slot_of(name@) <= old(self).entries@.len(),
            final(self).entries@.len() == if old(self).slot_of(name@) < old(self).entries@.len() {
                old(self).entries@.len()
            } else {
                old(self).entries@.len() + 1
            },
            final(self).entries@[old(self).slot_of(name@)].name@ == name@,
            final(self).entries@[old(self).slot_of(name@)].weights == weights,
            forall|k: int|
                0 <= k < old(self).entries@.len() && k != old(self).slot_of(name@)
                    ==> final(self).entries@[k] == old(self).entries@[k],
            old(self).wf() && weights.wf() ==> final(self).wf(),
    {
        let chars = chars_of(name);
        let found = self.find(&chars);
        let e = KernelEntry { name: chars, weights };
        proof {
            old(self).names().index_of_first_ensures(name@);
        }
        match found {
            Some(i) => {
                self.entries[i] = e;
            },
            None => {
                self.entries.push(e);
            },
        }
    }
}

/// Whether two strings of characters are equal.
pub fn same_chars(a: &Vec<char>, b: &Vec<char>) -> (r: bool)
    ensures
        r == (a@ == b@),
{
    if a.len() != b.len() {
        return false;
    }
    let n: usize = a.len();
    let mut i: usize = 0;
    while i < n
        invariant
            i <= n,
            n == a@.len(),
            n == b@.len(),
            forall|j: int| 0 <= j < i ==> a@[j] == b@[j],
        decreases n - i,
    {
        if a[i] != b[i] {
            return false;
        }
        i += 1;
    }
    assert(a@ =~= b@);
    true
}

} // verus!
