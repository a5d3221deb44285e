//! Rules over a block of cells.

use vstd::prelude::*;

verus! {

/// How many of the first `n` cells are alive.
pub open spec fn alive(cells: Seq<bool>, n: int) -> int
    decreases n,
{
    if n <= 0 {
        0
    } else {
        alive(cells, n - 1) + if cells[n - 1] {
            1int
        } else {
            0int
        }
    }
}

/// How many of the eight cells around the middle one are alive.
pub open spec fn live_neighbors(cells: Seq<bool>) -> int {
    alive(cells, 9) - if cells[4] {
        1int
    } else {
        0int
    }
}

/// The rule of the game of life: a live cell stays alive with two or
/// three live neighbours, and a dead cell comes alive with exactly three.
pub open spec fn next_state(cells: Seq<bool>) -> bool {
    if cells[4] {
        live_neighbors(cells) == 2 || live_neighbors(cells) == 3
    } else {
        live_neighbors(cells) == 3
    }
}

/// The next state of the middle cell of a three by three block of cells,
/// given row by row.
pub fn conways_rule(neighbors: [bool; 9]) -> (r: bool)
    ensures
        r == next_state(neighbors@),
{
    let center: bool = neighbors[4];
    let mut count: usize = 0;
    let mut i: usize = 0;
    while i < 9
        invariant
            i <= 9,
            count == alive(neighbors@, i as int),
            count <= i,
            i > 4 && neighbors@[4] ==> count >= 1,
        decreases 9 - i,
    {
        if neighbors[i] {
            count += 1;
        }
        i += 1;
    }
    let live: usize = if center {
        count - 1
    } else {
        count
    };
    if center {
        live == 2 || live == 3
    } else {
        live == 3
    }
}

} // verus!
