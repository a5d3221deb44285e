//! The directional emboss kernel.

use vstd::prelude::*;
use vstd::arithmetic::div_mod::lemma_fundamental_div_mod_converse;
use crate::function::{is_valid_size, lemma_area, valid_size, Function, KernelError};
use crate::kernel_spec::Direction;
use crate::weights::{Weights, MAX_SIZE};

verus! {

/// The step `(dx, dy)` that a direction takes, with y growing downwards.
pub open spec fn direction_vector(d: Direction) -> (int, int) {
    match d {
        Direction::N => (0, -1),
        Direction::S => (0, 1),
        Direction::E => (1, 0),
        Direction::W => (-1, 0),
        Direction::NW => (-1, -1),
        Direction::NE => (1, -1),
        Direction::SW => (-1, 1),
        Direction::SE => (1, 1),
    }
}

/// The size of a number.
pub open spec fn magnitude(x: int) -> int {
    if x < 0 {
        -x
    } else {
        x
    }
}

/// The largest size that a weight's numerator takes in an emboss kernel;
/// 1 where that would be 0.
pub open spec fn emboss_den(size: int, d: Direction) -> int {
    let v = direction_vector(d);
    let most = (magnitude(v.0) + magnitude(v.1)) * (size / 2);
    if most == 0 {
        1
    } else {
        most
    }
}

/// The numerator of cell `index` of an emboss kernel: minus the projection
/// of the cell's offset from the centre on the direction.
pub open spec fn emboss_num(size: int, d: Direction, index: int) -> int {
    let v = direction_vector(d);
    let c = size / 2;
    -((index % size - c) * v.0 + (index / size - c) * v.1)
}

/// `w` holds the weights of the emboss kernel of side `size` in direction
/// `d`.
pub open spec fn is_emboss(w: Weights, size: usize, d: Direction) -> bool {
    &&& w.den == emboss_den(size as int, d)
    &&& w.num@.len() == size * size
    &&& forall|index: int|
        0 <= index < size * size ==> w.num@[index] == emboss_num(size as int, d, index)
}

fn direction_step(d: Direction) -> (v: (i64, i64))
    ensures
        (v.0 as int, v.1 as int) == direction_vector(d),
{
    match d {
        Direction::N => (0, -1),
        Direction::S => (0, 1),
        Direction::E => (1, 0),
        Direction::W => (-1, 0),
        Direction::NW => (-1, -1),
        Direction::NE => (1, -1),
        Direction::SW => (-1, 1),
        Direction::SE => (1, 1),
    }
}

/// What building an emboss kernel gives: its weights, or the reason why
/// there are none.
pub open spec fn emboss_result(
    size: usize,
    direction: Direction,
    r: Result<Function, KernelError>,
) -> bool {
    match r {
        Ok(f) => {
            &&& valid_size(size)
            &&& f.wf()
            &&& f matches Function::Param(side, w)
            &&& side == size
            &&& is_emboss(w, size, direction)
        },
        Err(e) => e == KernelError::BadSize && !valid_size(size),
    }
}

impl Function {
    /// The directional gradient kernel of side `size`: each cell weighs
    /// minus the projection of its offset from the centre on the direction,
    /// scaled so that the largest weight is one.
    pub fn emboss_function(size: usize, direction: Direction) -> (r: Result<
        Function,
        KernelError,
    >)
        ensures
            emboss_result(size, direction, r),
    {
        if !is_valid_size(size) {
            return Err(KernelError::BadSize);
        }
        proof {
            lemma_area(size);
        }
        let side: i64 = size as i64;
        let c: i64 = side / 2;
        let (dx, dy) = direction_step(direction);
        let sum_abs: i64 = (if dx < 0 {
            -dx
        } else {
            dx
        }) + (if dy < 0 {
            -dy
        } else {
            dy
        });
        assert(0 <= sum_abs * c <= 2 * MAX_SIZE) by (nonlinear_arith)
            requires
                0 <= sum_abs <= 2,
                0 <= c <= MAX_SIZE,
        ;
        assert(sum_abs == magnitude(dx as int) + magnitude(dy as int));
        let most: i64 = sum_abs * c;
        let den: i64 = if most == 0 {
            1
        } else {
            most
        };
        let area: usize = size * size;
        let mut num: Vec<i64> = Vec::new();
        let mut row: i64 = 0;
        let mut col: i64 = 0;
        while num.len() < area
            invariant
                valid_size(size),
                side == size,
                c == side / 2,
                area == size * size,
                (dx as int, dy as int) == direction_vector(direction),
                0 <= col < side,
                0 <= row <= side,
                num@.len() == row * side + col,
                num@.len() <= area,
                forall|index: int|
                    0 <= index < num@.len() ==> num@[index] == emboss_num(
                        size as int,
                        direction,
                        index,
                    ),
            decreases area - num@.len(),
        {
            proof {
                let index = num@.len() as int;
                assert(row < side) by (nonlinear_arith)
                    requires
                        row * side + col < side * side,
                        0 <= col,
                        0 <= row <= side,
                ;
                assert(index == row * side + col);
                lemma_fundamental_div_mod_converse(index, side as int, row as int, col as int);
            }
            let ghost row_before = row;
            let ghost col_before = col;
            let rel_x: i64 = col - c;
            let rel_y: i64 = row - c;
            let dot: i64 = rel_x * dx + rel_y * dy;
            num.push(-dot);
            col += 1;
            if col == side {
                col = 0;
                row += 1;
            }
            assert(num@.len() == row * side + col) by (nonlinear_arith)
                requires
                    num@.len() == row_before * side + col_before + 1,
                    (row == row_before && col == col_before + 1) || (row == row_before + 1 && col
                        == 0 && col_before + 1 == side),
            ;
        }
        Ok(Function::Param(size, Weights { num, den }))
    }
}

} // verus!
