//! The motion-blur kernel: a rasterized line from the centre of the kernel.

use vstd::prelude::*;
use vstd::arithmetic::div_mod::lemma_fundamental_div_mod_converse;
use crate::decimal::Decimal;
use crate::function::{is_valid_size, lemma_area, valid_size, Function, KernelError};
use crate::weights::{lemma_sum_update, sum_of, zeros, Weights, MAX_SIZE};

verus! {

/// The distance between two coordinates.
pub open spec fn distance(a: int, b: int) -> int {
    if a <= b {
        b - a
    } else {
        a - b
    }
}

/// The coordinate `n` cells away from `from`, on the side of `to`.
pub open spec fn advance(from: int, to: int, n: int) -> int {
    if from < to {
        from + n
    } else {
        from - n
    }
}

/// How far a line has moved along its minor axis after `k` cells along its
/// major axis: `k * minor / major`, rounded to the nearest whole number, a
/// half rounded up.
pub open spec fn minor_steps(k: int, minor: int, major: int) -> int {
    (2 * minor * k + major) / (2 * major)
}

/// The number of steps of the line from `(c, c)` to `(x1, y1)`: the longer
/// of its two extents.
pub open spec fn line_steps(c: int, x1: int, y1: int) -> int {
    if distance(c, x1) >= distance(c, y1) {
        distance(c, x1)
    } else {
        distance(c, y1)
    }
}

/// Cell number `k` of the rasterized line from `(c, c)` to `(x1, y1)`, as
/// `(x, y)`. Each cell lies one further along the major axis than the one
/// before, and as close to the true line as a cell can.
pub open spec fn line_point(c: int, x1: int, y1: int, k: int) -> (int, int) {
    let dx = distance(c, x1);
    let dy = distance(c, y1);
    if dx >= dy {
        if dx == 0 {
            (c, c)
        } else {
            (advance(c, x1, k), advance(c, y1, minor_steps(k, dy, dx)))
        }
    } else {
        (advance(c, x1, minor_steps(k, dx, dy)), advance(c, y1, k))
    }
}

/// The point lies inside the square of side `size`.
pub open spec fn inside(p: (int, int), size: int) -> bool {
    0 <= p.0 < size && 0 <= p.1 < size
}

/// The row-major index of a point in the square of side `size`.
pub open spec fn cell_of(p: (int, int), size: int) -> int {
    p.1 * size + p.0
}

/// Cell `index` of the square is one of the first `upto` cells of the line.
pub open spec fn lit(c: int, x1: int, y1: int, size: int, upto: int, index: int) -> bool {
    exists|k: int|
        0 <= k < upto && inside(#[trigger] line_point(c, x1, y1, k), size) && cell_of(
            line_point(c, x1, y1, k),
            size,
        ) == index
}

/// How many of the first `upto` cells of the line lie inside the square.
pub open spec fn hits(c: int, x1: int, y1: int, size: int, upto: int) -> int
    decreases upto,
{
    if upto <= 0 {
        0
    } else {
        hits(c, x1, y1, size, upto - 1) + if inside(line_point(c, x1, y1, upto - 1), size) {
            1int
        } else {
            0int
        }
    }
}

/// A quotient is known from the two multiples that enclose the dividend.
proof fn lemma_minor_steps(k: int, minor: int, major: int, q: int)
    requires
        major > 0,
        2 * major * q <= 2 * minor * k + major < 2 * major * (q + 1),
    ensures
        minor_steps(k, minor, major) == q,
{
    let x = 2 * minor * k + major;
    let d = 2 * major;
    let r = x - d * q;
    assert(d * (q + 1) == d * q + d) by (nonlinear_arith);
    assert(x == q * d + r) by (nonlinear_arith)
        requires
            r == x - d * q,
    ;
    lemma_fundamental_div_mod_converse(x, d, q, r);
}

/// One step of the line: whether it moves along the minor axis, and that
/// it stays within the minor extent.
proof fn lemma_line_step(major: int, minor: int, k: int, q: int)
    requires
        0 <= minor <= major,
        major > 0,
        0 <= k < major,
        2 * major * q <= 2 * minor * k + major < 2 * major * (q + 1),
    ensures
        0 <= q <= minor,
        2 * major * (q + 1) <= 2 * minor * (k + 1) + major ==> q + 1 <= minor && 2 * minor * (k
            + 1) + major < 2 * major * (q + 2),
        2 * major * q <= 2 * minor * (k + 1) + major,
        2 * major * (q + 1) == 2 * major * q + 2 * major,
        2 * major * (q + 2) == 2 * major * q + 4 * major,
        2 * minor * (k + 1) == 2 * minor * k + 2 * minor,
{
    assert(2 * major * (q + 1) == 2 * major * q + 2 * major) by (nonlinear_arith);
    assert(2 * major * (q + 2) == 2 * major * q + 4 * major) by (nonlinear_arith);
    assert(2 * minor * (k + 1) == 2 * minor * k + 2 * minor) by (nonlinear_arith);
    assert(0 <= 2 * minor * k) by (nonlinear_arith)
        requires
            0 <= minor,
            0 <= k,
    ;
    assert(q >= 0) by (nonlinear_arith)
        requires
            0 < 2 * major * (q + 1),
            major > 0,
    ;
    assert(2 * minor * (k + 1) <= 2 * minor * major) by (nonlinear_arith)
        requires
            0 <= minor,
            k + 1 <= major,
    ;
    assert(q <= minor) by (nonlinear_arith)
        requires
            2 * major * q <= 2 * minor * major + major,
            major > 0,
    ;
    if 2 * major * (q + 1) <= 2 * minor * (k + 1) + major {
        assert(q + 1 <= minor) by (nonlinear_arith)
            requires
                2 * major * (q + 1) <= 2 * minor * major + major,
                major > 0,
        ;
    }
}

/// At the last step the line has covered its whole minor extent.
proof fn lemma_line_end(major: int, minor: int, q: int)
    requires
        0 <= minor <= major,
        major > 0,
        2 * major * q <= 2 * minor * major + major < 2 * major * (q + 1),
    ensures
        q == minor,
{
    assert(q <= minor) by (nonlinear_arith)
        requires
            2 * major * q <= 2 * minor * major + major,
            major > 0,
    ;
    assert(q + 1 > minor) by (nonlinear_arith)
        requires
            2 * minor * major + major < 2 * major * (q + 1),
            major > 0,
    ;
}

/// Two points inside the square that share a cell are the same point.
proof fn lemma_cell_unique(p: (int, int), q: (int, int), size: int)
    requires
        inside(p, size),
        inside(q, size),
        cell_of(p, size) == cell_of(q, size),
    ensures
        p == q,
{
    lemma_fundamental_div_mod_converse(cell_of(p, size), size, p.1, p.0);
    lemma_fundamental_div_mod_converse(cell_of(q, size), size, q.1, q.0);
}

/// The cell of a point inside the square is a cell of the square.
proof fn lemma_cell_in_range(p: (int, int), size: int)
    requires
        inside(p, size),
    ensures
        0 <= p.1 * size,
        0 <= cell_of(p, size) < size * size,
{
    assert(0 <= p.1 * size && p.1 * size + size <= size * size) by (nonlinear_arith)
        requires
            0 <= p.1 < size,
    ;
}

/// Cell `k` of the line differs from every cell before it.
proof fn lemma_line_distinct(c: int, x1: int, y1: int, k: int, earlier: int)
    requires
        0 <= earlier < k <= line_steps(c, x1, y1),
    ensures
        line_point(c, x1, y1, earlier) != line_point(c, x1, y1, k),
{
}

/// The error term of the stepping rule stays small.
proof fn lemma_error_bound(dx: int, dy: int, i: int, j: int, limit: int)
    requires
        0 <= i <= dx <= limit,
        0 <= j <= dy <= limit,
    ensures
        -(limit * (limit + 1)) <= dx * (1 + j) - dy * (1 + i) <= limit * (limit + 1),
{
    assert(0 <= dx * (1 + j) <= limit * (limit + 1)) by (nonlinear_arith)
        requires
            0 <= dx <= limit,
            0 <= j <= limit,
    ;
    assert(0 <= dy * (1 + i) <= limit * (limit + 1)) by (nonlinear_arith)
        requires
            0 <= dy <= limit,
            0 <= i <= limit,
    ;
}

/// The multiples of `2 * major` that enclose the dividend of `minor_steps`.
proof fn lemma_minor_steps_enclosed(k: int, minor: int, major: int)
    requires
        major > 0,
    ensures
        2 * major * minor_steps(k, minor, major) <= 2 * minor * k + major < 2 * major * (
        minor_steps(k, minor, major) + 1),
{
    let x = 2 * minor * k + major;
    let d = 2 * major;
    vstd::arithmetic::div_mod::lemma_fundamental_div_mod(x, d);
    vstd::arithmetic::div_mod::lemma_mod_bound(x, d);
    assert(d * (x / d + 1) == d * (x / d) + d) by (nonlinear_arith);
}

/// The rasterized line starts in the centre.
pub proof fn lemma_line_starts_at_centre(c: int, x1: int, y1: int)
    ensures
        line_point(c, x1, y1, 0) == (c, c),
{
    let dx = distance(c, x1);
    let dy = distance(c, y1);
    if dx >= dy && dx > 0 {
        assert(2 * dx * 0 <= 2 * dy * 0 + dx < 2 * dx * (0 + 1)) by (nonlinear_arith)
            requires
                dx > 0,
        ;
        lemma_minor_steps(0, dy, dx, 0);
    }
    if dx < dy {
        assert(2 * dy * 0 <= 2 * dx * 0 + dy < 2 * dy * (0 + 1)) by (nonlinear_arith)
            requires
                dy > 0,
        ;
        lemma_minor_steps(0, dx, dy, 0);
    }
}

/// The rasterized line ends in the cell it was drawn to.
pub proof fn lemma_line_reaches_end(c: int, x1: int, y1: int)
    ensures
        line_point(c, x1, y1, line_steps(c, x1, y1)) == (x1, y1),
{
    let dx = distance(c, x1);
    let dy = distance(c, y1);
    if dx >= dy && dx > 0 {
        assert(2 * dx * dy <= 2 * dy * dx + dx < 2 * dx * (dy + 1)) by (nonlinear_arith)
            requires
                dx > 0,
        ;
        lemma_minor_steps(dx, dy, dx, dy);
    }
    if dx < dy {
        assert(2 * dy * dx <= 2 * dx * dy + dy < 2 * dy * (dx + 1)) by (nonlinear_arith)
            requires
                dy > 0,
        ;
        lemma_minor_steps(dy, dx, dy, dx);
    }
}

/// Each cell of the rasterized line touches the one before it: it lies
/// one cell further along the longer extent of the line, and at most one
/// cell further along the other.
pub proof fn lemma_line_is_connected(c: int, x1: int, y1: int, k: int)
    requires
        0 <= k < line_steps(c, x1, y1),
    ensures
        ({
            let p = line_point(c, x1, y1, k);
            let q = line_point(c, x1, y1, k + 1);
            &&& distance(p.0, q.0) <= 1
            &&& distance(p.1, q.1) <= 1
            &&& distance(p.0, q.0) == 1 || distance(p.1, q.1) == 1
        }),
{
    let dx = distance(c, x1);
    let dy = distance(c, y1);
    if dx >= dy {
        let q = minor_steps(k, dy, dx);
        lemma_minor_steps_enclosed(k, dy, dx);
        lemma_line_step(dx, dy, k, q);
        if 2 * dx * (q + 1) <= 2 * dy * (k + 1) + dx {
            lemma_minor_steps(k + 1, dy, dx, q + 1);
        } else {
            lemma_minor_steps(k + 1, dy, dx, q);
        }
    } else {
        let q = minor_steps(k, dx, dy);
        lemma_minor_steps_enclosed(k, dx, dy);
        lemma_line_step(dy, dx, k, q);
        if 2 * dy * (q + 1) <= 2 * dx * (k + 1) + dy {
            lemma_minor_steps(k + 1, dx, dy, q + 1);
        } else {
            lemma_minor_steps(k + 1, dx, dy, q);
        }
    }
}

/// A line drawn along the centre row stays in that row.
pub proof fn lemma_line_along_row(c: int, x1: int, k: int)
    requires
        0 <= k <= line_steps(c, x1, c),
    ensures
        line_point(c, x1, c, k) == (advance(c, x1, k), c),
{
    let dx = distance(c, x1);
    if dx > 0 {
        assert(2 * dx * 0 <= 2 * 0 * k + dx < 2 * dx * (0 + 1)) by (nonlinear_arith)
            requires
                dx > 0,
        ;
        lemma_minor_steps(k, 0, dx, 0);
    }
}

/// Of a line drawn from the centre to the right along the centre row,
/// the cells inside the kernel are those up to its right edge.
pub proof fn lemma_hits_along_row(c: int, x1: int, size: int, upto: int)
    requires
        size >= 1,
        size % 2 == 1,
        c == size / 2,
        x1 >= c,
        0 <= upto <= x1 - c + 1,
    ensures
        hits(c, x1, c, size, upto) == if upto <= size - c {
            upto
        } else {
            size - c
        },
    decreases upto,
{
    if upto > 0 {
        lemma_hits_along_row(c, x1, size, upto - 1);
        lemma_line_along_row(c, x1, upto - 1);
    }
}

/// The line keeps to its closed form: `i` and `j` count the cells moved along
/// x and y after `k` steps.
pub open spec fn on_track(dx: int, dy: int, k: int, i: int, j: int) -> bool {
    &&& 0 <= i <= dx
    &&& 0 <= j <= dy
    &&& dx >= dy && dx > 0 ==> i == k && 2 * dx * j <= 2 * dy * k + dx < 2 * dx * (j + 1)
    &&& dx < dy ==> j == k && 2 * dy * i <= 2 * dx * k + dy < 2 * dy * (i + 1)
    &&& dx == 0 && dy == 0 ==> i == 0 && j == 0 && k == 0
}

/// The error term that belongs to `i` cells along x and `j` cells along y.
pub open spec fn error_at(dx: int, dy: int, i: int, j: int) -> int {
    dx * (1 + j) - dy * (1 + i)
}

/// One round of the stepping rule takes a line that is on track after `k`
/// steps to one that is on track after `k + 1`.
proof fn lemma_stepping(dx: int, dy: int, k: int, i: int, j: int)
    requires
        0 <= dx,
        0 <= dy,
        0 <= k,
        k < dx || k < dy,
        on_track(dx, dy, k, i, j),
    ensures
        ({
            let e2 = 2 * error_at(dx, dy, i, j);
            let i2 = if e2 >= -dy { i + 1 } else { i };
            let j2 = if e2 <= dx { j + 1 } else { j };
            &&& on_track(dx, dy, k + 1, i2, j2)
            &&& error_at(dx, dy, i2, j2) == error_at(dx, dy, i, j) - (if e2 >= -dy { dy } else { 0 })
                + (if e2 <= dx { dx } else { 0 })
        }),
{
    assert(dx * (1 + (j + 1)) == dx * (1 + j) + dx) by (nonlinear_arith);
    assert(dy * (1 + (i + 1)) == dy * (1 + i) + dy) by (nonlinear_arith);
    assert(2 * dx * (j + 1) == 2 * (dx * (1 + j))) by (nonlinear_arith);
    assert(2 * dy * (i + 1) == 2 * (dy * (1 + i))) by (nonlinear_arith);
    assert(2 * dy * (k + 1) == 2 * dy * k + 2 * dy) by (nonlinear_arith);
    assert(2 * dx * (k + 1) == 2 * dx * k + 2 * dx) by (nonlinear_arith);
    if dx >= dy {
        lemma_line_step(dx, dy, k, j);
    } else {
        lemma_line_step(dy, dx, k, i);
    }
}

/// What lighting the next cell of the line does to the weights, their sum
/// and the count of cells inside the kernel.
proof fn lemma_mark(
    c: int,
    x1: int,
    y1: int,
    size: int,
    k: int,
    before: Seq<i64>,
    after: Seq<i64>,
)
    requires
        0 <= k <= line_steps(c, x1, y1),
        size > 0,
        before.len() == size * size,
        forall|index: int|
            0 <= index < size * size ==> before[index] == if lit(c, x1, y1, size, k, index) {
                1i64
            } else {
                0i64
            },
        after == if inside(line_point(c, x1, y1, k), size) {
            before.update(cell_of(line_point(c, x1, y1, k), size), 1i64)
        } else {
            before
        },
    ensures
        forall|index: int|
            0 <= index < size * size ==> after[index] == if lit(c, x1, y1, size, k + 1, index) {
                1i64
            } else {
                0i64
            },
        sum_of(after) == sum_of(before) + hits(c, x1, y1, size, k + 1) - hits(c, x1, y1, size, k),
{
    let here = line_point(c, x1, y1, k);
    if inside(here, size) {
        let cell = cell_of(here, size);
        lemma_cell_in_range(here, size);
        if lit(c, x1, y1, size, k, cell) {
            let e = choose|e: int|
                0 <= e < k && inside(#[trigger] line_point(c, x1, y1, e), size) && cell_of(
                    line_point(c, x1, y1, e),
                    size,
                ) == cell;
            lemma_cell_unique(line_point(c, x1, y1, e), here, size);
            lemma_line_distinct(c, x1, y1, k, e);
        }
        lemma_sum_update(before, cell, 1);
    }
    assert forall|index: int| 0 <= index < size * size implies after[index] == if lit(
        c,
        x1,
        y1,
        size,
        k + 1,
        index,
    ) {
        1i64
    } else {
        0i64
    } by {
        if inside(here, size) && index == cell_of(here, size) {
            assert(inside(line_point(c, x1, y1, k), size));
        } else {
            lemma_lit_grows(c, x1, y1, size, k, index);
        }
    }
}

/// The weights of a motion line in a kernel of side `size`: the line runs
/// from the centre to `(x1, y1)`, and each of its cells that lies inside the
/// kernel gets the same share of the whole.
pub fn motion_weights(size: usize, x1: i32, y1: i32) -> (w: Weights)
    requires
        valid_size(size),
        distance((size / 2) as int, x1 as int) <= MAX_SIZE + 1,
        distance((size / 2) as int, y1 as int) <= MAX_SIZE + 1,
    ensures
        w.wf(),
        is_motion_line(w, size, x1 as int, y1 as int),
        w.unit_sum(),
{
    proof {
        lemma_area(size);
    }
    let side: i64 = size as i64;
    let c: i64 = (size / 2) as i64;
    let tx: i64 = x1 as i64;
    let ty: i64 = y1 as i64;
    let dx: i64 = if tx >= c {
        tx - c
    } else {
        c - tx
    };
    let dy: i64 = if ty >= c {
        ty - c
    } else {
        c - ty
    };
    let sx: i64 = if c < tx {
        1
    } else {
        -1
    };
    let sy: i64 = if c < ty {
        1
    } else {
        -1
    };
    let ghost n: int = line_steps(c as int, tx as int, ty as int);
    let mut err: i64 = dx - dy;
    let mut x: i64 = c;
    let mut y: i64 = c;
    let mut num: Vec<i64> = zeros(size * size);
    let mut count: i64 = 0;
    let ghost mut k: int = 0;
    let ghost mut i: int = 0;
    let ghost mut j: int = 0;
    proof {
        assert(dx * (1 + 0) - dy * (1 + 0) == dx - dy) by (nonlinear_arith);
        if dx >= dy && dx > 0 {
            assert(2 * dx * 0 <= 2 * dy * 0 + dx < 2 * dx * (0 + 1)) by (nonlinear_arith)
                requires
                    dx > 0,
            ;
            lemma_minor_steps(0, dy as int, dx as int, 0);
        }
        if dx < dy {
            assert(2 * dy * 0 <= 2 * dx * 0 + dy < 2 * dy * (0 + 1)) by (nonlinear_arith)
                requires
                    dy > 0,
            ;
            lemma_minor_steps(0, dx as int, dy as int, 0);
        }
    }
    loop
        invariant_except_break
            0 <= k <= n,
            0 <= count <= k,
            count == hits(c as int, tx as int, ty as int, side as int, k),
            forall|index: int|
                0 <= index < size * size ==> num@[index] == if lit(
                    c as int,
                    tx as int,
                    ty as int,
                    side as int,
                    k,
                    index,
                ) {
                    1i64
                } else {
                    0i64
                },
        invariant
            valid_size(size),
            side == size,
            c == size / 2,
            tx == x1,
            ty == y1,
            dx == distance(c as int, tx as int),
            dy == distance(c as int, ty as int),
            dx <= MAX_SIZE + 1,
            dy <= MAX_SIZE + 1,
            sx == if c < tx { 1i64 } else { -1i64 },
            sy == if c < ty { 1i64 } else { -1i64 },
            n == line_steps(c as int, tx as int, ty as int),
            size * size <= crate::weights::MAX_AREA,
            num@.len() == size * size,
            on_track(dx as int, dy as int, k, i, j),
            x == advance(c as int, tx as int, i),
            y == advance(c as int, ty as int, j),
            err == error_at(dx as int, dy as int, i, j),
            k == 0 ==> i == 0 && j == 0,
            k > 0 ==> count >= 1,
            (x as int, y as int) == line_point(c as int, tx as int, ty as int, k),
            sum_of(num@) == count,
        ensures
            k == n,
            count == hits(c as int, tx as int, ty as int, side as int, n + 1),
            forall|index: int|
                0 <= index < size * size ==> num@[index] == if lit(
                    c as int,
                    tx as int,
                    ty as int,
                    side as int,
                    n + 1,
                    index,
                ) {
                    1i64
                } else {
                    0i64
                },
            count >= 1,
        decreases n - k,
    {
        let ghost here = line_point(c as int, tx as int, ty as int, k);
        let ghost before = num@;
        if x >= 0 && x < side && y >= 0 && y < side {
            proof {
                lemma_cell_in_range(here, side as int);
            }
            let index: usize = (y * side + x) as usize;
            num[index] = 1;
            count += 1;
        }
        proof {
            lemma_mark(c as int, tx as int, ty as int, side as int, k, before, num@);
            if k == n && n > 0 {
                if dx >= dy {
                    lemma_line_end(dx as int, dy as int, j);
                } else {
                    lemma_line_end(dy as int, dx as int, i);
                }
            }
        }
        if x == tx && y == ty {
            break;
        }
        proof {
            lemma_stepping(dx as int, dy as int, k, i, j);
            lemma_error_bound(dx as int, dy as int, i, j, MAX_SIZE + 1);
        }
        let e2: i64 = 2 * err;
        if e2 >= -dy {
            err -= dy;
            x += sx;
            proof {
                i = i + 1;
            }
        }
        if e2 <= dx {
            err += dx;
            y += sy;
            proof {
                j = j + 1;
            }
        }
        proof {
            k = k + 1;
            if dx >= dy {
                lemma_minor_steps(k, dy as int, dx as int, j);
            } else {
                lemma_minor_steps(k, dx as int, dy as int, i);
            }
        }
    }
    Weights { num, den: count }
}

/// A cell that the next point of the line does not light is lit after it
/// exactly if it was lit before.
proof fn lemma_lit_grows(c: int, x1: int, y1: int, size: int, k: int, index: int)
    requires
        !(inside(line_point(c, x1, y1, k), size) && cell_of(line_point(c, x1, y1, k), size)
            == index),
    ensures
        lit(c, x1, y1, size, k + 1, index) == lit(c, x1, y1, size, k, index),
{
    if lit(c, x1, y1, size, k + 1, index) {
        let e = choose|e: int|
            0 <= e < k + 1 && inside(#[trigger] line_point(c, x1, y1, e), size) && cell_of(
                line_point(c, x1, y1, e),
                size,
            ) == index;
        assert(e < k);
    }
    if lit(c, x1, y1, size, k, index) {
        let e = choose|e: int|
            0 <= e < k && inside(#[trigger] line_point(c, x1, y1, e), size) && cell_of(
                line_point(c, x1, y1, e),
                size,
            ) == index;
        assert(0 <= e < k + 1);
    }
}

/// `w` holds the weights of the motion line from the centre of a kernel of
/// side `size` to `(x1, y1)`: every cell of the line inside the kernel
/// weighs one over the number of such cells, and every other cell nothing.
pub open spec fn is_motion_line(w: Weights, size: usize, x1: int, y1: int) -> bool {
    let c = (size / 2) as int;
    let cells = line_steps(c, x1, y1) + 1;
    &&& w.num@.len() == size * size
    &&& w.den == hits(c, x1, y1, size as int, cells)
    &&& forall|index: int|
        0 <= index < size * size ==> w.num@[index] == if lit(c, x1, y1, size as int, cells, index) {
            1i64
        } else {
            0i64
        }
}

/// Why a motion line cannot be drawn, if it cannot.
pub open spec fn motion_error(size: usize, length: Decimal, x1: int, y1: int) -> Option<
    KernelError,
> {
    let c = (size / 2) as int;
    if !valid_size(size) {
        Some(KernelError::BadSize)
    } else if !length.wf() || length.mantissa == 0 || length.floor() > size {
        Some(KernelError::BadLength)
    } else if distance(c, x1) > length.floor() + 1 || distance(c, y1) > length.floor() + 1 {
        Some(KernelError::EndpointOutOfReach)
    } else {
        None
    }
}

/// What building a motion kernel gives: the line's weights, or the reason
/// why there are none.
pub open spec fn motion_result(
    size: usize,
    length: Decimal,
    x1: i32,
    y1: i32,
    r: Result<Function, KernelError>,
) -> bool {
    match r {
        Ok(f) => {
            &&& motion_error(size, length, x1 as int, y1 as int) is None
            &&& f.wf()
            &&& f matches Function::Param(side, w)
            &&& side == size
            &&& is_motion_line(w, size, x1 as int, y1 as int)
            &&& w.unit_sum()
        },
        Err(e) => motion_error(size, length, x1 as int, y1 as int) == Some(e),
    }
}

impl Function {
    /// The motion-blur kernel of side `size` for a line of the given length
    /// that ends at `(x1, y1)`. The length must be above zero and its whole
    /// part at most `size`; the end may lie at most one cell further from
    /// the centre, along either axis, than the whole part of the length.
    pub fn motion_blur_function(size: usize, length: Decimal, x1: i32, y1: i32) -> (r: Result<
        Function,
        KernelError,
    >)
        ensures
            motion_result(size, length, x1, y1, r),
    {
        if !is_valid_size(size) {
            return Err(KernelError::BadSize);
        }
        if !length.is_valid() || length.mantissa == 0 {
            return Err(KernelError::BadLength);
        }
        let whole: u64 = length.whole();
        if whole > size as u64 {
            return Err(KernelError::BadLength);
        }
        let reach: i64 = whole as i64 + 1;
        let c: i64 = (size / 2) as i64;
        let far_x: i64 = if x1 as i64 >= c {
            x1 as i64 - c
        } else {
            c - x1 as i64
        };
        let far_y: i64 = if y1 as i64 >= c {
            y1 as i64 - c
        } else {
            c - y1 as i64
        };
        if far_x > reach || far_y > reach {
            return Err(KernelError::EndpointOutOfReach);
        }
        let w = motion_weights(size, x1, y1);
        Ok(Function::Param(size, w))
    }
}

} // verus!
