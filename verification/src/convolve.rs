//! The convolution pass: gathering the window around a position, evaluating
//! the kernel on it, and doing so for every position of a buffer.

use vstd::prelude::*;
use vstd::arithmetic::div_mod::lemma_fundamental_div_mod_converse;
use crate::colormode::{clamp_int, opaque_level, zero_pixel, ColorValue};
use crate::function::{lemma_area, valid_size, Function};
use crate::kernel_spec::Aggregation;
use crate::matrix::Matrix;
use crate::neighbors::{
    blur_of, center_index, kernel_of, lemma_blur_uniform, lemma_center, lemma_kernel_uniform,
    positional_of, Neighbors, Pos,
};

verus! {

/// The coordinate `pos + delta`, moved to the nearest one of `0` to
/// `limit - 1` where it lies outside.
pub open spec fn clamp_coord(pos: int, delta: int, limit: int) -> int {
    clamp_int(pos + delta, 0, limit - 1)
}

/// The row of the buffer that cell `w` of a window around row `row` reads.
pub open spec fn sample_row(row: int, size: int, w: int, rows: int) -> int {
    clamp_coord(row, w / size - (size - 1) / 2, rows)
}

/// The column of the buffer that cell `w` of a window around column `col`
/// reads.
pub open spec fn sample_col(col: int, size: int, w: int, cols: int) -> int {
    clamp_coord(col, w % size - (size - 1) / 2, cols)
}

/// A coordinate that was moved to the edge lies inside the buffer,
/// wherever it started and however far it was offset.
pub proof fn lemma_clamp_in_bounds(pos: int, delta: int, limit: int)
    requires
        limit > 0,
    ensures
        0 <= clamp_coord(pos, delta, limit) < limit,
        0 <= pos + delta < limit ==> clamp_coord(pos, delta, limit) == pos + delta,
        pos + delta < 0 ==> clamp_coord(pos, delta, limit) == 0,
        pos + delta >= limit ==> clamp_coord(pos, delta, limit) == limit - 1,
{
}

/// No cell of any window reads outside the buffer: whatever the focal
/// position, the side of the window and the cell, the position that is
/// read lies inside a buffer that has any position at all.
pub proof fn lemma_sample_in_bounds(row: int, col: int, size: int, w: int, rows: int, cols: int)
    requires
        rows > 0,
        cols > 0,
    ensures
        0 <= sample_row(row, size, w, rows) < rows,
        0 <= sample_col(col, size, w, cols) < cols,
{
}

impl<T: Copy> Matrix<T> {
    /// The sample in cell `w` of the window of side `size` around
    /// `(row, col)`.
    pub open spec fn window_sample(&self, row: int, col: int, size: int, w: int) -> [T; 4] {
        self.at(
            sample_row(row, size, w, self.rows as int),
            sample_col(col, size, w, self.cols as int),
        )
    }

    /// The window of side `size` around `(row, col)`, row by row.
    pub open spec fn window_of(&self, row: int, col: int, size: int) -> Seq<[T; 4]> {
        Seq::new((size * size) as nat, |w: int| self.window_sample(row, col, size, w))
    }

    /// The coordinate `pos + offset - half`, moved to the edge where it
    /// lies outside `0` to `limit - 1`.
    fn clamped(pos: usize, offset: usize, half: usize, limit: usize) -> (r: usize)
        requires
            limit > 0,
        ensures
            r == clamp_coord(pos as int, offset - half, limit as int),
            r < limit,
    {
        let target: u128 = pos as u128 + offset as u128;
        let h: u128 = half as u128;
        if target < h {
            0
        } else if target - h > (limit - 1) as u128 {
            limit - 1
        } else {
            (target - h) as usize
        }
    }

    /// Gathers the window of side `size` around `(row, col)`. A cell that
    /// would lie outside the buffer reads the nearest position inside it.
    pub fn window(&self, row: usize, col: usize, size: usize) -> (n: Neighbors<T>)
        requires
            self.wf(),
            row < self.rows,
            col < self.cols,
            valid_size(size),
        ensures
            n.wf(),
            n.size == size,
            n.data@ == self.window_of(row as int, col as int, size as int),
    {
        proof {
            lemma_area(size);
        }
        let half: usize = (size - 1) / 2;
        let mut data: Vec<[T; 4]> = Vec::new();
        let mut wr: usize = 0;
        while wr < size
            invariant
                self.wf(),
                row < self.rows,
                col < self.cols,
                valid_size(size),
                half == (size - 1) / 2,
                wr <= size,
                data@.len() == wr * size,
                forall|w: int|
                    0 <= w < data@.len() ==> data@[w] == self.window_sample(
                        row as int,
                        col as int,
                        size as int,
                        w,
                    ),
            decreases size - wr,
        {
            let r: usize = Self::clamped(row, wr, half, self.rows);
            let mut wc: usize = 0;
            while wc < size
                invariant
                    self.wf(),
                    row < self.rows,
                    col < self.cols,
                    valid_size(size),
                    half == (size - 1) / 2,
                    wr < size,
                    wc <= size,
                    r < self.rows,
                    r == clamp_coord(row as int, wr - half, self.rows as int),
                    data@.len() == wr * size + wc,
                    forall|w: int|
                        0 <= w < data@.len() ==> data@[w] == self.window_sample(
                            row as int,
                            col as int,
                            size as int,
                            w,
                        ),
                decreases size - wc,
            {
                let c: usize = Self::clamped(col, wc, half, self.cols);
                proof {
                    lemma_fundamental_div_mod_converse(
                        wr * size + wc,
                        size as int,
                        wr as int,
                        wc as int,
                    );
                }
                let pixel = self.pixel(r, c);
                data.push(pixel);
                wc += 1;
            }
            assert((wr + 1) * size == wr * size + size) by (nonlinear_arith);
            wr += 1;
        }
        let n = Neighbors { size, data };
        assert(n.data@ =~= self.window_of(row as int, col as int, size as int));
        n
    }
}

impl Function {
    /// What the kernel makes of a window of side `size` that holds the
    /// samples `data`.
    pub open spec fn calculate_of<T: ColorValue>(&self, data: Seq<[T; 4]>, size: int) -> [T; 4] {
        match self {
            Function::Constant(_, Aggregation::Identity) => data[center_index(size)],
            Function::Constant(_, Aggregation::Blur) => blur_of(data),
            Function::Constant(_, Aggregation::Min) => positional_of(data, Pos::Min),
            Function::Constant(_, Aggregation::Median) => positional_of(data, Pos::Mid),
            Function::Constant(_, Aggregation::Max) => positional_of(data, Pos::Max),
            Function::Constant(_, Aggregation::Inner) => zero_pixel::<T>(),
            Function::Param(_, weights) => kernel_of(data, *weights),
        }
    }

    /// Evaluates the kernel on a window.
    pub fn calculate<T: ColorValue>(&self, input: Neighbors<T>) -> (pixel: [T; 4])
        requires
            self.wf(),
            input.wf(),
        ensures
            pixel == self.calculate_of(input.data@, input.size as int),
    {
        proof {
            lemma_center(input.size as int);
        }
        match self {
            Function::Constant(_, Aggregation::Identity) => input.none(),
            Function::Constant(_, Aggregation::Blur) => input.blur(),
            Function::Constant(_, Aggregation::Min) => input.positional(Pos::Min),
            Function::Constant(_, Aggregation::Median) => input.positional(Pos::Mid),
            Function::Constant(_, Aggregation::Max) => input.positional(Pos::Max),
            Function::Constant(_, Aggregation::Inner) => input.inner(),
            Function::Param(_, weights) => input.kernel(weights),
        }
    }
}

impl<T: ColorValue> Matrix<T> {
    /// The pixel that the kernel computes for position `index` of the
    /// row-major data.
    pub open spec fn convolved_at(&self, kernel: Function, index: int) -> [T; 4] {
        kernel.calculate_of(
            self.window_of(
                index / (self.cols as int),
                index % (self.cols as int),
                kernel.side() as int,
            ),
            kernel.side() as int,
        )
    }

    /// The data of the buffer after one pass of the kernel: every pixel
    /// is computed from the window around it in the buffer as it is now.
    pub open spec fn convolved(&self, kernel: Function) -> Seq<[T; 4]> {
        Seq::new(self.data@.len(), |index: int| self.convolved_at(kernel, index))
    }

    /// Computes one pixel of a pass: the kernel on the window around
    /// position `index` of the row-major data.
    pub fn pixel_at(&self, kernel: &Function, index: usize) -> (pixel: [T; 4])
        requires
            self.wf(),
            kernel.wf(),
            index < self.data@.len(),
        ensures
            pixel == self.convolved_at(*kernel, index as int),
    {
        assert(self.cols > 0) by (nonlinear_arith)
            requires
                index < self.rows * self.cols,
        ;
        let row: usize = index / self.cols;
        let col: usize = index % self.cols;
        assert(row < self.rows) by (nonlinear_arith)
            requires
                index < self.rows * self.cols,
                row == index as int / self.cols as int,
                self.cols > 0,
        ;
        let window = self.window(row, col, kernel.size());
        kernel.calculate(window)
    }

    /// Applies the kernel to every position of the buffer. All pixels are
    /// computed from the buffer as it was before the call, and the buffer
    /// is replaced only when the last one is done.
    pub fn convolve(&mut self, kernel: &Function)
        requires
            old(self).wf(),
            kernel.wf(),
        ensures
            final(self).wf(),
            final(self).rows == old(self).rows,
            final(self).cols == old(self).cols,
            final(self).data@ == old(self).convolved(*kernel),
    {
        let total: usize = self.data.len();
        let mut result: Vec<[T; 4]> = Vec::new();
        let mut index: usize = 0;
        while index < total
            invariant
                self.wf(),
                kernel.wf(),
                *self == *old(self),
                total == self.data@.len(),
                index <= total,
                result@.len() == index,
                forall|i: int| 0 <= i < index ==> result@[i] == self.convolved_at(*kernel, i),
            decreases total - index,
        {
            let pixel = self.pixel_at(kernel, index);
            result.push(pixel);
            index += 1;
        }
        assert(result@ =~= self.convolved(*kernel));
        self.data = result;
    }

    /// The middle cell of a window reads the focal position itself.
    pub proof fn lemma_window_focal(&self, row: int, col: int, size: int)
        requires
            0 <= row < self.rows,
            0 <= col < self.cols,
            size >= 1,
            size % 2 == 1,
        ensures
            self.window_of(row, col, size)[center_index(size)] == self.at(row, col),
    {
        lemma_center(size);
        let half = (size - 1) / 2;
        assert(size / 2 == half);
        lemma_fundamental_div_mod_converse(center_index(size), size, half, half);
    }

    /// A pass of the identity kernel, whatever its side, leaves every
    /// pixel as it is.
    pub proof fn lemma_identity_pass(&self, size: usize)
        requires
            self.wf(),
            valid_size(size),
        ensures
            self.convolved(Function::Constant(size, Aggregation::Identity)) == self.data@,
    {
        let kernel = Function::Constant(size, Aggregation::Identity);
        assert forall|index: int| 0 <= index < self.data@.len() implies self.convolved_at(
            kernel,
            index,
        ) == self.data@[index] by {
            let cols = self.cols as int;
            assert(cols > 0) by (nonlinear_arith)
                requires
                    0 <= index < self.rows * cols,
            ;
            let row = index / cols;
            let col = index % cols;
            assert(0 <= row < self.rows) by (nonlinear_arith)
                requires
                    0 <= index < self.rows * cols,
                    row == index / cols,
                    cols > 0,
            ;
            self.lemma_window_focal(row, col, size as int);
            assert(index == row * cols + col) by {
                vstd::arithmetic::div_mod::lemma_fundamental_div_mod(index, cols);
                assert(cols * row == row * cols) by (nonlinear_arith);
            }
        }
        assert(self.convolved(kernel) =~= self.data@);
    }

    /// A pass of the box blur, or of weights that add up to one, leaves a
    /// buffer of one colour as it is. Under weights the colour must be fully
    /// opaque and its colour channels within their legal ranges, since a
    /// weighted kernel makes every pixel so.
    pub proof fn lemma_uniform_pass(&self, kernel: Function, pixel: [T; 4])
        requires
            self.wf(),
            kernel.wf(),
            forall|i: int| 0 <= i < self.data@.len() ==> self.data@[i] == pixel,
            match kernel {
                Function::Constant(_, a) => a == Aggregation::Blur,
                Function::Param(_, weights) => {
                    &&& weights.unit_sum()
                    &&& pixel[3] == T::of_level(opaque_level::<T>())
                    &&& forall|c: u8|
                        c < 3 ==> #[trigger] T::floor_of(c) <= pixel[c as int].level()
                            <= T::ceiling_of(c)
                },
            },
        ensures
            self.convolved(kernel) == self.data@,
    {
        let s = kernel.side() as int;
        lemma_center(s);
        assert forall|index: int| 0 <= index < self.data@.len() implies self.convolved_at(
            kernel,
            index,
        ) == self.data@[index] by {
            let cols = self.cols as int;
            assert(cols > 0 && self.rows > 0) by (nonlinear_arith)
                requires
                    0 <= index < self.rows * cols,
            ;
            let row = index / cols;
            let col = index % cols;
            let window = self.window_of(row, col, s);
            assert forall|w: int| 0 <= w < window.len() implies window[w] == pixel by {
                lemma_sample_in_bounds(row, col, s, w, self.rows as int, cols);
                self.lemma_index_in_range(
                    sample_row(row, s, w, self.rows as int),
                    sample_col(col, s, w, cols),
                );
            }
            match kernel {
                Function::Constant(_, _) => {
                    lemma_blur_uniform(window, pixel);
                },
                Function::Param(_, weights) => {
                    lemma_kernel_uniform(window, weights, pixel);
                    assert(pixel =~= [
                        pixel[0],
                        pixel[1],
                        pixel[2],
                        T::of_level(opaque_level::<T>()),
                    ]);
                },
            }
        }
        assert(self.convolved(kernel) =~= self.data@);
    }
}

} // verus!
