//! The pixel buffer.

use vstd::prelude::*;
use crate::colormode::{zero_pixel, ColorValue};

verus! {

/// A rectangular buffer of four-channel pixels, stored row by row.
pub struct Matrix<T> {
    pub rows: usize,
    pub cols: usize,
    pub data: Vec<[T; 4]>,
}

impl<T: Copy> Matrix<T> {
    /// The buffer holds exactly one pixel for each position.
    pub open spec fn wf(&self) -> bool {
        self.data@.len() == self.rows * self.cols
    }

    /// Whether the buffer holds exactly one pixel for each position.
    pub fn is_well_formed(&self) -> (b: bool)
        ensures
            b == self.wf(),
    {
        let rows: u128 = self.rows as u128;
        let cols: u128 = self.cols as u128;
        assert(rows * cols <= 0xffff_ffff_ffff_ffff * 0xffff_ffff_ffff_ffff) by (nonlinear_arith)
            requires
                0 <= rows <= 0xffff_ffff_ffff_ffff,
                0 <= cols <= 0xffff_ffff_ffff_ffff,
        ;
        rows * cols == self.data.len() as u128
    }

    /// Position of `(row, col)` in the row-major data.
    pub open spec fn index_of(&self, row: int, col: int) -> int {
        row * self.cols + col
    }

    /// The pixel at `(row, col)`.
    pub open spec fn at(&self, row: int, col: int) -> [T; 4] {
        self.data@[self.index_of(row, col)]
    }

    /// Every position of the rectangle has a slot of its own in the data.
    pub proof fn lemma_index_in_range(&self, row: int, col: int)
        requires
            self.wf(),
            0 <= row < self.rows,
            0 <= col < self.cols,
        ensures
            0 <= row * self.cols <= self.index_of(row, col) < self.data@.len(),
            self.index_of(row, col) / (self.cols as int) == row,
            self.index_of(row, col) % (self.cols as int) == col,
    {
        let c = self.cols as int;
        assert(0 <= row * c && row * c + c <= self.rows * c) by (nonlinear_arith)
            requires
                0 <= row < self.rows,
                c > 0,
        ;
        vstd::arithmetic::div_mod::lemma_fundamental_div_mod_converse(row * c + col, c, row, col);
    }

    /// Reads the pixel at `(row, col)`, which must lie inside the buffer.
    pub fn get(&self, row: isize, col: isize) -> (pixel: [T; 4])
        requires
            self.wf(),
            0 <= row < self.rows,
            0 <= col < self.cols,
        ensures
            pixel == self.at(row as int, col as int),
    {
        self.pixel(row as usize, col as usize)
    }

    /// Reads the pixel at `(row, col)`, which must lie inside the buffer.
    pub fn pixel(&self, row: usize, col: usize) -> (pixel: [T; 4])
        requires
            self.wf(),
            row < self.rows,
            col < self.cols,
        ensures
            pixel == self.at(row as int, col as int),
    {
        proof {
            self.lemma_index_in_range(row as int, col as int);
        }
        let len: usize = self.data.len();
        assert(row * self.cols == (row as int) * self.cols);
        let index: usize = row * self.cols + col;
        self.data[index]
    }

    /// Replaces the pixel at `(row, col)`, which must lie inside the buffer.
    pub fn set(&mut self, row: usize, col: usize, value: [T; 4])
        requires
            old(self).wf(),
            row < old(self).rows,
            col < old(self).cols,
        ensures
            final(self).rows == old(self).rows,
            final(self).cols == old(self).cols,
            final(self).data@ == old(self).data@.update(
                old(self).index_of(row as int, col as int),
                value,
            ),
            final(self).wf(),
    {
        proof {
            self.lemma_index_in_range(row as int, col as int);
        }
        let len: usize = self.data.len();
        assert(row * self.cols == (row as int) * self.cols);
        let index: usize = row * self.cols + col;
        self.data[index] = value;
    }
}

impl<T: ColorValue> Matrix<T> {
    /// A buffer of `rows` by `cols` zero pixels.
    pub fn new(rows: usize, cols: usize) -> (m: Self)
        requires
            rows * cols <= usize::MAX,
        ensures
            m.wf(),
            m.rows == rows,
            m.cols == cols,
            forall|i: int| 0 <= i < m.data@.len() ==> m.data@[i] == zero_pixel::<T>(),
    {
        let total: usize = rows * cols;
        let zero = T::from_u8(0);
        let pixel = [zero, zero, zero, zero];
        assert(0 * T::unit() == 0);
        assert(pixel =~= zero_pixel::<T>());
        let mut data: Vec<[T; 4]> = Vec::new();
        let mut i: usize = 0;
        while i < total
            invariant
                i <= total,
                data@.len() == i,
                pixel == zero_pixel::<T>(),
                forall|k: int| 0 <= k < i ==> data@[k] == zero_pixel::<T>(),
            decreases total - i,
        {
            data.push(pixel);
            i += 1;
        }
        Matrix { rows, cols, data }
    }
}

} // verus!
