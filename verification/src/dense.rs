//! The dense row-major layout that a training engine takes its data in.

use vstd::prelude::*;
use vstd::arithmetic::div_mod::lemma_fundamental_div_mod_converse;
use crate::error::PipelineError;
use crate::table::{columns_view, copied, Table, TableView};

verus! {

/// The mathematical content of a dense matrix: `rows * cols` values, row after
/// row.
pub struct DenseView<T> {
    pub values: Seq<T>,
    pub rows: nat,
    pub cols: nat,
}

impl<T> DenseView<T> {
    /// The buffer holds exactly one value for each cell.
    pub open spec fn wf(self) -> bool {
        self.values.len() == self.rows * self.cols
    }

    /// The value in row `row` and column `col`.
    pub open spec fn at(self, row: int, col: int) -> T {
        self.values[row * self.cols + col]
    }
}

impl<T> TableView<T> {
    /// The cells of the table row after row, each row from the first column to
    /// the last. Meaningful where no cell is missing.
    pub open spec fn row_major(self) -> Seq<T> {
        Seq::new(
            self.height() * self.width(),
            |k: int| self.cell(k / (self.width() as int), k % (self.width() as int))->0,
        )
    }

    /// The table as a dense matrix.
    pub open spec fn dense(self) -> DenseView<T> {
        DenseView { values: self.row_major(), rows: self.height(), cols: self.width() }
    }
}

/// The offset of a cell in a row-major buffer lies before the offset of every
/// later cell, and inside the buffer.
pub proof fn lemma_offset_in_range(row: int, col: int, rows: int, cols: int)
    by (nonlinear_arith)
    requires
        0 <= row < rows,
        0 <= col < cols,
    ensures
        0 <= row * cols + col < rows * cols,
        row * cols + cols == (row + 1) * cols,
{
}

/// In the row-major layout of a table, the cell in row `row` and column `col`
/// stands at offset `row * width + col`.
pub proof fn lemma_row_major_at<T>(table: TableView<T>, row: int, col: int)
    requires
        0 <= row < table.height(),
        0 <= col < table.width(),
    ensures
        table.dense().wf(),
        0 <= row * table.width() + col < table.row_major().len(),
        table.dense().at(row, col) == table.cell(row, col)->0,
{
    let w = table.width() as int;
    lemma_offset_in_range(row, col, table.height() as int, w);
    lemma_fundamental_div_mod_converse(row * w + col, w, row, col);
}

/// A rectangular block of values without gaps, stored row after row.
#[derive(Debug, PartialEq)]
pub struct DenseMatrix<T> {
    values: Vec<T>,
    rows: usize,
    cols: usize,
}

impl<T> View for DenseMatrix<T> {
    type V = DenseView<T>;

    closed spec fn view(&self) -> DenseView<T> {
        DenseView { values: self.values@, rows: self.rows as nat, cols: self.cols as nat }
    }
}

impl<T> DenseMatrix<T> {
    #[verifier::type_invariant]
    spec fn well_formed(&self) -> bool {
        self@.wf()
    }

    /// The number of rows.
    pub fn rows(&self) -> (rows: usize)
        ensures
            rows == self@.rows,
            self@.wf(),
    {
        proof {
            use_type_invariant(self);
        }
        self.rows
    }

    /// The number of columns.
    pub fn cols(&self) -> (cols: usize)
        ensures
            cols == self@.cols,
            self@.wf(),
    {
        proof {
            use_type_invariant(self);
        }
        self.cols
    }

    /// The values, row after row.
    pub fn values(&self) -> (values: &Vec<T>)
        ensures
            values@ == self@.values,
            self@.wf(),
    {
        proof {
            use_type_invariant(self);
        }
        &self.values
    }
}

impl<T: Copy> Clone for DenseMatrix<T> {
    /// A matrix with the same values.
    fn clone(&self) -> (copy: Self)
        ensures
            copy@ == self@,
    {
        proof {
            use_type_invariant(self);
        }
        DenseMatrix { values: copied(&self.values), rows: self.rows, cols: self.cols }
    }
}

impl<T: Copy> DenseMatrix<T> {
    /// The value in row `row` and column `col`, if the matrix has such a cell.
    pub fn get(&self, row: usize, col: usize) -> (value: Option<T>)
        ensures
            match value {
                Some(v) => row < self@.rows && col < self@.cols && v == self@.at(row as int, col as int),
                None => row >= self@.rows || col >= self@.cols,
            },
    {
        proof {
            use_type_invariant(self);
        }
        if row < self.rows && col < self.cols {
            let filled = self.values.len();
            proof {
                lemma_offset_in_range(row as int, col as int, self.rows as int, self.cols as int);
                assert(filled == self.rows * self.cols);
            }
            Some(self.values[row * self.cols + col])
        } else {
            None
        }
    }
}

impl<T: Copy> Table<T> {
    /// Lays the table out as a dense row-major matrix. A table with a missing
    /// cell has no such layout.
    pub fn to_dense(&self) -> (result: Result<DenseMatrix<T>, PipelineError>)
        ensures
            match result {
                Ok(matrix) => self@.is_dense() && matrix@ == self@.dense(),
                Err(error) => !self@.is_dense() && error == PipelineError::NonContiguousData,
            },
    {
        let columns = self.columns();
        let height = self.height();
        let width = self.width();
        let ghost layout = self@.row_major();
        let mut values: Vec<T> = Vec::new();
        let mut row: usize = 0;
        while row < height
            invariant
                self@.wf(),
                columns_view(columns@) == self@,
                height == self@.height(),
                width == self@.width(),
                layout == self@.row_major(),
                0 <= row <= height,
                values@.len() == row * width,
                values@.len() <= layout.len(),
                values@ == layout.take(values@.len() as int),
                forall|r: int, c: int|
                    0 <= r < row && 0 <= c < width ==> (#[trigger] self@.cell(r, c)) is Some,
            decreases height - row,
        {
            let mut col: usize = 0;
            while col < width
                invariant
                    self@.wf(),
                    columns_view(columns@) == self@,
                    height == self@.height(),
                    width == self@.width(),
                    layout == self@.row_major(),
                    0 <= row < height,
                    0 <= col <= width,
                    values@.len() == row * width + col,
                    values@.len() <= layout.len(),
                    values@ == layout.take(values@.len() as int),
                    forall|r: int, c: int|
                        0 <= r < row && 0 <= c < width ==> (#[trigger] self@.cell(r, c)) is Some,
                    forall|c: int| 0 <= c < col ==> (#[trigger] self@.cell(row as int, c)) is Some,
                decreases width - col,
            {
                assert(self@.columns[col as int] == columns@[col as int]@);
                assert(self@.columns[col as int].values.len() == self@.height());
                proof {
                    lemma_row_major_at(self@, row as int, col as int);
                }
                match columns[col].values[row] {
                    None => {
                        assert(self@.cell(row as int, col as int) is None);
                        return Err(PipelineError::NonContiguousData);
                    },
                    Some(value) => {
                        let ghost before = values@;
                        values.push(value);
                        assert(values@ =~= layout.take(before.len() as int + 1));
                    },
                }
                col += 1;
            }
            proof {
                lemma_offset_in_range(row as int, 0, height as int, width as int);
            }
            row += 1;
        }
        assert(values@ =~= layout) by {
            if width == 0 {
                assert(height == 0);
            }
            assert(row * width == height * width);
        }
        Ok(DenseMatrix { values, rows: height, cols: width })
    }
}

} // verus!
