//! Read-only access: shape queries, single elements, rows, columns and
//! rectangular areas, each with a bounds check.
use vstd::prelude::*;

use crate::errors::IndexError;
use crate::lemma_buffer_index;
use crate::Matrix;

verus! {

impl<T> Matrix<T> {
    /// The number of rows.
    pub fn rows(&self) -> (r: usize)
        ensures
            r == self.rows,
    {
        self.rows
    }

    /// The number of columns.
    pub fn columns(&self) -> (r: usize)
        ensures
            r == self.columns,
    {
        self.columns
    }

    /// The number of elements, `rows * columns`.
    pub fn size(&self) -> (r: usize)
        requires
            self.wf(),
        ensures
            r == self.rows * self.columns,
            r == self.data@.len(),
    {
        self.data.len()
    }

    /// Whether the matrix has as many rows as columns and is not empty.
    ///
    /// The empty matrix is not considered square, matching the boundary
    /// behaviour of `minor` and `determinant`.
    pub fn is_square(&self) -> (r: bool)
        ensures
            r == (self.rows == self.columns && self.rows != 0),
    {
        self.rows == self.columns && self.rows != 0
    }

    /// A copy of the flat, row-major element buffer.
    pub fn data(&self) -> (r: Vec<T>)
        where T: Copy,
        ensures
            r@ == self.data@,
    {
        let mut out: Vec<T> = Vec::new();
        let n = self.data.len();
        for k in 0..n
            invariant
                n == self.data@.len(),
                out@.len() == k,
                forall|i: int| 0 <= i < k ==> out@[i] == self.data@[i],
        {
            out.push(self.data[k]);
        }
        proof {
            assert(out@ =~= self.data@);
        }
        out
    }

    /// A reference to the element at `row, col`, or the error naming the
    /// axis (or both axes) that lies out of bounds.
    pub fn get(&self, row: usize, col: usize) -> (r: Result<&T, IndexError>)
        requires
            self.wf(),
        ensures
            match r {
                Ok(p) => self.in_bounds(row as int, col as int) && *p == self.ent(
                    row as int,
                    col as int,
                ),
                Err(IndexError::Both(a, b)) => a == row && b == col && row >= self.rows && col
                    >= self.columns,
                Err(IndexError::Row(a)) => a == row && row >= self.rows && col < self.columns,
                Err(IndexError::Column(b)) => b == col && col >= self.columns && row < self.rows,
            },
    {
        if row >= self.rows && col >= self.columns {
            return Err(IndexError::Both(row, col));
        }
        if row >= self.rows {
            return Err(IndexError::Row(row));
        }
        if col >= self.columns {
            return Err(IndexError::Column(col));
        }
        proof {
            lemma_buffer_index(*self, row as int, col as int);
        }
        Ok(&self.data[row * self.columns + col])
    }

    /// References to the elements of one row, in column order, or `None`
    /// when `row` is out of bounds.
    pub fn get_row(&self, row: usize) -> (r: Option<Vec<&T>>)
        requires
            self.wf(),
        ensures
            match r {
                Some(v) => row < self.rows && v@.len() == self.columns && forall|j: int|
                    0 <= j < self.columns ==> v@[j] == self.ent(row as int, j),
                None => row >= self.rows,
            },
    {
        if row >= self.rows {
            return None;
        }
        let mut out: Vec<&T> = Vec::new();
        let cols = self.columns;
        for j in 0..cols
            invariant
                self.wf(),
                cols == self.columns,
                row < self.rows,
                out@.len() == j,
                forall|jj: int| 0 <= jj < j ==> out@[jj] == self.ent(row as int, jj),
        {
            proof {
                lemma_buffer_index(*self, row as int, j as int);
            }
            out.push(&self.data[row * cols + j]);
        }
        Some(out)
    }

    /// References to the elements of one column, in row order, or `None`
    /// when `col` is out of bounds.
    pub fn get_column(&self, col: usize) -> (r: Option<Vec<&T>>)
        requires
            self.wf(),
        ensures
            match r {
                Some(v) => col < self.columns && v@.len() == self.rows && forall|i: int|
                    0 <= i < self.rows ==> v@[i] == self.ent(i, col as int),
                None => col >= self.columns,
            },
    {
        if col >= self.columns {
            return None;
        }
        let mut out: Vec<&T> = Vec::new();
        let rows = self.rows;
        for i in 0..rows
            invariant
                self.wf(),
                rows == self.rows,
                col < self.columns,
                out@.len() == i,
                forall|ii: int| 0 <= ii < i ==> out@[ii] == self.ent(ii, col as int),
        {
            proof {
                lemma_buffer_index(*self, i as int, col as int);
            }
            out.push(&self.data[i * self.columns + col]);
        }
        Some(out)
    }

    /// The rows indexed by `rows`, each as `get_row` returns it, or `None`
    /// as soon as one index lies out of bounds.
    pub fn get_rows(&self, rows: core::ops::Range<usize>) -> (r: Option<Vec<Vec<&T>>>)
        requires
            self.wf(),
        ensures
            match r {
                Some(vs) => {
                    &&& (rows.start >= rows.end || rows.end <= self.rows)
                    &&& vs@.len() == if rows.start <= rows.end {
                        rows.end - rows.start
                    } else {
                        0
                    }
                    &&& forall|k: int| #![trigger vs@[k]]
                        0 <= k < vs@.len() ==> vs@[k]@.len() == self.columns && forall|j: int|
                            0 <= j < self.columns ==> vs@[k]@[j] == self.ent(rows.start + k, j)
                },
                None => rows.start < rows.end && rows.end > self.rows,
            },
    {
        let mut out: Vec<Vec<&T>> = Vec::new();
        let start = rows.start;
        let end = rows.end;
        if start >= end {
            return Some(out);
        }
        for i in start..end
            invariant
                self.wf(),
                start == rows.start,
                end == rows.end,
                start < end,
                out@.len() == i - start,
                i == start || i <= self.rows,
                forall|k: int| #![trigger out@[k]]
                    0 <= k < out@.len() ==> out@[k]@.len() == self.columns && forall|j: int|
                        0 <= j < self.columns ==> out@[k]@[j] == self.ent(start + k, j),
        {
            match self.get_row(i) {
                Some(v) => out.push(v),
                None => {
                    return None;
                },
            }
        }
        Some(out)
    }

    /// The columns indexed by `cols`, each as `get_column` returns it, or
    /// `None` as soon as one index lies out of bounds.
    pub fn get_columns(&self, cols: core::ops::Range<usize>) -> (r: Option<Vec<Vec<&T>>>)
        requires
            self.wf(),
        ensures
            match r {
                Some(vs) => {
                    &&& (cols.start >= cols.end || cols.end <= self.columns)
                    &&& vs@.len() == if cols.start <= cols.end {
                        cols.end - cols.start
                    } else {
                        0
                    }
                    &&& forall|k: int| #![trigger vs@[k]]
                        0 <= k < vs@.len() ==> vs@[k]@.len() == self.rows && forall|i: int|
                            0 <= i < self.rows ==> vs@[k]@[i] == self.ent(i, cols.start + k)
                },
                None => cols.start < cols.end && cols.end > self.columns,
            },
    {
        let mut out: Vec<Vec<&T>> = Vec::new();
        let start = cols.start;
        let end = cols.end;
        if start >= end {
            return Some(out);
        }
        for c in start..end
            invariant
                self.wf(),
                start == cols.start,
                end == cols.end,
                start < end,
                out@.len() == c - start,
                c == start || c <= self.columns,
                forall|k: int| #![trigger out@[k]]
                    0 <= k < out@.len() ==> out@[k]@.len() == self.rows && forall|i: int|
                        0 <= i < self.rows ==> out@[k]@[i] == self.ent(i, start + k),
        {
            match self.get_column(c) {
                Some(v) => out.push(v),
                None => {
                    return None;
                },
            }
        }
        Some(out)
    }

    /// The rectangular block at the crossing of `rows` and `cols`: one inner
    /// vector per requested row, holding the references at the requested
    /// columns. `None` as soon as a row index is out of bounds, then as soon
    /// as a column index is.
    pub fn get_area(&self, rows: core::ops::Range<usize>, cols: core::ops::Range<usize>) -> (r:
        Option<Vec<Vec<&T>>>)
        requires
            self.wf(),
        ensures
            match r {
                Some(vs) => {
                    &&& (rows.start >= rows.end || (rows.end <= self.rows && (cols.start
                        >= cols.end || cols.end <= self.columns)))
                    &&& vs@.len() == if rows.start <= rows.end {
                        rows.end - rows.start
                    } else {
                        0
                    }
                    &&& forall|k: int| #![trigger vs@[k]]
                        0 <= k < vs@.len() ==> vs@[k]@.len() == (if cols.start <= cols.end {
                            cols.end - cols.start
                        } else {
                            0int
                        }) && forall|j: int|
                            0 <= j < vs@[k]@.len() ==> vs@[k]@[j] == self.ent(
                                rows.start + k,
                                cols.start + j,
                            )
                },
                None => rows.start < rows.end && (rows.end > self.rows || (cols.start < cols.end
                    && cols.end > self.columns)),
            },
    {
        let mut out: Vec<Vec<&T>> = Vec::new();
        let rs = rows.start;
        let re = rows.end;
        let cs = cols.start;
        let ce = cols.end;
        if rs >= re {
            return Some(out);
        }
        for i in rs..re
            invariant
                self.wf(),
                rs == rows.start,
                re == rows.end,
                cs == cols.start,
                ce == cols.end,
                rs < re,
                out@.len() == i - rs,
                i == rs || i <= self.rows,
                cs < ce ==> (ce <= self.columns || i == rs),
                forall|k: int| #![trigger out@[k]]
                    0 <= k < out@.len() ==> out@[k]@.len() == (if cs <= ce {
                        ce - cs
                    } else {
                        0int
                    }) && forall|j: int|
                        0 <= j < out@[k]@.len() ==> out@[k]@[j] == self.ent(rs + k, cs + j),
        {
            if i >= self.rows {
                return None;
            }
            let mut line: Vec<&T> = Vec::new();
            if cs < ce {
                for c in cs..ce
                    invariant
                        self.wf(),
                        rs == rows.start,
                        re == rows.end,
                        cs == cols.start,
                        ce == cols.end,
                        rs < re,
                        cs < ce,
                        i < self.rows,
                        c == cs || c <= self.columns,
                        line@.len() == c - cs,
                        forall|j: int|
                            0 <= j < line@.len() ==> line@[j] == self.ent(i as int, cs + j),
                {
                    if c >= self.columns {
                        return None;
                    }
                    proof {
                        lemma_buffer_index(*self, i as int, c as int,
                        );
                    }
                    line.push(&self.data[i * self.columns + c]);
                }
            }
            out.push(line);
        }
        Some(out)
    }
}

} // verus!
