//! Structural mutation: reshaping the buffer, removing or inserting one row
//! or column, gluing another matrix on, and mapping the elements. Every
//! operation validates its arguments before it mutates, so a failed call
//! leaves the matrix exactly as it was.
use vstd::prelude::*;

use crate::append_copy;
use crate::errors::IndexError;
use crate::errors::SizingError;
use crate::Matrix;

verus! {

impl<T: Copy> Matrix<T> {
    /// Reinterprets the buffer under new dimensions without moving any
    /// element. Fails unless the new shape covers exactly the same number
    /// of elements, with the usual zero-size coupling.
    pub fn resize(&mut self, dims: (usize, usize)) -> (r: Result<(), SizingError>)
        requires
            old(self).wf(),
        ensures
            final(self).data@ == old(self).data@,
            final(self).wf(),
            match r {
                Ok(()) => (dims.0 == 0 <==> dims.1 == 0) && dims.0 * dims.1 == old(
                    self,
                ).data@.len() && final(self).rows == dims.0 && final(self).columns == dims.1,
                Err(e) => final(self).rows == old(self).rows && final(self).columns == old(
                    self,
                ).columns && match e {
                    SizingError::Row(z) => z == 0 && dims.0 == 0 && dims.1 != 0,
                    SizingError::Column(z) => z == 0 && dims.1 == 0 && dims.0 != 0,
                    SizingError::Both(a, b) => a == dims.0 && b == dims.1 && (dims.0 == 0 <==> dims.1
                        == 0) && dims.0 * dims.1 != old(self).data@.len(),
                },
            },
    {
        let (rows, columns) = dims;
        if rows == 0 && columns != 0 {
            return Err(SizingError::Row(0));
        }
        if columns == 0 && rows != 0 {
            return Err(SizingError::Column(0));
        }
        let n = self.data.len();
        proof {
            assert((rows as u128) * (columns as u128) <= u128::MAX) by (nonlinear_arith)
                requires
                    rows <= u64::MAX && columns <= u64::MAX,
            ;
        }
        if (rows as u128) * (columns as u128) != (n as u128) {
            return Err(SizingError::Both(rows, columns));
        }
        self.rows = rows;
        self.columns = columns;
        Ok(())
    }

    /// A copy of the matrix reinterpreted under new dimensions, validated as
    /// `resize` validates them.
    pub fn as_resize(&self, dims: (usize, usize)) -> (r: Result<Self, SizingError>)
        requires
            self.wf(),
        ensures
            match r {
                Ok(m) => (dims.0 == 0 <==> dims.1 == 0) && dims.0 * dims.1 == self.data@.len()
                    && m.rows == dims.0 && m.columns == dims.1 && m.data@ == self.data@ && m.wf(),
                Err(e) => match e {
                    SizingError::Row(z) => z == 0 && dims.0 == 0 && dims.1 != 0,
                    SizingError::Column(z) => z == 0 && dims.1 == 0 && dims.0 != 0,
                    SizingError::Both(a, b) => a == dims.0 && b == dims.1 && (dims.0 == 0 <==> dims.1
                        == 0) && dims.0 * dims.1 != self.data@.len(),
                },
            },
    {
        let (rows, columns) = dims;
        if rows == 0 && columns != 0 {
            return Err(SizingError::Row(0));
        }
        if columns == 0 && rows != 0 {
            return Err(SizingError::Column(0));
        }
        let n = self.data.len();
        proof {
            assert((rows as u128) * (columns as u128) <= u128::MAX) by (nonlinear_arith)
                requires
                    rows <= u64::MAX && columns <= u64::MAX,
            ;
        }
        if (rows as u128) * (columns as u128) != (n as u128) {
            return Err(SizingError::Both(rows, columns));
        }
        let mut data: Vec<T> = Vec::new();
        append_copy(&mut data, &self.data);
        proof {
            assert(data@ =~= self.data@);
        }
        Ok(Matrix { data, rows, columns })
    }

    /// Deletes one row. When the last row goes, both dimensions collapse to
    /// zero, keeping the matrix well formed.
    pub fn remove_row(&mut self, row: usize) -> (r: Result<(), IndexError>)
        requires
            old(self).wf(),
        ensures
            final(self).wf(),
            match r {
                Ok(()) => row < old(self).rows && final(self).data@ == old(self).data@.subrange(
                    0,
                    row * old(self).columns,
                ) + old(self).data@.subrange(
                    (row + 1) * old(self).columns,
                    old(self).data@.len() as int,
                ) && (if old(self).rows == 1 {
                    final(self).rows == 0 && final(self).columns == 0
                } else {
                    final(self).rows == old(self).rows - 1 && final(self).columns == old(
                        self,
                    ).columns
                }),
                Err(e) => e == IndexError::Row(row) && row >= old(self).rows && *final(self)
                    == *old(self),
            },
    {
        if row >= self.rows {
            return Err(IndexError::Row(row));
        }
        let cols = self.columns;
        let len = self.data.len();
        let ghost orows = old(self).rows as int;
        proof {
            assert((row + 1) * cols == row * cols + cols && (row + 1) * cols <= orows * cols)
                by (nonlinear_arith)
                requires
                    row < orows && cols >= 0,
            ;
        }
        let start = row * cols;
        let stop = start + cols;
        let mut out: Vec<T> = Vec::new();
        for k in 0..start
            invariant
                start <= stop <= len,
                len == self.data@.len(),
                out@ =~= self.data@.subrange(0, k as int),
        {
            out.push(self.data[k]);
            proof {
                assert(out@ =~= self.data@.subrange(0, k + 1 as int));
            }
        }
        for k in stop..len
            invariant
                start <= stop <= len,
                len == self.data@.len(),
                out@ =~= self.data@.subrange(0, start as int) + self.data@.subrange(
                    stop as int,
                    k as int,
                ),
        {
            out.push(self.data[k]);
            proof {
                assert(out@ =~= self.data@.subrange(0, start as int) + self.data@.subrange(
                    stop as int,
                    k + 1 as int,
                ));
            }
        }
        proof {
            assert(orows * cols - cols == (orows - 1) * cols) by (nonlinear_arith);
        }
        self.data = out;
        if self.rows == 1 {
            self.rows = 0;
            self.columns = 0;
        } else {
            self.rows = self.rows - 1;
        }
        Ok(())
    }

    /// Deletes one column. When the last column goes, both dimensions
    /// collapse to zero, keeping the matrix well formed.
    pub fn remove_column(&mut self, col: usize) -> (r: Result<(), IndexError>)
        requires
            old(self).wf(),
        ensures
            final(self).wf(),
            match r {
                Ok(()) => {
                    &&& col < old(self).columns
                    &&& (if old(self).columns == 1 {
                        final(self).rows == 0 && final(self).columns == 0
                    } else {
                        final(self).rows == old(self).rows && final(self).columns == old(
                            self,
                        ).columns - 1
                    })
                    &&& final(self).data@.len() == old(self).rows * (old(self).columns - 1)
                    &&& forall|i: int, j: int|
                        final(self).in_bounds(i, j) ==> final(self).ent(i, j) == old(self).ent(
                            i,
                            if j < col {
                                j
                            } else {
                                j + 1
                            },
                        )
                },
                Err(e) => e == IndexError::Column(col) && col >= old(self).columns && *final(self)
                    == *old(self),
            },
    {
        if col >= self.columns {
            return Err(IndexError::Column(col));
        }
        let rows = self.rows;
        let cols = self.columns;
        let mut out: Vec<T> = Vec::new();
        let ghost w = cols - 1;
        proof {
            assert(0 * w == 0 && rows * 0 == 0) by (nonlinear_arith);
        }
        for i in 0..rows
            invariant
                self.wf(),
                rows == self.rows,
                cols == self.columns,
                col < cols,
                w == cols - 1,
                out@.len() == i * w,
                forall|a: int, b: int|
                    0 <= a < i && 0 <= b < w ==> #[trigger] out@[a * w + b] == self.ent(
                        a,
                        if b < col {
                            b
                        } else {
                            b + 1
                        },
                    ),
        {
            for j in 0..cols
                invariant
                    self.wf(),
                    rows == self.rows,
                    cols == self.columns,
                    col < cols,
                    w == cols - 1,
                    i < rows,
                    out@.len() == i * w + (if j <= col {
                        j as int
                    } else {
                        j - 1
                    }),
                    forall|a: int, b: int|
                        0 <= a < i && 0 <= b < w ==> #[trigger] out@[a * w + b] == self.ent(
                            a,
                            if b < col {
                                b
                            } else {
                                b + 1
                            },
                        ),
                    forall|b: int|
                        0 <= b < (if j <= col {
                            j as int
                        } else {
                            j - 1
                        }) ==> #[trigger] out@[i * w + b] == self.ent(
                            i as int,
                            if b < col {
                                b
                            } else {
                                b + 1
                            },
                        ),
            {
                if j != col {
                    proof {
                        crate::lemma_buffer_index(*self, i as int, j as int);
                    }
                    out.push(self.data[i * cols + j]);
                    proof {
                        assert forall|a: int, b: int| 0 <= a < i && 0 <= b < w implies #[trigger] (a
                            * w + b) < i * w by {
                            assert(a * w + w <= i * w) by (nonlinear_arith)
                                requires
                                    a < i && w >= 0,
                            ;
                        }
                    }
                }
            }
            proof {
                assert forall|a: int, b: int|
                    0 <= a < i + 1 && 0 <= b < w implies #[trigger] out@[a * w + b] == self.ent(
                    a,
                    if b < col {
                        b
                    } else {
                        b + 1
                    },
                ) by {
                    crate::lemma_flat_index_bound(i + 1 as int, w as int, a, b);
                }
                assert((i + 1) * w == i * w + w) by (nonlinear_arith);
            }
        }
        self.data = out;
        if self.columns == 1 {
            self.rows = 0;
            self.columns = 0;
        } else {
            self.columns = self.columns - 1;
        }
        proof {
            assert(rows * 0 == 0 && 0 * 0 == 0) by (nonlinear_arith);
            assert forall|i: int, j: int| self.in_bounds(i, j) implies self.ent(i, j) == old(
                self,
            ).ent(
                i,
                if j < col {
                    j
                } else {
                    j + 1
                },
            ) by {
                crate::lemma_flat_index_bound(self.rows as int, self.columns as int, i, j);
            }
        }
        Ok(())
    }

    /// Inserts a row at `index` (the end is allowed). The data must be as
    /// long as the other rows, unless the matrix is empty, in which case the
    /// data's length becomes the column count.
    pub fn insert_row(&mut self, index: usize, row_data: &Vec<T>) -> (r: Result<(), SizingError>)
        requires
            old(self).wf(),
            old(self).rows < usize::MAX,
        ensures
            final(self).wf(),
            match r {
                Ok(()) => {
                    &&& index <= old(self).rows
                    &&& (old(self).rows != 0 ==> row_data@.len() == old(self).columns)
                    &&& (if old(self).rows == 0 && row_data@.len() == 0 {
                        final(self).rows == 0 && final(self).columns == 0 && final(self).data@
                            == old(self).data@
                    } else {
                        &&& final(self).rows == old(self).rows + 1
                        &&& final(self).columns == (if old(self).rows == 0 {
                            row_data@.len() as int
                        } else {
                            old(self).columns as int
                        })
                        &&& forall|i: int, j: int|
                            final(self).in_bounds(i, j) ==> final(self).ent(i, j) == (if i < index {
                                old(self).ent(i, j)
                            } else if i == index {
                                row_data@[j]
                            } else {
                                old(self).ent(i - 1, j)
                            })
                    })
                },
                Err(e) => *final(self) == *old(self) && match e {
                    SizingError::Row(v) => v == index && index > old(self).rows && (old(self).rows
                        == 0 || row_data@.len() == old(self).columns),
                    SizingError::Column(v) => v == row_data@.len() && index <= old(self).rows && old(
                        self,
                    ).rows != 0 && row_data@.len() != old(self).columns,
                    SizingError::Both(a, b) => a == index && b == row_data@.len() && index > old(
                        self,
                    ).rows && old(self).rows != 0 && row_data@.len() != old(self).columns,
                },
            },
    {
        let bad_index = index > self.rows;
        let bad_len = self.rows != 0 && row_data.len() != self.columns;
        if bad_index && bad_len {
            return Err(SizingError::Both(index, row_data.len()));
        }
        if bad_index {
            return Err(SizingError::Row(index));
        }
        if bad_len {
            return Err(SizingError::Column(row_data.len()));
        }
        if self.rows == 0 && row_data.len() == 0 {
            return Ok(());
        }
        let cols = if self.rows == 0 {
            row_data.len()
        } else {
            self.columns
        };
        let ghost orows = old(self).rows as int;
        proof {
            assert(index * cols <= orows * cols) by (nonlinear_arith)
                requires
                    index <= orows && cols >= 0,
            ;
            vstd::std_specs::vec::axiom_spec_len(&self.data);
            if orows == 0 {
                assert(index * cols == 0) by (nonlinear_arith)
                    requires
                        index == 0,
                ;
            }
        }
        let split = index * cols;
        let len = self.data.len();
        let mut fin: Vec<T> = Vec::new();
        for k in 0..split
            invariant
                split <= len,
                len == self.data@.len(),
                fin@ =~= self.data@.subrange(0, k as int),
        {
            fin.push(self.data[k]);
            proof {
                assert(fin@ =~= self.data@.subrange(0, k + 1 as int));
            }
        }
        append_copy(&mut fin, row_data);
        for k in split..len
            invariant
                split <= len,
                len == self.data@.len(),
                fin@ =~= self.data@.subrange(0, split as int) + row_data@ + self.data@.subrange(
                    split as int,
                    k as int,
                ),
        {
            fin.push(self.data[k]);
            proof {
                assert(fin@ =~= self.data@.subrange(0, split as int) + row_data@
                    + self.data@.subrange(split as int, k + 1 as int));
            }
        }
        let ghost oldm = *old(self);
        self.data = fin;
        self.columns = cols;
        self.rows = self.rows + 1;
        proof {
            lemma_insert_row_shape(oldm, *self, index as int, row_data@, cols as int);
        }
        Ok(())
    }
}

impl<T: Copy> Matrix<T> {
    /// Inserts a column at `index` (the end is allowed). The data must be as
    /// long as the other columns, unless the matrix is empty, in which case
    /// the data's length becomes the row count.
    pub fn insert_column(&mut self, index: usize, col_data: &Vec<T>) -> (r: Result<
        (),
        SizingError,
    >)
        requires
            old(self).wf(),
            old(self).columns < usize::MAX,
        ensures
            final(self).wf(),
            match r {
                Ok(()) => {
                    &&& index <= old(self).columns
                    &&& (old(self).columns != 0 ==> col_data@.len() == old(self).rows)
                    &&& (if old(self).columns == 0 && col_data@.len() == 0 {
                        final(self).rows == 0 && final(self).columns == 0 && final(self).data@
                            == old(self).data@
                    } else {
                        &&& final(self).columns == old(self).columns + 1
                        &&& final(self).rows == (if old(self).columns == 0 {
                            col_data@.len() as int
                        } else {
                            old(self).rows as int
                        })
                        &&& forall|i: int, j: int|
                            final(self).in_bounds(i, j) ==> final(self).ent(i, j) == (if j < index {
                                old(self).ent(i, j)
                            } else if j == index {
                                col_data@[i]
                            } else {
                                old(self).ent(i, j - 1)
                            })
                    })
                },
                Err(e) => *final(self) == *old(self) && match e {
                    SizingError::Row(v) => v == col_data@.len() && index <= old(self).columns && old(
                        self,
                    ).columns != 0 && col_data@.len() != old(self).rows,
                    SizingError::Column(v) => v == index && index > old(self).columns && (old(
                        self,
                    ).columns == 0 || col_data@.len() == old(self).rows),
                    SizingError::Both(a, b) => a == col_data@.len() && b == index && index > old(
                        self,
                    ).columns && old(self).columns != 0 && col_data@.len() != old(self).rows,
                },
            },
    {
        let bad_index = index > self.columns;
        let bad_len = self.columns != 0 && col_data.len() != self.rows;
        if bad_index && bad_len {
            return Err(SizingError::Both(col_data.len(), index));
        }
        if bad_index {
            return Err(SizingError::Column(index));
        }
        if bad_len {
            return Err(SizingError::Row(col_data.len()));
        }
        if self.columns == 0 && col_data.len() == 0 {
            return Ok(());
        }
        let nrows = if self.columns == 0 {
            col_data.len()
        } else {
            self.rows
        };
        let w = self.columns + 1;
        let mut out: Vec<T> = Vec::new();
        proof {
            assert(0 * w == 0) by (nonlinear_arith);
        }
        for i in 0..nrows
            invariant
                self.wf(),
                w == self.columns + 1,
                index <= self.columns,
                self.columns != 0 ==> col_data@.len() == self.rows && nrows == self.rows,
                self.columns == 0 ==> nrows == col_data@.len(),
                nrows <= col_data@.len() || self.columns != 0,
                out@.len() == i * w,
                forall|a: int, b: int|
                    0 <= a < i && 0 <= b < w ==> #[trigger] out@[a * w + b] == (if b < index {
                        self.ent(a, b)
                    } else if b == index {
                        col_data@[a]
                    } else {
                        self.ent(a, b - 1)
                    }),
        {
            for j in 0..w
                invariant
                    self.wf(),
                    w == self.columns + 1,
                    index <= self.columns,
                    self.columns != 0 ==> col_data@.len() == self.rows && nrows == self.rows,
                    self.columns == 0 ==> nrows == col_data@.len(),
                    i < nrows,
                    nrows <= col_data@.len() || self.columns != 0,
                    out@.len() == i * w + j,
                    forall|a: int, b: int|
                        0 <= a < i && 0 <= b < w ==> #[trigger] out@[a * w + b] == (if b < index {
                            self.ent(a, b)
                        } else if b == index {
                            col_data@[a]
                        } else {
                            self.ent(a, b - 1)
                        }),
                    forall|b: int|
                        0 <= b < j ==> #[trigger] out@[i * w + b] == (if b < index {
                            self.ent(i as int, b)
                        } else if b == index {
                            col_data@[i as int]
                        } else {
                            self.ent(i as int, b - 1)
                        }),
            {
                if j < index {
                    proof {
                        crate::lemma_buffer_index(*self, i as int, j as int);
                    }
                    out.push(self.data[i * self.columns + j]);
                } else if j == index {
                    out.push(col_data[i]);
                } else {
                    proof {
                        crate::lemma_buffer_index(*self, i as int, j - 1 as int);
                    }
                    out.push(self.data[i * self.columns + (j - 1)]);
                }
                proof {
                    assert forall|a: int, b: int| 0 <= a < i && 0 <= b < w implies #[trigger] (a * w
                        + b) < i * w by {
                        assert(a * w + w <= i * w) by (nonlinear_arith)
                            requires
                                a < i && w >= 0,
                        ;
                    }
                }
            }
            proof {
                assert((i + 1) * w == i * w + w) by (nonlinear_arith);
            }
        }
        let ghost oldm = *old(self);
        self.data = out;
        self.rows = nrows;
        self.columns = w;
        proof {
            assert forall|i: int, j: int| self.in_bounds(i, j) implies self.ent(i, j) == (if j
                < index {
                oldm.ent(i, j)
            } else if j == index {
                col_data@[i]
            } else {
                oldm.ent(i, j - 1)
            }) by {
                crate::lemma_flat_index_bound(self.rows as int, self.columns as int, i, j);
            }
        }
        Ok(())
    }

    /// Glues `other`'s rows on top. The column counts must match, unless
    /// either matrix is empty: joining an empty matrix changes nothing, and
    /// an empty receiver simply becomes a copy of `other`.
    pub fn join_matrix_above(&mut self, other: &Self) -> (r: Result<(), SizingError>)
        requires
            old(self).wf(),
            other.wf(),
            old(self).rows + other.rows <= usize::MAX,
        ensures
            final(self).wf(),
            match r {
                Ok(()) => {
                    &&& (other.rows == 0 || old(self).rows == 0 || other.columns == old(
                        self,
                    ).columns)
                    &&& final(self).rows == old(self).rows + other.rows
                    &&& final(self).columns == (if old(self).rows == 0 {
                        other.columns as int
                    } else {
                        old(self).columns as int
                    })
                    &&& final(self).data@ == other.data@ + old(self).data@
                },
                Err(e) => *final(self) == *old(self) && e == SizingError::Column(other.columns)
                    && other.rows != 0 && old(self).rows != 0 && other.columns != old(self).columns,
            },
    {
        if other.rows != 0 && self.rows != 0 && other.columns != self.columns {
            return Err(SizingError::Column(other.columns));
        }
        let mut out: Vec<T> = Vec::new();
        append_copy(&mut out, &other.data);
        append_copy(&mut out, &self.data);
        proof {
            assert(out@ =~= other.data@ + old(self).data@);
            lemma_join_rows_shape(
                other.rows as int,
                other.columns as int,
                old(self).rows as int,
                old(self).columns as int,
                out@.len() as int,
            );
        }
        self.data = out;
        if self.rows == 0 {
            self.columns = other.columns;
        }
        self.rows = self.rows + other.rows;
        Ok(())
    }

    /// Glues `other`'s rows underneath. The column counts must match, unless
    /// either matrix is empty: joining an empty matrix changes nothing, and
    /// an empty receiver simply becomes a copy of `other`.
    pub fn join_matrix_below(&mut self, other: &Self) -> (r: Result<(), SizingError>)
        requires
            old(self).wf(),
            other.wf(),
            old(self).rows + other.rows <= usize::MAX,
        ensures
            final(self).wf(),
            match r {
                Ok(()) => {
                    &&& (other.rows == 0 || old(self).rows == 0 || other.columns == old(
                        self,
                    ).columns)
                    &&& final(self).rows == old(self).rows + other.rows
                    &&& final(self).columns == (if old(self).rows == 0 {
                        other.columns as int
                    } else {
                        old(self).columns as int
                    })
                    &&& final(self).data@ == old(self).data@ + other.data@
                },
                Err(e) => *final(self) == *old(self) && e == SizingError::Column(other.columns)
                    && other.rows != 0 && old(self).rows != 0 && other.columns != old(self).columns,
            },
    {
        if other.rows != 0 && self.rows != 0 && other.columns != self.columns {
            return Err(SizingError::Column(other.columns));
        }
        let mut out: Vec<T> = Vec::new();
        append_copy(&mut out, &self.data);
        append_copy(&mut out, &other.data);
        proof {
            assert(out@ =~= old(self).data@ + other.data@);
            lemma_join_rows_shape(
                old(self).rows as int,
                old(self).columns as int,
                other.rows as int,
                other.columns as int,
                out@.len() as int,
            );
        }
        self.data = out;
        if self.rows == 0 {
            self.columns = other.columns;
        }
        self.rows = self.rows + other.rows;
        Ok(())
    }
}

impl<T: Copy> Matrix<T> {
    /// Glues `other`'s columns on the left, interleaving per row to keep the
    /// row-major layout. The row counts must match, unless either matrix is
    /// empty: joining an empty matrix changes nothing, and an empty receiver
    /// simply becomes a copy of `other`.
    pub fn join_matrix_left(&mut self, other: &Self) -> (r: Result<(), SizingError>)
        requires
            old(self).wf(),
            other.wf(),
            old(self).columns + other.columns <= usize::MAX,
        ensures
            final(self).wf(),
            match r {
                Ok(()) => {
                    &&& (other.columns == 0 || old(self).columns == 0 || other.rows == old(
                        self,
                    ).rows)
                    &&& final(self).columns == old(self).columns + other.columns
                    &&& final(self).rows == (if old(self).columns == 0 {
                        other.rows as int
                    } else {
                        old(self).rows as int
                    })
                    &&& forall|i: int, j: int|
                        final(self).in_bounds(i, j) ==> final(self).ent(i, j) == (if j
                            < other.columns {
                            other.ent(i, j)
                        } else {
                            old(self).ent(i, j - other.columns)
                        })
                },
                Err(e) => *final(self) == *old(self) && e == SizingError::Row(other.rows)
                    && other.columns != 0 && old(self).columns != 0 && other.rows != old(self).rows,
            },
    {
        if other.columns != 0 && self.columns != 0 && other.rows != self.rows {
            return Err(SizingError::Row(other.rows));
        }
        let nrows = if self.columns == 0 {
            other.rows
        } else {
            self.rows
        };
        let w = self.columns + other.columns;
        let oc = other.columns;
        let mut out: Vec<T> = Vec::new();
        proof {
            assert(0 * w == 0) by (nonlinear_arith);
        }
        for i in 0..nrows
            invariant
                self.wf(),
                other.wf(),
                w == self.columns + other.columns,
                oc == other.columns,
                self.columns != 0 ==> nrows == self.rows,
                self.columns == 0 ==> nrows == other.rows,
                other.columns != 0 ==> nrows <= other.rows,
                out@.len() == i * w,
                forall|a: int, b: int|
                    0 <= a < i && 0 <= b < w ==> #[trigger] out@[a * w + b] == (if b < oc {
                        other.ent(a, b)
                    } else {
                        self.ent(a, b - oc)
                    }),
        {
            for j in 0..w
                invariant
                    self.wf(),
                    other.wf(),
                    w == self.columns + other.columns,
                    oc == other.columns,
                    self.columns != 0 ==> nrows == self.rows,
                    self.columns == 0 ==> nrows == other.rows,
                    other.columns != 0 ==> nrows <= other.rows,
                    i < nrows,
                    out@.len() == i * w + j,
                    forall|a: int, b: int|
                        0 <= a < i && 0 <= b < w ==> #[trigger] out@[a * w + b] == (if b < oc {
                            other.ent(a, b)
                        } else {
                            self.ent(a, b - oc)
                        }),
                    forall|b: int|
                        0 <= b < j ==> #[trigger] out@[i * w + b] == (if b < oc {
                            other.ent(i as int, b)
                        } else {
                            self.ent(i as int, b - oc)
                        }),
            {
                if j < oc {
                    proof {
                        crate::lemma_buffer_index(*other, i as int, j as int);
                    }
                    out.push(other.data[i * oc + j]);
                } else {
                    proof {
                        crate::lemma_buffer_index(*self, i as int, (j - oc) as int);
                    }
                    out.push(self.data[i * self.columns + (j - oc)]);
                }
                proof {
                    assert forall|a: int, b: int| 0 <= a < i && 0 <= b < w implies #[trigger] (a * w
                        + b) < i * w by {
                        assert(a * w + w <= i * w) by (nonlinear_arith)
                            requires
                                a < i && w >= 0,
                        ;
                    }
                }
            }
            proof {
                assert((i + 1) * w == i * w + w) by (nonlinear_arith);
            }
        }
        let ghost oldm = *old(self);
        self.data = out;
        self.rows = nrows;
        self.columns = w;
        proof {
            assert forall|i: int, j: int| self.in_bounds(i, j) implies self.ent(i, j) == (if j < oc {
                other.ent(i, j)
            } else {
                oldm.ent(i, j - oc)
            }) by {
                crate::lemma_flat_index_bound(self.rows as int, self.columns as int, i, j);
            }
        }
        Ok(())
    }

    /// Glues `other`'s columns on the right, interleaving per row to keep
    /// the row-major layout. The row counts must match, unless either matrix
    /// is empty: joining an empty matrix changes nothing, and an empty
    /// receiver simply becomes a copy of `other`.
    pub fn join_matrix_right(&mut self, other: &Self) -> (r: Result<(), SizingError>)
        requires
            old(self).wf(),
            other.wf(),
            old(self).columns + other.columns <= usize::MAX,
        ensures
            final(self).wf(),
            match r {
                Ok(()) => {
                    &&& (other.columns == 0 || old(self).columns == 0 || other.rows == old(
                        self,
                    ).rows)
                    &&& final(self).columns == old(self).columns + other.columns
                    &&& final(self).rows == (if old(self).columns == 0 {
                        other.rows as int
                    } else {
                        old(self).rows as int
                    })
                    &&& forall|i: int, j: int|
                        final(self).in_bounds(i, j) ==> final(self).ent(i, j) == (if j < old(
                            self,
                        ).columns {
                            old(self).ent(i, j)
                        } else {
                            other.ent(i, j - old(self).columns)
                        })
                },
                Err(e) => *final(self) == *old(self) && e == SizingError::Row(other.rows)
                    && other.columns != 0 && old(self).columns != 0 && other.rows != old(self).rows,
            },
    {
        if other.columns != 0 && self.columns != 0 && other.rows != self.rows {
            return Err(SizingError::Row(other.rows));
        }
        let nrows = if self.columns == 0 {
            other.rows
        } else {
            self.rows
        };
        let w = self.columns + other.columns;
        let sc = self.columns;
        let mut out: Vec<T> = Vec::new();
        proof {
            assert(0 * w == 0) by (nonlinear_arith);
        }
        for i in 0..nrows
            invariant
                self.wf(),
                other.wf(),
                w == self.columns + other.columns,
                sc == self.columns,
                self.columns != 0 ==> nrows == self.rows,
                self.columns == 0 ==> nrows == other.rows,
                other.columns != 0 ==> nrows <= other.rows,
                out@.len() == i * w,
                forall|a: int, b: int|
                    0 <= a < i && 0 <= b < w ==> #[trigger] out@[a * w + b] == (if b < sc {
                        self.ent(a, b)
                    } else {
                        other.ent(a, b - sc)
                    }),
        {
            for j in 0..w
                invariant
                    self.wf(),
                    other.wf(),
                    w == self.columns + other.columns,
                    sc == self.columns,
                    self.columns != 0 ==> nrows == self.rows,
                    self.columns == 0 ==> nrows == other.rows,
                    other.columns != 0 ==> nrows <= other.rows,
                    i < nrows,
                    out@.len() == i * w + j,
                    forall|a: int, b: int|
                        0 <= a < i && 0 <= b < w ==> #[trigger] out@[a * w + b] == (if b < sc {
                            self.ent(a, b)
                        } else {
                            other.ent(a, b - sc)
                        }),
                    forall|b: int|
                        0 <= b < j ==> #[trigger] out@[i * w + b] == (if b < sc {
                            self.ent(i as int, b)
                        } else {
                            other.ent(i as int, b - sc)
                        }),
            {
                if j < sc {
                    proof {
                        crate::lemma_buffer_index(*self, i as int, j as int);
                    }
                    out.push(self.data[i * sc + j]);
                } else {
                    proof {
                        crate::lemma_buffer_index(*other, i as int, (j - sc) as int);
                    }
                    out.push(other.data[i * other.columns + (j - sc)]);
                }
                proof {
                    assert forall|a: int, b: int| 0 <= a < i && 0 <= b < w implies #[trigger] (a * w
                        + b) < i * w by {
                        assert(a * w + w <= i * w) by (nonlinear_arith)
                            requires
                                a < i && w >= 0,
                        ;
                    }
                }
            }
            proof {
                assert((i + 1) * w == i * w + w) by (nonlinear_arith);
            }
        }
        let ghost oldm = *old(self);
        self.data = out;
        self.rows = nrows;
        self.columns = w;
        proof {
            assert forall|i: int, j: int| self.in_bounds(i, j) implies self.ent(i, j) == (if j < sc {
                oldm.ent(i, j)
            } else {
                other.ent(i, j - sc)
            }) by {
                crate::lemma_flat_index_bound(self.rows as int, self.columns as int, i, j);
            }
        }
        Ok(())
    }

    /// Consumes the matrix and maps every element through `f`, keeping the
    /// shape.
    pub fn map<U, F: Fn(T) -> U>(self, f: F) -> (r: Matrix<U>)
        requires
            self.wf(),
            forall|k: int| 0 <= k < self.data@.len() ==> f.requires((self.data@[k],)),
        ensures
            r.rows == self.rows,
            r.columns == self.columns,
            r.wf(),
            r.data@.len() == self.data@.len(),
            forall|k: int|
                0 <= k < self.data@.len() ==> f.ensures((self.data@[k],), #[trigger] r.data@[k]),
    {
        let mut out: Vec<U> = Vec::new();
        let n = self.data.len();
        for k in 0..n
            invariant
                n == self.data@.len(),
                forall|kk: int| 0 <= kk < n ==> f.requires((self.data@[kk],)),
                out@.len() == k,
                forall|kk: int|
                    0 <= kk < k ==> f.ensures((self.data@[kk],), #[trigger] out@[kk]),
        {
            let v = f(self.data[k]);
            out.push(v);
        }
        Matrix { data: out, rows: self.rows, columns: self.columns }
    }
}

/// Stacking an `r1` by `c1` buffer over an `r2` by `c2` one, where any
/// non-empty pair agrees on the column count, gives a buffer of the stacked
/// shape.
proof fn lemma_join_rows_shape(r1: int, c1: int, r2: int, c2: int, len: int)
    requires
        (r1 == 0 <==> c1 == 0),
        (r2 == 0 <==> c2 == 0),
        r1 >= 0 && c1 >= 0 && r2 >= 0 && c2 >= 0,
        r1 != 0 && r2 != 0 ==> c1 == c2,
        len == r1 * c1 + r2 * c2,
    ensures
        r2 == 0 ==> len == (r1 + r2) * c1,
        r2 != 0 ==> len == (r1 + r2) * c2,
        r1 == 0 && r2 == 0 ==> len == 0,
{
    assert((r1 + r2) * c1 == r1 * c1 + r2 * c1 && (r1 + r2) * c2 == r1 * c2 + r2 * c2 && 0 * c1
        == 0 && 0 * c2 == 0 && r1 * 0 == 0 && r2 * 0 == 0) by (nonlinear_arith);
}

/// After splicing `row` into `before`'s buffer at row `index`, the result is
/// well formed and reads as the rows of `before` with `row` between them.
proof fn lemma_insert_row_shape<T>(
    before: Matrix<T>,
    after: Matrix<T>,
    index: int,
    row: Seq<T>,
    cols: int,
)
    requires
        before.wf(),
        0 <= index <= before.rows,
        before.rows != 0 || row.len() != 0,
        before.rows != 0 ==> row.len() == before.columns,
        cols == (if before.rows == 0 {
            row.len() as int
        } else {
            before.columns as int
        }),
        after.rows == before.rows + 1,
        after.columns == cols,
        after.data@ == before.data@.subrange(0, index * cols) + row + before.data@.subrange(
            index * cols,
            before.data@.len() as int,
        ),
    ensures
        after.wf(),
        forall|i: int, j: int|
            after.in_bounds(i, j) ==> after.ent(i, j) == (if i < index {
                before.ent(i, j)
            } else if i == index {
                row[j]
            } else {
                before.ent(i - 1, j)
            }),
{
    assert(before.data@.len() == before.rows * cols) by (nonlinear_arith)
        requires
            before.wf() && cols == (if before.rows == 0 {
                row.len() as int
            } else {
                before.columns as int
            }),
    ;
    assert(row.len() == cols);
    assert(0 <= index * cols <= before.rows * cols) by (nonlinear_arith)
        requires
            0 <= index <= before.rows && cols >= 0,
    ;
    assert(after.data@.len() == before.rows * cols + row.len());
    let glen = after.data@.len() as int;
    assert(glen == (before.rows + 1) * cols) by (nonlinear_arith)
        requires
            glen == before.rows * cols + row.len() && row.len() == cols,
    ;
    assert forall|i: int, j: int| after.in_bounds(i, j) implies after.ent(i, j) == (if i < index {
        before.ent(i, j)
    } else if i == index {
        row[j]
    } else {
        before.ent(i - 1, j)
    }) by {
        crate::lemma_flat_index_bound(after.rows as int, cols, i, j);
        assert(index * cols <= before.rows * cols) by (nonlinear_arith)
            requires
                index <= before.rows && cols >= 0,
        ;
        if i < index {
            assert(i * cols + j < index * cols) by (nonlinear_arith)
                requires
                    i < index && 0 <= j < cols && 0 <= i,
            ;
        } else if i == index {
            assert(i * cols <= i * cols + j < i * cols + cols) by (nonlinear_arith)
                requires
                    0 <= j < cols,
            ;
        } else {
            assert(i * cols + j - (index * cols + cols) == (i - 1) * cols + j - index * cols)
                by (nonlinear_arith);
            assert(index * cols + cols <= i * cols + j) by (nonlinear_arith)
                requires
                    index < i && 0 <= j < cols,
            ;
        }
    }
}

} // verus!
