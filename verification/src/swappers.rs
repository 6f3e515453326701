//! In-place exchanges of two elements, two rows or two columns. Both
//! locations are validated before anything moves, so a failed call never
//! leaves a partial swap behind.
use vstd::prelude::*;

use crate::errors::IndexError;
use crate::lemma_buffer_index;
use crate::lemma_flat_row_range;
use crate::vec_set;
use crate::Matrix;

verus! {

impl<T: Copy> Matrix<T> {
    /// Swaps the elements at the two positions. Equal positions succeed
    /// without touching the matrix, even when they lie out of bounds.
    pub fn swap_elements(&mut self, index1: (usize, usize), index2: (usize, usize)) -> (r: Result<
        (),
        IndexError,
    >)
        requires
            old(self).wf(),
        ensures
            final(self).rows == old(self).rows,
            final(self).columns == old(self).columns,
            final(self).wf(),
            match r {
                Ok(()) => (index1 == index2 && final(self).data@ == old(self).data@) || (old(
                    self,
                ).in_bounds(index1.0 as int, index1.1 as int) && old(self).in_bounds(
                    index2.0 as int,
                    index2.1 as int,
                ) && final(self).data@ == old(self).data@.update(
                    index1.0 * old(self).columns + index1.1,
                    old(self).ent(index2.0 as int, index2.1 as int),
                ).update(
                    index2.0 * old(self).columns + index2.1,
                    old(self).ent(index1.0 as int, index1.1 as int),
                )),
                Err(e) => final(self).data@ == old(self).data@ && index1 != index2 && if !old(
                    self,
                ).in_bounds(index1.0 as int, index1.1 as int) {
                    e == old(self).index_error(index1.0, index1.1)
                } else {
                    !old(self).in_bounds(index2.0 as int, index2.1 as int) && e == old(
                        self,
                    ).index_error(index2.0, index2.1)
                },
            },
    {
        if index1.0 == index2.0 && index1.1 == index2.1 {
            return Ok(());
        }
        let (r1, c1) = index1;
        let (r2, c2) = index2;
        if r1 >= self.rows && c1 >= self.columns {
            return Err(IndexError::Both(r1, c1));
        }
        if r1 >= self.rows {
            return Err(IndexError::Row(r1));
        }
        if c1 >= self.columns {
            return Err(IndexError::Column(c1));
        }
        if r2 >= self.rows && c2 >= self.columns {
            return Err(IndexError::Both(r2, c2));
        }
        if r2 >= self.rows {
            return Err(IndexError::Row(r2));
        }
        if c2 >= self.columns {
            return Err(IndexError::Column(c2));
        }
        proof {
            lemma_buffer_index(*self, r1 as int, c1 as int);
            lemma_buffer_index(*self, r2 as int, c2 as int);
        }
        let f1 = r1 * self.columns + c1;
        let f2 = r2 * self.columns + c2;
        let a = self.data[f1];
        let b = self.data[f2];
        vec_set(&mut self.data, f1, b);
        vec_set(&mut self.data, f2, a);
        Ok(())
    }

    /// Swaps two whole rows. Equal row indexes succeed without touching the
    /// matrix, even when they lie out of bounds.
    pub fn swap_rows(&mut self, row1: usize, row2: usize) -> (r: Result<(), IndexError>)
        requires
            old(self).wf(),
        ensures
            final(self).rows == old(self).rows,
            final(self).columns == old(self).columns,
            final(self).wf(),
            match r {
                Ok(()) => (row1 == row2 && final(self).data@ == old(self).data@) || (
                row1 < old(self).rows && row2 < old(self).rows && final(self).data@.len() == old(
                    self,
                ).data@.len() && forall|i: int, j: int|
                    old(self).in_bounds(i, j) ==> final(self).ent(i, j) == (if i == row1 {
                        old(self).ent(row2 as int, j)
                    } else if i == row2 {
                        old(self).ent(row1 as int, j)
                    } else {
                        old(self).ent(i, j)
                    })),
                Err(e) => final(self).data@ == old(self).data@ && row1 != row2 && if row1 >= old(
                    self,
                ).rows {
                    e == IndexError::Row(row1)
                } else {
                    row2 >= old(self).rows && e == IndexError::Row(row2)
                },
            },
    {
        if row1 == row2 {
            return Ok(());
        }
        if row1 >= self.rows {
            return Err(IndexError::Row(row1));
        }
        if row2 >= self.rows {
            return Err(IndexError::Row(row2));
        }
        let cols = self.columns;
        let ghost orig = *self;
        for j in 0..cols
            invariant
                self.wf(),
                self.rows == orig.rows,
                self.columns == orig.columns,
                self.data@.len() == orig.data@.len(),
                cols == orig.columns,
                row1 < orig.rows,
                row2 < orig.rows,
                row1 != row2,
                orig.wf(),
                forall|jj: int|
                    0 <= jj < j ==> self.ent(row1 as int, jj) == orig.ent(row2 as int, jj)
                        && self.ent(row2 as int, jj) == orig.ent(row1 as int, jj),
                forall|k: int|
                    0 <= k < self.data@.len() && !(row1 * cols <= k < row1 * cols + j) && !(row2
                        * cols <= k < row2 * cols + j) ==> self.data@[k] == orig.data@[k],
        {
            proof {
                lemma_buffer_index(*self, row1 as int, j as int);
                lemma_buffer_index(*self, row2 as int, j as int);
                lemma_flat_row_range(cols as int, row2 as int, j as int, row1 as int);
                lemma_flat_row_range(cols as int, row1 as int, j as int, row2 as int);
            }
            let f1 = row1 * cols + j;
            let f2 = row2 * cols + j;
            let a = self.data[f1];
            let b = self.data[f2];
            vec_set(&mut self.data, f1, b);
            vec_set(&mut self.data, f2, a);
            proof {
                assert(f1 != f2) by {
                    lemma_flat_row_range(cols as int, row2 as int, j as int, row1 as int);
                }
                assert forall|jj: int| 0 <= jj < j implies #[trigger] (row1 * cols + jj) != row2
                    * cols + j && row2 * cols + jj != row1 * cols + j by {
                    if row1 * cols + jj == row2 * cols + j {
                        crate::lemma_flat_index_injective(
                            cols as int,
                            row1 as int,
                            jj,
                            row2 as int,
                            j as int,
                        );
                    }
                    if row2 * cols + jj == row1 * cols + j {
                        crate::lemma_flat_index_injective(
                            cols as int,
                            row2 as int,
                            jj,
                            row1 as int,
                            j as int,
                        );
                    }
                }
                assert forall|jj: int| 0 <= jj < j implies self.ent(row1 as int, jj) == orig.ent(
                    row2 as int,
                    jj,
                ) && self.ent(row2 as int, jj) == orig.ent(row1 as int, jj) by {
                    assert(row1 * cols + jj != row1 * cols + j);
                    assert(row1 * cols + jj != row2 * cols + j);
                    assert(row2 * cols + jj != row1 * cols + j);
                    assert(row2 * cols + jj != row2 * cols + j);
                }
            }
        }
        proof {
            assert forall|i: int, j: int| orig.in_bounds(i, j) implies self.ent(i, j) == (if i
                == row1 {
                orig.ent(row2 as int, j)
            } else if i == row2 {
                orig.ent(row1 as int, j)
            } else {
                orig.ent(i, j)
            }) by {
                crate::lemma_flat_index_bound(orig.rows as int, orig.columns as int, i, j);
                lemma_flat_row_range(cols as int, i, j, row1 as int);
                lemma_flat_row_range(cols as int, i, j, row2 as int);
                if i == row1 {
                    assert(self.ent(row1 as int, j) == orig.ent(row2 as int, j));
                } else if i == row2 {
                    assert(self.ent(row2 as int, j) == orig.ent(row1 as int, j));
                } else {
                    assert(self.data@[i * self.columns + j] == orig.data@[i * orig.columns + j]);
                }
            }
        }
        Ok(())
    }

    /// Swaps two whole columns. Equal column indexes succeed without
    /// touching the matrix, even when they lie out of bounds.
    pub fn swap_columns(&mut self, col1: usize, col2: usize) -> (r: Result<(), IndexError>)
        requires
            old(self).wf(),
        ensures
            final(self).rows == old(self).rows,
            final(self).columns == old(self).columns,
            final(self).wf(),
            match r {
                Ok(()) => (col1 == col2 && final(self).data@ == old(self).data@) || (
                col1 < old(self).columns && col2 < old(self).columns && final(self).data@.len()
                    == old(self).data@.len() && forall|i: int, j: int|
                    old(self).in_bounds(i, j) ==> final(self).ent(i, j) == (if j == col1 {
                        old(self).ent(i, col2 as int)
                    } else if j == col2 {
                        old(self).ent(i, col1 as int)
                    } else {
                        old(self).ent(i, j)
                    })),
                Err(e) => final(self).data@ == old(self).data@ && col1 != col2 && if col1 >= old(
                    self,
                ).columns {
                    e == IndexError::Column(col1)
                } else {
                    col2 >= old(self).columns && e == IndexError::Column(col2)
                },
            },
    {
        if col1 == col2 {
            return Ok(());
        }
        if col1 >= self.columns {
            return Err(IndexError::Column(col1));
        }
        if col2 >= self.columns {
            return Err(IndexError::Column(col2));
        }
        let rows = self.rows;
        let cols = self.columns;
        let ghost orig = *self;
        for i in 0..rows
            invariant
                self.wf(),
                self.rows == orig.rows,
                self.columns == orig.columns,
                self.data@.len() == orig.data@.len(),
                rows == orig.rows,
                cols == orig.columns,
                col1 < orig.columns,
                col2 < orig.columns,
                col1 != col2,
                orig.wf(),
                forall|ii: int|
                    0 <= ii < i ==> self.ent(ii, col1 as int) == orig.ent(ii, col2 as int)
                        && self.ent(ii, col2 as int) == orig.ent(ii, col1 as int),
                forall|k: int|
                    0 <= k < self.data@.len() && (k >= i * cols || (k % (cols as int) != col1 && k
                        % (cols as int) != col2)) ==> self.data@[k] == orig.data@[k],
        {
            proof {
                lemma_buffer_index(*self, i as int, col1 as int);
                lemma_buffer_index(*self, i as int, col2 as int);
            }
            let f1 = i * cols + col1;
            let f2 = i * cols + col2;
            proof {
                assert((i * cols + col1) % (cols as int) == col1) by (nonlinear_arith)
                    requires
                        col1 < cols && 0 <= i,
                ;
                assert((i * cols + col2) % (cols as int) == col2) by (nonlinear_arith)
                    requires
                        col2 < cols && 0 <= i,
                ;
                assert(i * cols + cols == (i + 1) * cols) by (nonlinear_arith);
            }
            let a = self.data[f1];
            let b = self.data[f2];
            vec_set(&mut self.data, f1, b);
            vec_set(&mut self.data, f2, a);
            proof {
                assert forall|ii: int| 0 <= ii < i implies #[trigger] (ii * cols + col1) < i
                    * cols && ii * cols + col2 < i * cols by {
                    assert(ii * cols + cols <= i * cols) by (nonlinear_arith)
                        requires
                            ii < i && cols >= 0,
                    ;
                }
            }
        }
        proof {
            assert forall|i: int, j: int| orig.in_bounds(i, j) implies self.ent(i, j) == (if j
                == col1 {
                orig.ent(i, col2 as int)
            } else if j == col2 {
                orig.ent(i, col1 as int)
            } else {
                orig.ent(i, j)
            }) by {
                crate::lemma_flat_index_bound(orig.rows as int, orig.columns as int, i, j);
                if j != col1 && j != col2 {
                    assert((i * cols + j) % (cols as int) == j) by (nonlinear_arith)
                        requires
                            0 <= j < cols && 0 <= i,
                    ;
                }
            }
        }
        Ok(())
    }
}

} // verus!
