//! Elementwise arithmetic over the buffer: scaling the whole matrix, one
//! row or one column, and adding one (optionally scaled) row or column onto
//! another. The overflow preconditions state exactly which element
//! operations the body performs.
use vstd::prelude::*;

use vstd::std_specs::ops::AddSpec;
use vstd::std_specs::ops::MulSpec;
use vstd::std_specs::ops::SubSpec;

use crate::elements::Num;
use crate::errors::IndexError;
use crate::lemma_buffer_index;
use crate::vec_set;
use crate::Matrix;

verus! {

impl<T: Num> Matrix<T> {
    /// Multiplies every element by `factor`, in place.
    pub fn scale(&mut self, factor: T)
        requires
            old(self).wf(),
            forall|k: int|
                0 <= k < old(self).data@.len() ==> (#[trigger] old(self).data@[k]).mul_req(factor),
        ensures
            final(self).rows == old(self).rows,
            final(self).columns == old(self).columns,
            final(self).wf(),
            final(self).data@.len() == old(self).data@.len(),
            forall|k: int|
                0 <= k < old(self).data@.len() ==> final(self).data@[k] == (#[trigger] old(
                    self,
                ).data@[k]).mul_spec(factor),
    {
        proof {
            T::properties();
        }
        let n = self.data.len();
        for k in 0..n
            invariant
                self.rows == old(self).rows,
                self.columns == old(self).columns,
                self.data@.len() == old(self).data@.len(),
                n == self.data@.len(),
                T::obeys_mul_spec(),
                forall|kk: int|
                    0 <= kk < n ==> (#[trigger] old(self).data@[kk]).mul_req(factor),
                forall|kk: int|
                    0 <= kk < k ==> self.data@[kk] == (#[trigger] old(self).data@[kk]).mul_spec(
                        factor,
                    ),
                forall|kk: int| k <= kk < n ==> self.data@[kk] == old(self).data@[kk],
        {
            let v = self.data[k] * factor;
            vec_set(&mut self.data, k, v);
        }
    }

    /// Multiplies every element of one row by `factor`, in place.
    pub fn scale_row(&mut self, row: usize, factor: T) -> (r: Result<(), IndexError>)
        requires
            old(self).wf(),
            forall|j: int|
                old(self).in_bounds(row as int, j) ==> (#[trigger] old(self).ent(
                    row as int,
                    j,
                )).mul_req(factor),
        ensures
            final(self).rows == old(self).rows,
            final(self).columns == old(self).columns,
            final(self).wf(),
            final(self).data@.len() == old(self).data@.len(),
            match r {
                Ok(()) => row < old(self).rows && forall|i: int, j: int|
                    old(self).in_bounds(i, j) ==> final(self).ent(i, j) == (if i == row {
                        (#[trigger] old(self).ent(i, j)).mul_spec(factor)
                    } else {
                        old(self).ent(i, j)
                    }),
                Err(e) => e == IndexError::Row(row) && row >= old(self).rows && final(self).data@
                    == old(self).data@,
            },
    {
        if row >= self.rows {
            return Err(IndexError::Row(row));
        }
        proof {
            T::properties();
        }
        let cols = self.columns;
        let ghost orig = *old(self);
        for j in 0..cols
            invariant
                self.rows == orig.rows,
                self.columns == orig.columns,
                self.data@.len() == orig.data@.len(),
                orig.wf(),
                cols == orig.columns,
                row < orig.rows,
                T::obeys_mul_spec(),
                forall|jj: int|
                    orig.in_bounds(row as int, jj) ==> (#[trigger] orig.ent(row as int, jj)).mul_req(
                        factor,
                    ),
                forall|jj: int|
                    0 <= jj < j ==> self.ent(row as int, jj) == (#[trigger] orig.ent(
                        row as int,
                        jj,
                    )).mul_spec(factor),
                forall|k: int|
                    0 <= k < self.data@.len() && !(row * cols <= k < row * cols + j)
                        ==> self.data@[k] == orig.data@[k],
        {
            proof {
                lemma_buffer_index(orig, row as int, j as int);
            }
            let idx = row * cols + j;
            proof {
                assert(orig.in_bounds(row as int, j as int));
                assert(self.data@[idx as int] == orig.data@[idx as int]);
                assert(orig.ent(row as int, j as int) == orig.data@[idx as int]);
                assert(orig.ent(row as int, j as int).mul_req(factor));
            }
            let v = self.data[idx] * factor;
            vec_set(&mut self.data, idx, v);
        }
        proof {
            assert forall|i: int, j: int| orig.in_bounds(i, j) implies self.ent(i, j) == (if i
                == row {
                orig.ent(i, j).mul_spec(factor)
            } else {
                orig.ent(i, j)
            }) by {
                crate::lemma_flat_index_bound(orig.rows as int, orig.columns as int, i, j);
                crate::lemma_flat_row_range(cols as int, i, j, row as int);
            }
        }
        Ok(())
    }

    /// Multiplies every element of one column by `factor`, in place.
    pub fn scale_column(&mut self, col: usize, factor: T) -> (r: Result<(), IndexError>)
        requires
            old(self).wf(),
            forall|i: int|
                old(self).in_bounds(i, col as int) ==> (#[trigger] old(self).ent(
                    i,
                    col as int,
                )).mul_req(factor),
        ensures
            final(self).rows == old(self).rows,
            final(self).columns == old(self).columns,
            final(self).wf(),
            final(self).data@.len() == old(self).data@.len(),
            match r {
                Ok(()) => col < old(self).columns && forall|i: int, j: int|
                    old(self).in_bounds(i, j) ==> final(self).ent(i, j) == (if j == col {
                        (#[trigger] old(self).ent(i, j)).mul_spec(factor)
                    } else {
                        old(self).ent(i, j)
                    }),
                Err(e) => e == IndexError::Column(col) && col >= old(self).columns && final(self).data@
                    == old(self).data@,
            },
    {
        if col >= self.columns {
            return Err(IndexError::Column(col));
        }
        proof {
            T::properties();
        }
        let rows = self.rows;
        let cols = self.columns;
        let ghost orig = *old(self);
        for i in 0..rows
            invariant
                self.rows == orig.rows,
                self.columns == orig.columns,
                self.data@.len() == orig.data@.len(),
                orig.wf(),
                rows == orig.rows,
                cols == orig.columns,
                col < orig.columns,
                T::obeys_mul_spec(),
                forall|ii: int|
                    orig.in_bounds(ii, col as int) ==> (#[trigger] orig.ent(ii, col as int)).mul_req(
                        factor,
                    ),
                forall|ii: int|
                    0 <= ii < i ==> self.ent(ii, col as int) == (#[trigger] orig.ent(
                        ii,
                        col as int,
                    )).mul_spec(factor),
                forall|k: int|
                    0 <= k < self.data@.len() && (k >= i * cols || k % (cols as int) != col)
                        ==> self.data@[k] == orig.data@[k],
        {
            proof {
                lemma_buffer_index(orig, i as int, col as int);
                assert((i * cols + col) % (cols as int) == col && i * cols + cols == (i + 1) * cols)
                    by (nonlinear_arith)
                    requires
                        col < cols && 0 <= i,
                ;
            }
            let idx = i * cols + col;
            proof {
                assert(orig.in_bounds(i as int, col as int));
                assert(self.data@[idx as int] == orig.data@[idx as int]);
                assert(orig.ent(i as int, col as int) == orig.data@[idx as int]);
                assert(orig.ent(i as int, col as int).mul_req(factor));
                assert forall|ii: int| 0 <= ii < i implies #[trigger] (ii * cols + col) < i
                    * cols by {
                    assert(ii * cols + cols <= i * cols) by (nonlinear_arith)
                        requires
                            ii < i && cols >= 0,
                    ;
                }
            }
            let v = self.data[idx] * factor;
            vec_set(&mut self.data, idx, v);
        }
        proof {
            assert forall|i: int, j: int| orig.in_bounds(i, j) implies self.ent(i, j) == (if j
                == col {
                orig.ent(i, j).mul_spec(factor)
            } else {
                orig.ent(i, j)
            }) by {
                crate::lemma_flat_index_bound(orig.rows as int, orig.columns as int, i, j);
                if j != col {
                    assert((i * cols + j) % (cols as int) == j) by (nonlinear_arith)
                        requires
                            0 <= j < cols && 0 <= i,
                    ;
                }
            }
        }
        Ok(())
    }

    /// Adds the source row onto the target row, element by element.
    pub fn add_rows(&mut self, source: usize, target: usize) -> (r: Result<(), IndexError>)
        requires
            old(self).wf(),
            source < old(self).rows && target < old(self).rows ==> forall|j: int|
                0 <= j < old(self).columns ==> (#[trigger] old(self).ent(target as int, j)).add_req(
                    old(self).ent(source as int, j),
                ),
        ensures
            final(self).rows == old(self).rows,
            final(self).columns == old(self).columns,
            final(self).wf(),
            final(self).data@.len() == old(self).data@.len(),
            match r {
                Ok(()) => source < old(self).rows && target < old(self).rows && forall|
                    i: int,
                    j: int,
                |
                    old(self).in_bounds(i, j) ==> final(self).ent(i, j) == (if i == target {
                        (#[trigger] old(self).ent(i, j)).add_spec(old(self).ent(source as int, j))
                    } else {
                        old(self).ent(i, j)
                    }),
                Err(e) => final(self).data@ == old(self).data@ && if source >= old(self).rows {
                    e == IndexError::Row(source)
                } else {
                    target >= old(self).rows && e == IndexError::Row(target)
                },
            },
    {
        if source >= self.rows {
            return Err(IndexError::Row(source));
        }
        if target >= self.rows {
            return Err(IndexError::Row(target));
        }
        proof {
            T::properties();
        }
        let cols = self.columns;
        let ghost orig = *old(self);
        for j in 0..cols
            invariant
                self.rows == orig.rows,
                self.columns == orig.columns,
                self.data@.len() == orig.data@.len(),
                orig.wf(),
                cols == orig.columns,
                source < orig.rows,
                target < orig.rows,
                T::obeys_add_spec(),
                forall|jj: int|
                    0 <= jj < cols ==> (#[trigger] orig.ent(target as int, jj)).add_req(
                        orig.ent(source as int, jj),
                    ),
                forall|jj: int|
                    0 <= jj < j ==> self.ent(target as int, jj) == (#[trigger] orig.ent(
                        target as int,
                        jj,
                    )).add_spec(orig.ent(source as int, jj)),
                forall|k: int|
                    0 <= k < self.data@.len() && !(target * cols <= k < target * cols + j)
                        ==> self.data@[k] == orig.data@[k],
        {
            proof {
                lemma_buffer_index(orig, source as int, j as int);
                lemma_buffer_index(orig, target as int, j as int);
                if source != target {
                    crate::lemma_flat_row_range(cols as int, source as int, j as int, target as int);
                }
            }
            let s = self.data[source * cols + j];
            let idx = target * cols + j;
            proof {
                assert(s == orig.ent(source as int, j as int));
                assert(self.data@[idx as int] == orig.data@[idx as int]);
                assert(orig.ent(target as int, j as int) == orig.data@[idx as int]);
                assert(orig.ent(target as int, j as int).add_req(orig.ent(source as int, j as int)));
            }
            let v = self.data[idx] + s;
            vec_set(&mut self.data, idx, v);
        }
        proof {
            assert forall|i: int, j: int| orig.in_bounds(i, j) implies self.ent(i, j) == (if i
                == target {
                orig.ent(i, j).add_spec(orig.ent(source as int, j))
            } else {
                orig.ent(i, j)
            }) by {
                crate::lemma_flat_index_bound(orig.rows as int, orig.columns as int, i, j);
                crate::lemma_flat_row_range(cols as int, i, j, target as int);
            }
        }
        Ok(())
    }

    /// Adds the source row, scaled by `factor`, onto the target row.
    pub fn add_scaled_row(&mut self, source: usize, target: usize, factor: T) -> (r: Result<
        (),
        IndexError,
    >)
        requires
            old(self).wf(),
            source < old(self).rows && target < old(self).rows ==> forall|j: int|
                0 <= j < old(self).columns ==> (#[trigger] old(self).ent(source as int, j)).mul_req(
                    factor,
                ) && old(self).ent(target as int, j).add_req(
                    old(self).ent(source as int, j).mul_spec(factor),
                ),
        ensures
            final(self).rows == old(self).rows,
            final(self).columns == old(self).columns,
            final(self).wf(),
            final(self).data@.len() == old(self).data@.len(),
            match r {
                Ok(()) => source < old(self).rows && target < old(self).rows && forall|
                    i: int,
                    j: int,
                |
                    old(self).in_bounds(i, j) ==> final(self).ent(i, j) == (if i == target {
                        (#[trigger] old(self).ent(i, j)).add_spec(
                            old(self).ent(source as int, j).mul_spec(factor),
                        )
                    } else {
                        old(self).ent(i, j)
                    }),
                Err(e) => final(self).data@ == old(self).data@ && if source >= old(self).rows {
                    e == IndexError::Row(source)
                } else {
                    target >= old(self).rows && e == IndexError::Row(target)
                },
            },
    {
        if source >= self.rows {
            return Err(IndexError::Row(source));
        }
        if target >= self.rows {
            return Err(IndexError::Row(target));
        }
        proof {
            T::properties();
        }
        let cols = self.columns;
        let ghost orig = *old(self);
        for j in 0..cols
            invariant
                self.rows == orig.rows,
                self.columns == orig.columns,
                self.data@.len() == orig.data@.len(),
                orig.wf(),
                cols == orig.columns,
                source < orig.rows,
                target < orig.rows,
                T::obeys_add_spec(),
                T::obeys_mul_spec(),
                forall|jj: int|
                    0 <= jj < cols ==> (#[trigger] orig.ent(source as int, jj)).mul_req(factor)
                        && orig.ent(target as int, jj).add_req(
                        orig.ent(source as int, jj).mul_spec(factor),
                    ),
                forall|jj: int|
                    0 <= jj < j ==> self.ent(target as int, jj) == (#[trigger] orig.ent(
                        target as int,
                        jj,
                    )).add_spec(orig.ent(source as int, jj).mul_spec(factor)),
                forall|k: int|
                    0 <= k < self.data@.len() && !(target * cols <= k < target * cols + j)
                        ==> self.data@[k] == orig.data@[k],
        {
            proof {
                lemma_buffer_index(orig, source as int, j as int);
                lemma_buffer_index(orig, target as int, j as int);
                if source != target {
                    crate::lemma_flat_row_range(cols as int, source as int, j as int, target as int);
                }
            }
            let s = self.data[source * cols + j];
            let idx = target * cols + j;
            proof {
                assert(s == orig.ent(source as int, j as int));
                assert(self.data@[idx as int] == orig.data@[idx as int]);
                assert(orig.ent(target as int, j as int) == orig.data@[idx as int]);
                assert(orig.ent(source as int, j as int).mul_req(factor));
                assert(orig.ent(target as int, j as int).add_req(
                    orig.ent(source as int, j as int).mul_spec(factor),
                ));
            }
            let v = self.data[idx] + s * factor;
            vec_set(&mut self.data, idx, v);
        }
        proof {
            assert forall|i: int, j: int| orig.in_bounds(i, j) implies self.ent(i, j) == (if i
                == target {
                orig.ent(i, j).add_spec(orig.ent(source as int, j).mul_spec(factor))
            } else {
                orig.ent(i, j)
            }) by {
                crate::lemma_flat_index_bound(orig.rows as int, orig.columns as int, i, j);
                crate::lemma_flat_row_range(cols as int, i, j, target as int);
            }
        }
        Ok(())
    }

    /// Subtracts the source row, scaled by `factor`, from the target row.
    pub(crate) fn sub_scaled_row(&mut self, source: usize, target: usize, factor: T) -> (r: Result<
        (),
        IndexError,
    >)
        requires
            old(self).wf(),
            source < old(self).rows && target < old(self).rows ==> forall|j: int|
                0 <= j < old(self).columns ==> (#[trigger] old(self).ent(source as int, j)).mul_req(
                    factor,
                ) && old(self).ent(target as int, j).sub_req(
                    old(self).ent(source as int, j).mul_spec(factor),
                ),
        ensures
            final(self).rows == old(self).rows,
            final(self).columns == old(self).columns,
            final(self).wf(),
            final(self).data@.len() == old(self).data@.len(),
            match r {
                Ok(()) => source < old(self).rows && target < old(self).rows && forall|
                    i: int,
                    j: int,
                |
                    old(self).in_bounds(i, j) ==> final(self).ent(i, j) == (if i == target {
                        (#[trigger] old(self).ent(i, j)).sub_spec(
                            old(self).ent(source as int, j).mul_spec(factor),
                        )
                    } else {
                        old(self).ent(i, j)
                    }),
                Err(e) => final(self).data@ == old(self).data@ && if source >= old(self).rows {
                    e == IndexError::Row(source)
                } else {
                    target >= old(self).rows && e == IndexError::Row(target)
                },
            },
    {
        if source >= self.rows {
            return Err(IndexError::Row(source));
        }
        if target >= self.rows {
            return Err(IndexError::Row(target));
        }
        proof {
            T::properties();
        }
        let cols = self.columns;
        let ghost orig = *old(self);
        for j in 0..cols
            invariant
                self.rows == orig.rows,
                self.columns == orig.columns,
                self.data@.len() == orig.data@.len(),
                orig.wf(),
                cols == orig.columns,
                source < orig.rows,
                target < orig.rows,
                T::obeys_sub_spec(),
                T::obeys_mul_spec(),
                forall|jj: int|
                    0 <= jj < cols ==> (#[trigger] orig.ent(source as int, jj)).mul_req(factor)
                        && orig.ent(target as int, jj).sub_req(
                        orig.ent(source as int, jj).mul_spec(factor),
                    ),
                forall|jj: int|
                    0 <= jj < j ==> self.ent(target as int, jj) == (#[trigger] orig.ent(
                        target as int,
                        jj,
                    )).sub_spec(orig.ent(source as int, jj).mul_spec(factor)),
                forall|k: int|
                    0 <= k < self.data@.len() && !(target * cols <= k < target * cols + j)
                        ==> self.data@[k] == orig.data@[k],
        {
            proof {
                lemma_buffer_index(orig, source as int, j as int);
                lemma_buffer_index(orig, target as int, j as int);
                if source != target {
                    crate::lemma_flat_row_range(cols as int, source as int, j as int, target as int);
                }
            }
            let s = self.data[source * cols + j];
            let idx = target * cols + j;
            proof {
                assert(s == orig.ent(source as int, j as int));
                assert(self.data@[idx as int] == orig.data@[idx as int]);
                assert(orig.ent(target as int, j as int) == orig.data@[idx as int]);
                assert(orig.ent(source as int, j as int).mul_req(factor));
                assert(orig.ent(target as int, j as int).sub_req(
                    orig.ent(source as int, j as int).mul_spec(factor),
                ));
            }
            let v = self.data[idx] - s * factor;
            vec_set(&mut self.data, idx, v);
        }
        proof {
            assert forall|i: int, j: int| orig.in_bounds(i, j) implies self.ent(i, j) == (if i
                == target {
                orig.ent(i, j).sub_spec(orig.ent(source as int, j).mul_spec(factor))
            } else {
                orig.ent(i, j)
            }) by {
                crate::lemma_flat_index_bound(orig.rows as int, orig.columns as int, i, j);
                crate::lemma_flat_row_range(cols as int, i, j, target as int);
            }
        }
        Ok(())
    }

    /// Adds the source column onto the target column, element by element.
    pub fn add_cols(&mut self, source: usize, target: usize) -> (r: Result<(), IndexError>)
        requires
            old(self).wf(),
            source < old(self).columns && target < old(self).columns ==> forall|i: int|
                0 <= i < old(self).rows ==> (#[trigger] old(self).ent(i, target as int)).add_req(
                    old(self).ent(i, source as int),
                ),
        ensures
            final(self).rows == old(self).rows,
            final(self).columns == old(self).columns,
            final(self).wf(),
            final(self).data@.len() == old(self).data@.len(),
            match r {
                Ok(()) => source < old(self).columns && target < old(self).columns && forall|
                    i: int,
                    j: int,
                |
                    old(self).in_bounds(i, j) ==> final(self).ent(i, j) == (if j == target {
                        (#[trigger] old(self).ent(i, j)).add_spec(old(self).ent(i, source as int))
                    } else {
                        old(self).ent(i, j)
                    }),
                Err(e) => final(self).data@ == old(self).data@ && if source >= old(self).columns {
                    e == IndexError::Column(source)
                } else {
                    target >= old(self).columns && e == IndexError::Column(target)
                },
            },
    {
        if source >= self.columns {
            return Err(IndexError::Column(source));
        }
        if target >= self.columns {
            return Err(IndexError::Column(target));
        }
        proof {
            T::properties();
        }
        let rows = self.rows;
        let cols = self.columns;
        let ghost orig = *old(self);
        for i in 0..rows
            invariant
                self.rows == orig.rows,
                self.columns == orig.columns,
                self.data@.len() == orig.data@.len(),
                orig.wf(),
                rows == orig.rows,
                cols == orig.columns,
                source < orig.columns,
                target < orig.columns,
                T::obeys_add_spec(),
                forall|ii: int|
                    0 <= ii < rows ==> (#[trigger] orig.ent(ii, target as int)).add_req(
                        orig.ent(ii, source as int),
                    ),
                forall|ii: int|
                    0 <= ii < i ==> self.ent(ii, target as int) == (#[trigger] orig.ent(
                        ii,
                        target as int,
                    )).add_spec(orig.ent(ii, source as int)),
                forall|k: int|
                    0 <= k < self.data@.len() && (k >= i * cols || k % (cols as int) != target)
                        ==> self.data@[k] == orig.data@[k],
        {
            proof {
                lemma_buffer_index(orig, i as int, source as int);
                lemma_buffer_index(orig, i as int, target as int);
                assert((i * cols + source) % (cols as int) == source) by (nonlinear_arith)
                    requires
                        source < cols && 0 <= i,
                ;
                assert((i * cols + target) % (cols as int) == target) by (nonlinear_arith)
                    requires
                        target < cols && 0 <= i,
                ;
                assert(i * cols + cols == (i + 1) * cols) by (nonlinear_arith);
            }
            let s = self.data[i * cols + source];
            let idx = i * cols + target;
            proof {
                assert(s == orig.ent(i as int, source as int));
                assert(self.data@[idx as int] == orig.data@[idx as int]);
                assert(orig.ent(i as int, target as int) == orig.data@[idx as int]);
                assert(orig.ent(i as int, target as int).add_req(orig.ent(i as int, source as int)));
                assert forall|ii: int| 0 <= ii < i implies #[trigger] (ii * cols + target) < i
                    * cols by {
                    assert(ii * cols + cols <= i * cols) by (nonlinear_arith)
                        requires
                            ii < i && cols >= 0,
                    ;
                }
            }
            let v = self.data[idx] + s;
            vec_set(&mut self.data, idx, v);
        }
        proof {
            assert forall|i: int, j: int| orig.in_bounds(i, j) implies self.ent(i, j) == (if j
                == target {
                orig.ent(i, j).add_spec(orig.ent(i, source as int))
            } else {
                orig.ent(i, j)
            }) by {
                crate::lemma_flat_index_bound(orig.rows as int, orig.columns as int, i, j);
                if j != target {
                    assert((i * cols + j) % (cols as int) == j) by (nonlinear_arith)
                        requires
                            0 <= j < cols && 0 <= i,
                    ;
                }
            }
        }
        Ok(())
    }

    /// Adds the source column, scaled by `factor`, onto the target column.
    pub fn add_scaled_column(&mut self, source: usize, target: usize, factor: T) -> (r: Result<
        (),
        IndexError,
    >)
        requires
            old(self).wf(),
            source < old(self).columns && target < old(self).columns ==> forall|i: int|
                0 <= i < old(self).rows ==> (#[trigger] old(self).ent(i, source as int)).mul_req(
                    factor,
                ) && old(self).ent(i, target as int).add_req(
                    old(self).ent(i, source as int).mul_spec(factor),
                ),
        ensures
            final(self).rows == old(self).rows,
            final(self).columns == old(self).columns,
            final(self).wf(),
            final(self).data@.len() == old(self).data@.len(),
            match r {
                Ok(()) => source < old(self).columns && target < old(self).columns && forall|
                    i: int,
                    j: int,
                |
                    old(self).in_bounds(i, j) ==> final(self).ent(i, j) == (if j == target {
                        (#[trigger] old(self).ent(i, j)).add_spec(
                            old(self).ent(i, source as int).mul_spec(factor),
                        )
                    } else {
                        old(self).ent(i, j)
                    }),
                Err(e) => final(self).data@ == old(self).data@ && if source >= old(self).columns {
                    e == IndexError::Column(source)
                } else {
                    target >= old(self).columns && e == IndexError::Column(target)
                },
            },
    {
        if source >= self.columns {
            return Err(IndexError::Column(source));
        }
        if target >= self.columns {
            return Err(IndexError::Column(target));
        }
        proof {
            T::properties();
        }
        let rows = self.rows;
        let cols = self.columns;
        let ghost orig = *old(self);
        for i in 0..rows
            invariant
                self.rows == orig.rows,
                self.columns == orig.columns,
                self.data@.len() == orig.data@.len(),
                orig.wf(),
                rows == orig.rows,
                cols == orig.columns,
                source < orig.columns,
                target < orig.columns,
                T::obeys_add_spec(),
                T::obeys_mul_spec(),
                forall|ii: int|
                    0 <= ii < rows ==> (#[trigger] orig.ent(ii, source as int)).mul_req(factor)
                        && orig.ent(ii, target as int).add_req(
                        orig.ent(ii, source as int).mul_spec(factor),
                    ),
                forall|ii: int|
                    0 <= ii < i ==> self.ent(ii, target as int) == (#[trigger] orig.ent(
                        ii,
                        target as int,
                    )).add_spec(orig.ent(ii, source as int).mul_spec(factor)),
                forall|k: int|
                    0 <= k < self.data@.len() && (k >= i * cols || k % (cols as int) != target)
                        ==> self.data@[k] == orig.data@[k],
        {
            proof {
                lemma_buffer_index(orig, i as int, source as int);
                lemma_buffer_index(orig, i as int, target as int);
                assert((i * cols + source) % (cols as int) == source) by (nonlinear_arith)
                    requires
                        source < cols && 0 <= i,
                ;
                assert((i * cols + target) % (cols as int) == target) by (nonlinear_arith)
                    requires
                        target < cols && 0 <= i,
                ;
                assert(i * cols + cols == (i + 1) * cols) by (nonlinear_arith);
            }
            let s = self.data[i * cols + source];
            let idx = i * cols + target;
            proof {
                assert(s == orig.ent(i as int, source as int));
                assert(self.data@[idx as int] == orig.data@[idx as int]);
                assert(orig.ent(i as int, target as int) == orig.data@[idx as int]);
                assert(orig.ent(i as int, source as int).mul_req(factor));
                assert(orig.ent(i as int, target as int).add_req(
                    orig.ent(i as int, source as int).mul_spec(factor),
                ));
                assert forall|ii: int| 0 <= ii < i implies #[trigger] (ii * cols + target) < i
                    * cols by {
                    assert(ii * cols + cols <= i * cols) by (nonlinear_arith)
                        requires
                            ii < i && cols >= 0,
                    ;
                }
            }
            let v = self.data[idx] + s * factor;
            vec_set(&mut self.data, idx, v);
        }
        proof {
            assert forall|i: int, j: int| orig.in_bounds(i, j) implies self.ent(i, j) == (if j
                == target {
                orig.ent(i, j).add_spec(orig.ent(i, source as int).mul_spec(factor))
            } else {
                orig.ent(i, j)
            }) by {
                crate::lemma_flat_index_bound(orig.rows as int, orig.columns as int, i, j);
                if j != target {
                    assert((i * cols + j) % (cols as int) == j) by (nonlinear_arith)
                        requires
                            0 <= j < cols && 0 <= i,
                    ;
                }
            }
        }
        Ok(())
    }
}

} // verus!
