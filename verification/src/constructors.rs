//! Ways to build a matrix: empty, zero-filled, identity, from a flat
//! buffer, from nested rows, from a generator closure, or diagonal.
use vstd::prelude::*;

use crate::elements::One;
use crate::elements::Zero;
use crate::errors::SizingError;
use crate::Matrix;

verus! {

/// Builds a `rows` by `columns` matrix whose element at `i, j` is what the
/// generator returns for `i, j`.
fn build<T, F: Fn(usize, usize) -> T>(f: &F, rows: usize, columns: usize) -> (m: Matrix<T>)
    requires
        rows == 0 <==> columns == 0,
        forall|i: usize, j: usize| i < rows && j < columns ==> f.requires((i, j)),
    ensures
        m.rows == rows,
        m.columns == columns,
        m.wf(),
        forall|i: usize, j: usize|
            i < rows && j < columns ==> f.ensures((i, j), #[trigger] m.ent(i as int, j as int)),
{
    let mut data: Vec<T> = Vec::new();
    for i in 0..rows
        invariant
            rows == 0 <==> columns == 0,
            forall|a: usize, b: usize| a < rows && b < columns ==> f.requires((a, b)),
            data@.len() == i * columns,
            forall|a: usize, b: usize|
                a < i && b < columns ==> f.ensures((a, b), #[trigger] data@[a * columns + b]),
    {
        for j in 0..columns
            invariant
                rows == 0 <==> columns == 0,
                i < rows,
                forall|a: usize, b: usize| a < rows && b < columns ==> f.requires((a, b)),
                data@.len() == i * columns + j,
                forall|a: usize, b: usize|
                    a < i && b < columns ==> f.ensures((a, b), #[trigger] data@[a * columns + b]),
                forall|b: usize| b < j ==> f.ensures((i, b), #[trigger] data@[i * columns + b]),
        {
            proof {
                crate::lemma_flat_index_bound(rows as int, columns as int, i as int, j as int);
            }
            let v = f(i, j);
            data.push(v);
            proof {
                assert forall|a: usize, b: usize| a < i && b < columns implies #[trigger] (a * columns + b) < i
                    * columns by {
                    assert(a * columns + columns <= i * columns) by (nonlinear_arith)
                        requires
                            a < i,
                    ;
                }
            }
        }
        proof {
            assert((i + 1) * columns == i * columns + columns) by (nonlinear_arith);
            assert forall|a: usize, b: usize| a < i + 1 && b < columns implies f.ensures(
                (a, b),
                #[trigger] data@[a * columns + b],
            ) by {
                crate::lemma_flat_index_bound(i + 1 as int, columns as int, a as int, b as int);
            }
        }
    }
    let m = Matrix { data, rows, columns };
    proof {
        assert forall|i: usize, j: usize| i < rows && j < columns implies f.ensures(
            (i, j),
            #[trigger] m.ent(i as int, j as int),
        ) by {
            crate::lemma_flat_index_bound(rows as int, columns as int, i as int, j as int);
            assert(m.ent(i as int, j as int) == m.data@[i * columns + j]);
        }
    }
    m
}

impl<T> Matrix<T> {
    /// The canonical empty matrix, with no rows and no columns.
    pub fn empty() -> (r: Self)
        ensures
            r.rows == 0,
            r.columns == 0,
            r.data@.len() == 0,
            r.wf(),
    {
        Matrix { data: Vec::new(), rows: 0, columns: 0 }
    }

    /// A `rows` by `columns` matrix with every element `elem`, or the error
    /// naming the axis that is zero while the other is not.
    pub fn of_elem(elem: T, rows: usize, columns: usize) -> (r: Result<Self, SizingError>)
        where T: Copy,
        ensures
            match r {
                Ok(m) => {
                    &&& (rows == 0 <==> columns == 0)
                    &&& m.rows == rows
                    &&& m.columns == columns
                    &&& m.wf()
                    &&& forall|i: int, j: int| m.in_bounds(i, j) ==> m.ent(i, j) == elem
                },
                Err(SizingError::Row(z)) => z == 0 && rows == 0 && columns != 0,
                Err(SizingError::Column(z)) => z == 0 && columns == 0 && rows != 0,
                Err(SizingError::Both(a, b)) => false,
            },
    {
        if rows == 0 && columns != 0 {
            return Err(SizingError::Row(0));
        }
        if columns == 0 && rows != 0 {
            return Err(SizingError::Column(0));
        }
        let f = |i: usize, j: usize| -> (v: T)
            ensures
                v == elem,
            { elem };
        Ok(build(&f, rows, columns))
    }

    /// A zero-filled `rows` by `columns` matrix, or the error naming the
    /// axis that is zero while the other is not.
    pub fn new(rows: usize, columns: usize) -> (r: Result<Self, SizingError>)
        where T: Zero,
        ensures
            match r {
                Ok(m) => {
                    &&& (rows == 0 <==> columns == 0)
                    &&& m.rows == rows
                    &&& m.columns == columns
                    &&& m.wf()
                    &&& forall|i: int, j: int| m.in_bounds(i, j) ==> m.ent(i, j) == T::zero_spec()
                },
                Err(SizingError::Row(z)) => z == 0 && rows == 0 && columns != 0,
                Err(SizingError::Column(z)) => z == 0 && columns == 0 && rows != 0,
                Err(SizingError::Both(a, b)) => false,
            },
    {
        Self::of_elem(T::zero(), rows, columns)
    }

    /// The `n` by `n` matrix with ones on the main diagonal and zeroes
    /// elsewhere. Zero `n` gives the canonical empty matrix.
    pub fn new_identity(n: usize) -> (r: Self)
        where T: Zero + One,
        ensures
            r.rows == n,
            r.columns == n,
            r.wf(),
            forall|i: int, j: int|
                r.in_bounds(i, j) ==> r.ent(i, j) == (if i == j {
                    T::one_spec()
                } else {
                    T::zero_spec()
                }),
    {
        let f = |i: usize, j: usize| -> (v: T)
            ensures
                v == (if i == j {
                    T::one_spec()
                } else {
                    T::zero_spec()
                }),
            {
                if i == j {
                    T::one()
                } else {
                    T::zero()
                }
            };
        build(&f, n, n)
    }

    /// A `rows` by `columns` matrix whose element at `i, j` is `value` when
    /// `i == j` and zero elsewhere; the matrix need not be square. Fails
    /// with the error naming the axis that is zero while the other is not.
    pub fn new_diagonal(value: T, rows: usize, columns: usize) -> (r: Result<Self, SizingError>)
        where T: Zero,
        ensures
            match r {
                Ok(m) => {
                    &&& (rows == 0 <==> columns == 0)
                    &&& m.rows == rows
                    &&& m.columns == columns
                    &&& m.wf()
                    &&& forall|i: int, j: int|
                        m.in_bounds(i, j) ==> m.ent(i, j) == (if i == j {
                            value
                        } else {
                            T::zero_spec()
                        })
                },
                Err(SizingError::Row(z)) => z == 0 && rows == 0 && columns != 0,
                Err(SizingError::Column(z)) => z == 0 && columns == 0 && rows != 0,
                Err(SizingError::Both(a, b)) => false,
            },
    {
        if rows == 0 && columns != 0 {
            return Err(SizingError::Row(0));
        }
        if columns == 0 && rows != 0 {
            return Err(SizingError::Column(0));
        }
        let f = |i: usize, j: usize| -> (v: T)
            ensures
                v == (if i == j {
                    value
                } else {
                    T::zero_spec()
                }),
            {
                if i == j {
                    value
                } else {
                    T::zero()
                }
            };
        Ok(build(&f, rows, columns))
    }

    /// A `rows` by `columns` matrix whose element at `i, j` is `f(i, j)`,
    /// generated in row-major order. Fails with the error naming the axis
    /// that is zero while the other is not.
    pub fn new_from_closure<F: Fn(usize, usize) -> T>(f: F, rows: usize, columns: usize) -> (r:
        Result<Self, SizingError>)
        requires
            forall|i: usize, j: usize| i < rows && j < columns ==> f.requires((i, j)),
        ensures
            match r {
                Ok(m) => {
                    &&& (rows == 0 <==> columns == 0)
                    &&& m.rows == rows
                    &&& m.columns == columns
                    &&& m.wf()
                    &&& forall|i: usize, j: usize|
                        i < rows && j < columns ==> f.ensures(
                            (i, j),
                            #[trigger] m.ent(i as int, j as int),
                        )
                },
                Err(SizingError::Row(z)) => z == 0 && rows == 0 && columns != 0,
                Err(SizingError::Column(z)) => z == 0 && columns == 0 && rows != 0,
                Err(SizingError::Both(a, b)) => false,
            },
    {
        if rows == 0 && columns != 0 {
            return Err(SizingError::Row(0));
        }
        if columns == 0 && rows != 0 {
            return Err(SizingError::Column(0));
        }
        Ok(build(&f, rows, columns))
    }

    /// Wraps a flat, row-major buffer, deriving the row count as
    /// `data.len() / columns`. Fails when only one of `columns` and the
    /// buffer is empty, or when `columns` does not divide the length.
    pub fn new_with_data(columns: usize, data: Vec<T>) -> (r: Result<Self, SizingError>)
        ensures
            match r {
                Ok(m) => {
                    &&& m.data@ == data@
                    &&& m.columns == (if data@.len() == 0 {
                        0
                    } else {
                        columns
                    })
                    &&& (data@.len() == 0 <==> columns == 0)
                    &&& (columns != 0 ==> data@.len() as int % (columns as int) == 0 && m.rows == data@.len() as int
                        / (columns as int))
                    &&& (columns == 0 ==> m.rows == 0)
                    &&& m.wf()
                },
                Err(SizingError::Row(v)) => (data@.len() == 0 && columns != 0 && v == 0) || (columns
                    != 0 && data@.len() > 0 && data@.len() as int % (columns as int) != 0 && v == data@.len() as int
                    % (columns as int)),
                Err(SizingError::Column(v)) => v == 0 && columns == 0 && data@.len() > 0,
                Err(SizingError::Both(a, b)) => false,
            },
    {
        let len = data.len();
        if columns == 0 {
            if len == 0 {
                return Ok(Matrix { data, rows: 0, columns: 0 });
            }
            return Err(SizingError::Column(0));
        }
        if len == 0 {
            return Err(SizingError::Row(0));
        }
        let rem = len % columns;
        if rem != 0 {
            return Err(SizingError::Row(rem));
        }
        let rows = len / columns;
        proof {
            assert(len as int == (len as int / columns as int) * (columns as int) + len as int % (columns as int))
                by (nonlinear_arith)
                requires
                    columns > 0,
            ;
        }
        Ok(Matrix { data, rows, columns })
    }

    /// Builds a matrix from a sequence of rows, which must all share one
    /// non-zero length. Fails with the index of the first row whose length
    /// differs from the first row's, or with zero when the first row itself
    /// is empty. An empty sequence gives the canonical empty matrix.
    pub fn new_from_data(data: &Vec<Vec<T>>) -> (r: Result<Self, usize>)
        where T: Copy,
        ensures
            match r {
                Ok(m) => {
                    &&& m.wf()
                    &&& m.rows == data@.len()
                    &&& (data@.len() == 0 ==> m.columns == 0)
                    &&& (data@.len() > 0 ==> m.columns == data@[0]@.len() && data@[0]@.len() > 0)
                    &&& forall|k: int| 0 <= k < data@.len() ==> data@[k]@.len() == m.columns
                    &&& forall|i: int, j: int| m.in_bounds(i, j) ==> m.ent(i, j) == data@[i]@[j]
                },
                Err(e) => data@.len() > 0 && ((e == 0 && data@[0]@.len() == 0) || (data@[0]@.len()
                    > 0 && e < data@.len() && data@[e as int]@.len() != data@[0]@.len() && forall|
                    k: int,
                |
                    0 <= k < e ==> #[trigger] data@[k]@.len() == data@[0]@.len())),
            },
    {
        let rows = data.len();
        if rows == 0 {
            return Ok(Self::empty());
        }
        let columns = data[0].len();
        if columns == 0 {
            return Err(0);
        }
        for i in 0..rows
            invariant
                rows == data@.len(),
                rows > 0,
                columns == data@[0]@.len(),
                columns > 0,
                forall|k: int| 0 <= k < i ==> #[trigger] data@[k]@.len() == columns,
        {
            if data[i].len() != columns {
                return Err(i);
            }
        }
        let mut flat: Vec<T> = Vec::new();
        proof {
            assert(0 * columns == 0) by (nonlinear_arith);
        }
        for i in 0..rows
            invariant
                rows == data@.len(),
                columns == data@[0]@.len(),
                columns > 0,
                forall|k: int| 0 <= k < rows ==> data@[k]@.len() == columns,
                flat@.len() == i * columns,
                forall|a: int, b: int|
                    0 <= a < i && 0 <= b < columns ==> #[trigger] flat@[a * columns + b]
                        == data@[a]@[b],
        {
            for j in 0..columns
                invariant
                    rows == data@.len(),
                    columns == data@[0]@.len(),
                    columns > 0,
                    i < rows,
                    forall|k: int| 0 <= k < rows ==> data@[k]@.len() == columns,
                    flat@.len() == i * columns + j,
                    forall|a: int, b: int|
                        0 <= a < i && 0 <= b < columns ==> #[trigger] flat@[a * columns + b]
                            == data@[a]@[b],
                    forall|b: int| 0 <= b < j ==> #[trigger] flat@[i * columns + b] == data@[i as int]@[b],
            {
                flat.push(data[i][j]);
                proof {
                    assert forall|a: int, b: int| 0 <= a < i && 0 <= b < columns implies #[trigger] (a * columns + b) < i * columns by {
                        assert(a * columns + columns <= i * columns) by (nonlinear_arith)
                            requires
                                a < i && columns >= 0,
                        ;
                    }
                }
            }
            proof {
                assert((i + 1) * columns == i * columns + columns) by (nonlinear_arith);
                assert forall|a: int, b: int|
                    0 <= a < i + 1 && 0 <= b < columns implies #[trigger] flat@[a * columns + b]
                    == data@[a]@[b] by {
                    crate::lemma_flat_index_bound(i + 1 as int, columns as int, a, b);
                }
            }
        }
        let m = Matrix { data: flat, rows, columns };
        proof {
            assert forall|i: int, j: int| m.in_bounds(i, j) implies m.ent(i, j) == data@[i]@[j] by {
                crate::lemma_flat_index_bound(rows as int, columns as int, i, j);
                assert(flat@[i * columns + j] == data@[i]@[j]);
            }
        }
        Ok(m)
    }
}

} // verus!
