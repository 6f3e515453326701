//! A dynamically sized two-dimensional matrix backed by one flat, row-major
//! buffer, with shape-checked access, structural mutation and the classic
//! derived operations (transpose, determinant, minors, cofactors, inverse).
//!
//! Every matrix keeps two invariants: the buffer holds exactly
//! `rows * columns` elements, and a dimension is zero only when both are
//! (the unique empty matrix is the one with no rows and no columns).
use vstd::prelude::*;

pub mod elements;
pub mod errors;
mod constructors;
mod derivers;
mod getters;
mod laws;
mod maths;
mod mut_getters;
mod operations;
mod swappers;
mod traits;

verus! {

/// A rectangular grid of `T`, stored row by row in one flat buffer.
///
/// The element at row `r` and column `c` lives at flat index
/// `r * columns + c`.
#[derive(Clone, Debug)]
pub struct Matrix<T> {
    pub data: Vec<T>,
    pub rows: usize,
    pub columns: usize,
}

impl<T> Matrix<T> {
    /// The shape invariant: the buffer length matches the dimensions, and
    /// zero-size dimensions come in pairs.
    pub open spec fn wf(self) -> bool {
        &&& self.data@.len() == self.rows * self.columns
        &&& (self.rows == 0 <==> self.columns == 0)
    }

    /// The element at row `r`, column `c` of the row-major buffer.
    pub open spec fn ent(self, r: int, c: int) -> T {
        self.data@[r * self.columns + c]
    }

    /// Whether `r, c` indexes inside the matrix.
    pub open spec fn in_bounds(self, r: int, c: int) -> bool {
        0 <= r < self.rows && 0 <= c < self.columns
    }

    /// The error an access at the out-of-bounds position `r, c` reports:
    /// both axes when both are out, else the one that is.
    pub open spec fn index_error(self, r: usize, c: usize) -> errors::IndexError {
        if r >= self.rows && c >= self.columns {
            errors::IndexError::Both(r, c)
        } else if r >= self.rows {
            errors::IndexError::Row(r)
        } else {
            errors::IndexError::Column(c)
        }
    }
}

/// Appends a copy of every element of `src` to `dst`, in order.
pub(crate) fn append_copy<T: Copy>(dst: &mut Vec<T>, src: &Vec<T>)
    ensures
        final(dst)@ == old(dst)@ + src@,
{
    let n = src.len();
    for k in 0..n
        invariant
            n == src@.len(),
            dst@ =~= old(dst)@ + src@.subrange(0, k as int),
    {
        dst.push(src[k]);
        proof {
            assert(dst@ =~= old(dst)@ + src@.subrange(0, k + 1 as int));
        }
    }
    proof {
        assert(src@.subrange(0, n as int) =~= src@);
    }
}

/// Overwrites one element of a vector.
pub(crate) fn vec_set<T>(v: &mut Vec<T>, i: usize, x: T)
    requires
        i < old(v)@.len(),
    ensures
        final(v)@ == old(v)@.update(i as int, x),
{
    let p = &mut v[i];
    *p = x;
}

/// The flat index of an in-bounds position stays inside the buffer of a
/// well-formed matrix, and in particular fits in `usize`.
pub proof fn lemma_buffer_index<T>(m: Matrix<T>, r: int, c: int)
    requires
        m.wf(),
        m.in_bounds(r, c),
    ensures
        0 <= r * m.columns + c < m.data@.len(),
        r * m.columns + c < usize::MAX,
{
    vstd::std_specs::vec::axiom_spec_len(&m.data);
    lemma_flat_index_bound(m.rows as int, m.columns as int, r, c);
}

/// A flat index formed from an in-bounds position stays inside the buffer.
pub proof fn lemma_flat_index_bound(rows: int, cols: int, r: int, c: int)
    requires
        0 <= r < rows,
        0 <= c < cols,
    ensures
        0 <= r * cols + c < rows * cols,
{
    assert(0 <= r * cols + c < rows * cols) by (nonlinear_arith)
        requires
            0 <= r < rows,
            0 <= c < cols,
    ;
}

/// Two in-bounds positions with the same flat index are the same position.
pub proof fn lemma_flat_index_injective(cols: int, r1: int, c1: int, r2: int, c2: int)
    requires
        0 <= c1 < cols,
        0 <= c2 < cols,
        r1 * cols + c1 == r2 * cols + c2,
    ensures
        r1 == r2 && c1 == c2,
{
    assert(r1 == r2 && c1 == c2) by (nonlinear_arith)
        requires
            0 <= c1 < cols,
            0 <= c2 < cols,
            r1 * cols + c1 == r2 * cols + c2,
    ;
}

/// A flat index `i * cols + j` lies in the block of row `r` exactly when
/// `i` is `r`.
pub proof fn lemma_flat_row_range(cols: int, i: int, j: int, r: int)
    requires
        0 <= j < cols,
    ensures
        (r * cols <= i * cols + j < r * cols + cols) <==> i == r,
{
    assert((r * cols <= i * cols + j < r * cols + cols) <==> i == r) by (nonlinear_arith)
        requires
            0 <= j < cols,
    ;
}

/// Every flat index inside the buffer decomposes into a row and a column.
pub proof fn lemma_flat_index_decompose(rows: int, cols: int, k: int)
    requires
        0 < cols,
        0 <= k < rows * cols,
    ensures
        0 <= k / cols < rows,
        0 <= k % cols < cols,
        k == (k / cols) * cols + k % cols,
{
    assert(0 <= k / cols < rows && 0 <= k % cols < cols && k == (k / cols) * cols + k % cols)
        by (nonlinear_arith)
        requires
            0 < cols,
            0 <= k < rows * cols,
    ;
}

} // verus!
