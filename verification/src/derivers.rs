//! Derived linear algebra: transpose, minors, cofactors, the adjunct,
//! determinant by cofactor expansion along the first row, the adjunct-based
//! inverse, and the Gauss-Jordan inverse.
//!
//! The determinant of the empty matrix is defined as one, so the minor of
//! the sole element of a 1 by 1 matrix is one.
use vstd::prelude::*;

use vstd::std_specs::ops::AddSpec;
use vstd::std_specs::ops::DivSpec;
use vstd::std_specs::ops::MulSpec;
use vstd::std_specs::ops::SubSpec;

use crate::append_copy;
use crate::elements::Num;
use crate::elements::One;
use crate::elements::Zero;
use crate::errors::IndexError;
use crate::errors::InversionError;
use crate::errors::MinorError;
use crate::lemma_buffer_index;
use crate::Matrix;

verus! {

/// The matrix as a function from positions to elements.
pub open spec fn ent_fn<T>(m: Matrix<T>) -> spec_fn(int, int) -> T {
    |i: int, j: int| m.ent(i, j)
}

/// The function reading `f` with row `r` and column `c` deleted.
pub open spec fn drop_rc<T>(f: spec_fn(int, int) -> T, r: int, c: int) -> spec_fn(int, int) -> T {
    |i: int, j: int|
        f(
            if i < r {
                i
            } else {
                i + 1
            },
            if j < c {
                j
            } else {
                j + 1
            },
        )
}

/// The determinant of the leading `n` by `n` matrix read through `f`: one
/// for the empty matrix, the sole element for `n == 1`, and otherwise the
/// cofactor expansion along row zero.
pub open spec fn det_fn<T: Num>(f: spec_fn(int, int) -> T, n: int) -> T
    decreases 2 * n + 1, 0int,
{
    if n <= 0 {
        T::one_spec()
    } else if n == 1 {
        f(0, 0)
    } else {
        det_acc(f, n, n)
    }
}

/// The first `c` terms of the cofactor expansion of `det_fn(f, n)` along
/// row zero, folded from zero: term `k` is `f(0, k)` times the determinant
/// of the submatrix without row zero and column `k`, added for even `k` and
/// subtracted for odd `k`.
pub open spec fn det_acc<T: Num>(f: spec_fn(int, int) -> T, n: int, c: int) -> T
    decreases 2 * n, c,
{
    if c <= 0 || n < 1 {
        T::zero_spec()
    } else {
        let t = f(0, c - 1).mul_spec(det_fn(drop_rc(f, 0, c - 1), n - 1));
        if (c - 1) % 2 == 0 {
            det_acc(f, n, c - 1).add_spec(t)
        } else {
            det_acc(f, n, c - 1).sub_spec(t)
        }
    }
}

/// Whether every operation in `det_fn(f, n)` satisfies its operator's
/// precondition, so the executable expansion cannot overflow.
pub open spec fn det_req_fn<T: Num>(f: spec_fn(int, int) -> T, n: int) -> bool
    decreases 2 * n + 1, 0int,
{
    if n <= 1 {
        true
    } else {
        det_req_acc(f, n, n)
    }
}

/// The precondition of the first `c` terms of the expansion of
/// `det_fn(f, n)`.
pub open spec fn det_req_acc<T: Num>(f: spec_fn(int, int) -> T, n: int, c: int) -> bool
    decreases 2 * n, c,
{
    if c <= 0 || n < 1 {
        true
    } else {
        let sub = det_fn(drop_rc(f, 0, c - 1), n - 1);
        let t = f(0, c - 1).mul_spec(sub);
        &&& det_req_acc(f, n, c - 1)
        &&& det_req_fn(drop_rc(f, 0, c - 1), n - 1)
        &&& f(0, c - 1).mul_req(sub)
        &&& (if (c - 1) % 2 == 0 {
            det_acc(f, n, c - 1).add_req(t)
        } else {
            det_acc(f, n, c - 1).sub_req(t)
        })
    }
}

/// The determinant of a square matrix.
pub open spec fn det_of<T: Num>(m: Matrix<T>) -> T {
    det_fn(ent_fn(m), m.rows as int)
}

/// The minor at `r, c`: the determinant of the matrix without row `r` and
/// column `c`.
pub open spec fn minor_of<T: Num>(m: Matrix<T>, r: int, c: int) -> T {
    det_fn(drop_rc(ent_fn(m), r, c), m.rows - 1)
}

/// The cofactor at `r, c`: the minor, negated when `r + c` is odd.
pub open spec fn cofactor_of<T: Num>(m: Matrix<T>, r: int, c: int) -> T {
    if (r + c) % 2 == 0 {
        minor_of(m, r, c)
    } else {
        T::zero_spec().sub_spec(minor_of(m, r, c))
    }
}

/// Whether every minor of `m` can be expanded without overflow.
pub open spec fn minors_req<T: Num>(m: Matrix<T>) -> bool {
    forall|i: int, j: int|
        m.in_bounds(i, j) ==> det_req_fn(#[trigger] drop_rc(ent_fn(m), i, j), m.rows - 1)
}

/// Whether, on top of `minors_req`, every odd-position minor can be negated
/// without overflow.
pub open spec fn cofactors_req<T: Num>(m: Matrix<T>) -> bool {
    &&& minors_req(m)
    &&& forall|i: int, j: int|
        m.in_bounds(i, j) && (i + j) % 2 != 0 ==> T::zero_spec().sub_req(
            minor_of(m, i, j),
        )
}

/// Two functions that agree on the leading `n` by `n` block have the same
/// determinant and the same expansion precondition.
proof fn lemma_det_fn_ext<T: Num>(f: spec_fn(int, int) -> T, g: spec_fn(int, int) -> T, n: int)
    requires
        forall|i: int, j: int| 0 <= i < n && 0 <= j < n ==> #[trigger] f(i, j) == #[trigger] g(i, j),
    ensures
        det_fn(f, n) == det_fn(g, n),
        det_req_fn(f, n) == det_req_fn(g, n),
    decreases 2 * n + 1, 0int,
{
    if n > 1 {
        lemma_det_acc_ext(f, g, n, n);
    }
}

/// The accumulator form of `lemma_det_fn_ext`.
proof fn lemma_det_acc_ext<T: Num>(
    f: spec_fn(int, int) -> T,
    g: spec_fn(int, int) -> T,
    n: int,
    c: int,
)
    requires
        forall|i: int, j: int| 0 <= i < n && 0 <= j < n ==> #[trigger] f(i, j) == #[trigger] g(i, j),
        c <= n,
    ensures
        det_acc(f, n, c) == det_acc(g, n, c),
        det_req_acc(f, n, c) == det_req_acc(g, n, c),
    decreases 2 * n, c,
{
    if c > 0 && n >= 1 {
        lemma_det_acc_ext(f, g, n, c - 1);
        assert forall|i: int, j: int| 0 <= i < n - 1 && 0 <= j < n - 1 implies #[trigger] drop_rc(
            f,
            0,
            c - 1,
        )(i, j) == #[trigger] drop_rc(g, 0, c - 1)(i, j) by {}
        lemma_det_fn_ext(drop_rc(f, 0, c - 1), drop_rc(g, 0, c - 1), n - 1);
    }
}

/// A determinant expansion that is overflow-free for `n` terms is
/// overflow-free for any shorter prefix.
proof fn lemma_det_req_acc_prefix<T: Num>(f: spec_fn(int, int) -> T, n: int, k: int, c: int)
    requires
        det_req_acc(f, n, c),
        k <= c,
    ensures
        det_req_acc(f, n, k),
    decreases c,
{
    if k < c && c > 0 && n >= 1 {
        lemma_det_req_acc_prefix(f, n, k, c - 1);
    }
}

impl<T: Copy> Matrix<T> {
    /// An independent copy of the matrix.
    fn copied(&self) -> (r: Self)
        ensures
            r.rows == self.rows,
            r.columns == self.columns,
            r.data@ == self.data@,
    {
        let mut data: Vec<T> = Vec::new();
        append_copy(&mut data, &self.data);
        proof {
            assert(data@ =~= self.data@);
        }
        Matrix { data, rows: self.rows, columns: self.columns }
    }

    /// The matrix without row `row` and column `col`; for use on matrices
    /// with at least two rows and two columns.
    fn sub_matrix(&self, row: usize, col: usize) -> (r: Self)
        requires
            self.wf(),
            self.in_bounds(row as int, col as int),
            self.rows >= 2,
            self.columns >= 2,
        ensures
            r.rows == self.rows - 1,
            r.columns == self.columns - 1,
            r.wf(),
            forall|i: int, j: int|
                r.in_bounds(i, j) ==> r.ent(i, j) == drop_rc(ent_fn(*self), row as int, col as int)(
                    i,
                    j,
                ),
    {
        let mut m = self.copied();
        let rr = m.remove_row(row);
        proof {
            assert(rr is Ok);
            lemma_remove_row_ent(*self, m, row as int);
        }
        let ghost mid = m;
        let rc = m.remove_column(col);
        proof {
            assert(rc is Ok);
            assert forall|i: int, j: int| m.in_bounds(i, j) implies m.ent(i, j) == drop_rc(
                ent_fn(*self),
                row as int,
                col as int,
            )(i, j) by {
                assert(m.ent(i, j) == mid.ent(
                    i,
                    if j < col {
                        j
                    } else {
                        j + 1
                    },
                ));
            }
        }
        m
    }

    /// A new matrix with the rows and columns exchanged: the element at
    /// `j, i` of the result is the element at `i, j` of the receiver.
    pub fn transpose(&self) -> (r: Self)
        requires
            self.wf(),
        ensures
            r.rows == self.columns,
            r.columns == self.rows,
            r.wf(),
            forall|i: int, j: int| self.in_bounds(i, j) ==> r.ent(j, i) == self.ent(i, j),
    {
        let rows = self.columns;
        let w = self.rows;
        let mut out: Vec<T> = Vec::new();
        proof {
            assert(0 * w == 0) by (nonlinear_arith);
        }
        for i in 0..rows
            invariant
                self.wf(),
                rows == self.columns,
                w == self.rows,
                out@.len() == i * w,
                forall|a: int, b: int|
                    0 <= a < i && 0 <= b < w ==> #[trigger] out@[a * w + b] == self.ent(b, a),
        {
            for j in 0..w
                invariant
                    self.wf(),
                    rows == self.columns,
                    w == self.rows,
                    i < rows,
                    out@.len() == i * w + j,
                    forall|a: int, b: int|
                        0 <= a < i && 0 <= b < w ==> #[trigger] out@[a * w + b] == self.ent(b, a),
                    forall|b: int|
                        0 <= b < j ==> #[trigger] out@[i * w + b] == self.ent(b, i as int),
            {
                proof {
                    crate::lemma_buffer_index(*self, j as int, i as int);
                }
                out.push(self.data[j * self.columns + i]);
                proof {
                    assert forall|a: int, b: int| 0 <= a < i && 0 <= b < w implies #[trigger] (a * w
                        + b) < i * w by {
                        assert(a * w + w <= i * w) by (nonlinear_arith)
                            requires
                                a < i && w >= 0,
                        ;
                    }
                }
            }
            proof {
                assert((i + 1) * w == i * w + w) by (nonlinear_arith);
            }
        }
        let m = Matrix { data: out, rows, columns: w };
        proof {
            assert forall|i: int, j: int| self.in_bounds(i, j) implies m.ent(j, i) == self.ent(
                i,
                j,
            ) by {
                crate::lemma_flat_index_bound(rows as int, w as int, j, i);
            }
        }
        m
    }
}

impl<T: Num> Matrix<T> {
    /// The determinant: `None` unless the matrix is square and non-empty;
    /// the sole element for a 1 by 1 matrix; otherwise the alternating sum,
    /// along row zero, of each element times the determinant of the matrix
    /// without row zero and that element's column.
    pub fn determinant(&self) -> (r: Option<T>)
        requires
            self.wf(),
            self.rows == self.columns ==> det_req_fn(ent_fn(*self), self.rows as int),
        ensures
            match r {
                Some(d) => self.rows == self.columns && self.rows != 0 && d == det_of(*self),
                None => self.rows != self.columns || self.rows == 0,
            },
        decreases self.rows,
    {
        if !(self.rows == self.columns && self.rows != 0) {
            return None;
        }
        if self.rows == 1 {
            return Some(self.data[0]);
        }
        proof {
            T::properties();
        }
        let n = self.rows;
        let ghost f = ent_fn(*self);
        let mut acc = T::zero();
        for c in 0..n
            invariant
                self.wf(),
                self.rows == self.columns,
                n == self.rows,
                n >= 2,
                f == ent_fn(*self),
                det_req_acc(f, n as int, n as int),
                T::obeys_add_spec(),
                T::obeys_sub_spec(),
                T::obeys_mul_spec(),
                acc == det_acc(f, n as int, c as int),
        {
            proof {
                lemma_det_req_acc_prefix(f, n as int, c + 1 as int, n as int);
            }
            let sub = self.sub_matrix(0, c);
            proof {
                lemma_det_fn_ext(ent_fn(sub), drop_rc(f, 0, c as int), n - 1 as int);
            }
            let d = sub.determinant();
            let dv = match d {
                Some(v) => v,
                None => {
                    proof {
                        assert(false);
                    }
                    T::zero()
                },
            };
            proof {
                crate::lemma_buffer_index(*self, 0int, c as int);
                assert(self.data@[c as int] == f(0, c as int));
            }
            let term = self.data[c] * dv;
            if c % 2 == 0 {
                acc = acc + term;
            } else {
                acc = acc - term;
            }
        }
        Some(acc)
    }

    /// The minor at `pos`: the determinant of the matrix without that row
    /// and column. The matrix must be square and the position in bounds;
    /// for a 1 by 1 matrix the minor is one, the determinant of the empty
    /// matrix.
    pub fn minor(&self, pos: (usize, usize)) -> (r: Result<T, MinorError>)
        requires
            self.wf(),
            self.rows == self.columns && self.in_bounds(pos.0 as int, pos.1 as int)
                ==> det_req_fn(drop_rc(ent_fn(*self), pos.0 as int, pos.1 as int), self.rows - 1),
        ensures
            match r {
                Ok(v) => self.rows == self.columns && self.rows != 0 && self.in_bounds(
                    pos.0 as int,
                    pos.1 as int,
                ) && v == minor_of(*self, pos.0 as int, pos.1 as int),
                Err(MinorError::NotSquare) => self.rows != self.columns || self.rows == 0,
                Err(MinorError::BoundsError(e)) => self.rows == self.columns && self.rows != 0
                    && !self.in_bounds(pos.0 as int, pos.1 as int) && e == self.index_error(
                    pos.0,
                    pos.1,
                ),
            },
    {
        if !(self.rows == self.columns && self.rows != 0) {
            return Err(MinorError::NotSquare);
        }
        let (row, col) = pos;
        if row >= self.rows && col >= self.columns {
            return Err(MinorError::BoundsError(IndexError::Both(row, col)));
        }
        if row >= self.rows {
            return Err(MinorError::BoundsError(IndexError::Row(row)));
        }
        if col >= self.columns {
            return Err(MinorError::BoundsError(IndexError::Column(col)));
        }
        if self.rows == 1 {
            return Ok(T::one());
        }
        let sub = self.sub_matrix(row, col);
        proof {
            lemma_det_fn_ext(
                ent_fn(sub),
                drop_rc(ent_fn(*self), row as int, col as int),
                self.rows - 1 as int,
            );
        }
        let d = sub.determinant();
        match d {
            Some(v) => Ok(v),
            None => {
                proof {
                    assert(false);
                }
                Err(MinorError::NotSquare)
            },
        }
    }
}

impl<T: Num> Matrix<T> {
    /// The matrix of every element's minor, or `None` when the matrix is
    /// not square.
    pub fn minor_matrix(&self) -> (r: Option<Self>)
        requires
            self.wf(),
            self.rows == self.columns ==> minors_req(*self),
        ensures
            match r {
                Some(mm) => {
                    &&& self.rows == self.columns && self.rows != 0
                    &&& mm.rows == self.rows && mm.columns == self.columns
                    &&& mm.wf()
                    &&& forall|i: int, j: int|
                        mm.in_bounds(i, j) ==> mm.ent(i, j) == minor_of(*self, i, j)
                },
                None => self.rows != self.columns || self.rows == 0,
            },
    {
        if !(self.rows == self.columns && self.rows != 0) {
            return None;
        }
        let n = self.rows;
        let mut out: Vec<T> = Vec::new();
        proof {
            assert(0 * n == 0) by (nonlinear_arith);
        }
        for i in 0..n
            invariant
                self.wf(),
                self.rows == self.columns,
                n == self.rows,
                n >= 1,
                minors_req(*self),
                out@.len() == i * n,
                forall|a: int, b: int|
                    0 <= a < i && 0 <= b < n ==> #[trigger] out@[a * n + b] == minor_of(*self, a, b),
        {
            for j in 0..n
                invariant
                    self.wf(),
                    self.rows == self.columns,
                    n == self.rows,
                    n >= 1,
                    i < n,
                    minors_req(*self),
                    out@.len() == i * n + j,
                    forall|a: int, b: int|
                        0 <= a < i && 0 <= b < n ==> #[trigger] out@[a * n + b] == minor_of(
                            *self,
                            a,
                            b,
                        ),
                    forall|b: int|
                        0 <= b < j ==> #[trigger] out@[i * n + b] == minor_of(*self, i as int, b),
            {
                let v = match self.minor((i, j)) {
                    Ok(v) => v,
                    Err(_) => {
                        proof {
                            assert(false);
                        }
                        T::zero()
                    },
                };
                out.push(v);
                proof {
                    assert forall|a: int, b: int| 0 <= a < i && 0 <= b < n implies #[trigger] (a * n
                        + b) < i * n by {
                        assert(a * n + n <= i * n) by (nonlinear_arith)
                            requires
                                a < i && n >= 0,
                        ;
                    }
                }
            }
            proof {
                assert((i + 1) * n == i * n + n) by (nonlinear_arith);
            }
        }
        let m = Matrix { data: out, rows: n, columns: n };
        proof {
            assert forall|i: int, j: int| m.in_bounds(i, j) implies m.ent(i, j) == minor_of(
                *self,
                i,
                j,
            ) by {
                crate::lemma_flat_index_bound(n as int, n as int, i, j);
            }
        }
        Some(m)
    }

    /// The matrix of cofactors: each element's minor, negated where the row
    /// and column indexes sum to an odd number. `None` when not square.
    pub fn cofactor(&self) -> (r: Option<Self>)
        requires
            self.wf(),
            self.rows == self.columns ==> cofactors_req(*self),
        ensures
            match r {
                Some(cm) => {
                    &&& self.rows == self.columns && self.rows != 0
                    &&& cm.rows == self.rows && cm.columns == self.columns
                    &&& cm.wf()
                    &&& forall|i: int, j: int|
                        cm.in_bounds(i, j) ==> cm.ent(i, j) == cofactor_of(*self, i, j)
                },
                None => self.rows != self.columns || self.rows == 0,
            },
    {
        if !(self.rows == self.columns && self.rows != 0) {
            return None;
        }
        proof {
            T::properties();
        }
        let n = self.rows;
        let mut out: Vec<T> = Vec::new();
        proof {
            assert(0 * n == 0) by (nonlinear_arith);
        }
        for i in 0..n
            invariant
                self.wf(),
                self.rows == self.columns,
                n == self.rows,
                n >= 1,
                cofactors_req(*self),
                T::obeys_sub_spec(),
                out@.len() == i * n,
                forall|a: int, b: int|
                    0 <= a < i && 0 <= b < n ==> #[trigger] out@[a * n + b] == cofactor_of(
                        *self,
                        a,
                        b,
                    ),
        {
            for j in 0..n
                invariant
                    self.wf(),
                    self.rows == self.columns,
                    n == self.rows,
                    n >= 1,
                    i < n,
                    cofactors_req(*self),
                    T::obeys_sub_spec(),
                    out@.len() == i * n + j,
                    forall|a: int, b: int|
                        0 <= a < i && 0 <= b < n ==> #[trigger] out@[a * n + b] == cofactor_of(
                            *self,
                            a,
                            b,
                        ),
                    forall|b: int|
                        0 <= b < j ==> #[trigger] out@[i * n + b] == cofactor_of(*self, i as int, b),
            {
                let m = match self.minor((i, j)) {
                    Ok(v) => v,
                    Err(_) => {
                        proof {
                            assert(false);
                        }
                        T::zero()
                    },
                };
                proof {
                    assert((i as int + j as int) % 2 == 0 <==> i as int % 2 == j as int % 2);
                }
                let v = if i % 2 == j % 2 {
                    m
                } else {
                    T::zero() - m
                };
                out.push(v);
                proof {
                    assert forall|a: int, b: int| 0 <= a < i && 0 <= b < n implies #[trigger] (a * n
                        + b) < i * n by {
                        assert(a * n + n <= i * n) by (nonlinear_arith)
                            requires
                                a < i && n >= 0,
                        ;
                    }
                }
            }
            proof {
                assert((i + 1) * n == i * n + n) by (nonlinear_arith);
            }
        }
        let m = Matrix { data: out, rows: n, columns: n };
        proof {
            assert forall|i: int, j: int| m.in_bounds(i, j) implies m.ent(i, j) == cofactor_of(
                *self,
                i,
                j,
            ) by {
                crate::lemma_flat_index_bound(n as int, n as int, i, j);
            }
        }
        Some(m)
    }

    /// The adjunct (adjugate): the transpose of the cofactor matrix. `None`
    /// when not square.
    pub fn adjunct(&self) -> (r: Option<Self>)
        requires
            self.wf(),
            self.rows == self.columns ==> cofactors_req(*self),
        ensures
            match r {
                Some(am) => {
                    &&& self.rows == self.columns && self.rows != 0
                    &&& am.rows == self.rows && am.columns == self.columns
                    &&& am.wf()
                    &&& forall|i: int, j: int|
                        am.in_bounds(i, j) ==> am.ent(i, j) == cofactor_of(*self, j, i)
                },
                None => self.rows != self.columns || self.rows == 0,
            },
    {
        match self.cofactor() {
            Some(cm) => Some(cm.transpose()),
            None => None,
        }
    }

    /// The inverse by the adjunct method: the adjunct scaled by one over
    /// the determinant. Exact only for element types whose division is;
    /// integer division truncates. Fails on a non-square matrix, then on a
    /// zero determinant.
    pub fn inverse(&self) -> (r: Result<Self, InversionError>)
        requires
            self.wf(),
            self.rows == self.columns ==> det_req_fn(ent_fn(*self), self.rows as int),
            self.rows == self.columns ==> cofactors_req(*self),
            self.rows == self.columns && det_of(*self) != T::zero_spec() ==> forall|i: int, j: int|
                self.in_bounds(i, j) ==> (#[trigger] cofactor_of(*self, j, i)).mul_req(
                    T::one_spec().div_spec(det_of(*self)),
                ),
        ensures
            match r {
                Ok(m) => {
                    &&& self.rows == self.columns && self.rows != 0
                    &&& det_of(*self) != T::zero_spec()
                    &&& m.rows == self.rows && m.columns == self.columns
                    &&& m.wf()
                    &&& forall|i: int, j: int|
                        m.in_bounds(i, j) ==> m.ent(i, j) == (#[trigger] cofactor_of(
                            *self,
                            j,
                            i,
                        )).mul_spec(T::one_spec().div_spec(det_of(*self)))
                },
                Err(InversionError::NotSquare) => self.rows != self.columns || self.rows == 0,
                Err(InversionError::InvalidDeterminant) => self.rows == self.columns && self.rows
                    != 0 && det_of(*self) == T::zero_spec(),
            },
    {
        if !(self.rows == self.columns && self.rows != 0) {
            return Err(InversionError::NotSquare);
        }
        proof {
            T::properties();
        }
        let det = match self.determinant() {
            Some(d) => d,
            None => {
                proof {
                    assert(false);
                }
                T::zero()
            },
        };
        if det.is_zero() {
            return Err(InversionError::InvalidDeterminant);
        }
        let inv_det = T::one() / det;
        let mut adj = match self.adjunct() {
            Some(a) => a,
            None => {
                proof {
                    assert(false);
                }
                Matrix::empty()
            },
        };
        proof {
            assert forall|k: int| 0 <= k < adj.data@.len() implies (#[trigger] adj.data@[k]).mul_req(
                inv_det,
            ) by {
                crate::lemma_flat_index_decompose(adj.rows as int, adj.columns as int, k);
                let i = k / (adj.columns as int);
                let j = k % (adj.columns as int);
                assert(adj.ent(i, j) == adj.data@[k]);
                assert(adj.ent(i, j) == cofactor_of(*self, j, i));
            }
        }
        let ghost before = adj;
        adj.scale(inv_det);
        proof {
            assert forall|i: int, j: int| adj.in_bounds(i, j) implies adj.ent(i, j) == (
            #[trigger] cofactor_of(*self, j, i)).mul_spec(T::one_spec().div_spec(det_of(*self))) by {
                crate::lemma_flat_index_bound(adj.rows as int, adj.columns as int, i, j);
                assert(before.ent(i, j) == cofactor_of(*self, j, i));
            }
        }
        Ok(adj)
    }
}

/// The identity read as a function from positions to elements.
pub open spec fn delta_fn<T: Num>() -> spec_fn(int, int) -> T {
    |i: int, j: int|
        if i == j {
            T::one_spec()
        } else {
            T::zero_spec()
        }
}

/// `h` with row `c` scaled by `r`.
pub open spec fn gj_scaled_row<T: Num>(h: spec_fn(int, int) -> T, c: int, r: T) -> spec_fn(
    int,
    int,
) -> T {
    |i: int, j: int|
        if i == c {
            h(i, j).mul_spec(r)
        } else {
            h(i, j)
        }
}

/// `h` after eliminating column `c` from every row but `c`: row `i` loses
/// row `c` scaled by the factor `w(i, c)` read from the working matrix.
pub open spec fn gj_elim<T: Num>(
    h: spec_fn(int, int) -> T,
    w: spec_fn(int, int) -> T,
    c: int,
) -> spec_fn(int, int) -> T {
    |i: int, j: int|
        if i == c {
            h(i, j)
        } else {
            h(i, j).sub_spec(h(c, j).mul_spec(w(i, c)))
        }
}

/// The working matrix after normalising the pivot row of column `c`: when
/// the pivot is already one the matrix is unchanged, else row `c` is scaled
/// by the pivot's reciprocal.
pub open spec fn gj_nf<T: Num>(f: spec_fn(int, int) -> T, c: int) -> spec_fn(int, int) -> T {
    if f(c, c) == T::one_spec() {
        f
    } else {
        gj_scaled_row(f, c, T::one_spec().div_spec(f(c, c)))
    }
}

/// The carried matrix after the same normalisation, driven by the working
/// matrix's pivot.
pub open spec fn gj_ng<T: Num>(
    f: spec_fn(int, int) -> T,
    g: spec_fn(int, int) -> T,
    c: int,
) -> spec_fn(int, int) -> T {
    if f(c, c) == T::one_spec() {
        g
    } else {
        gj_scaled_row(g, c, T::one_spec().div_spec(f(c, c)))
    }
}

/// The pair of matrices after one successful elimination step at column
/// `c`: normalise the pivot row of both (unless the pivot is already one),
/// then eliminate column `c` from every other row of both, with the factors
/// read from the working matrix.
pub open spec fn gj_next<T: Num>(
    f: spec_fn(int, int) -> T,
    g: spec_fn(int, int) -> T,
    c: int,
) -> (spec_fn(int, int) -> T, spec_fn(int, int) -> T) {
    (gj_elim(gj_nf(f, c), gj_nf(f, c), c), gj_elim(gj_ng(f, g, c), gj_nf(f, c), c))
}

/// The Gauss-Jordan elimination of `f`, carrying `g` along, from column `c`
/// to the end: `None` when some pivot turns out neither one nor invertible
/// (it is zero), else the final pair.
pub open spec fn gj_go<T: Num>(
    f: spec_fn(int, int) -> T,
    g: spec_fn(int, int) -> T,
    n: int,
    c: int,
) -> Option<(spec_fn(int, int) -> T, spec_fn(int, int) -> T)>
    decreases n - c,
{
    if c >= n {
        Some((f, g))
    } else if f(c, c) != T::one_spec() && f(c, c) == T::zero_spec() {
        None
    } else {
        let (f2, g2) = gj_next(f, g, c);
        gj_go(f2, g2, n, c + 1)
    }
}

/// The overflow preconditions of eliminating position `i, j` during the
/// step at column `c`: the multiplications and subtractions applied to the
/// normalised working matrix and to the normalised carried matrix.
pub open spec fn gj_step_req<T: Num>(
    f: spec_fn(int, int) -> T,
    g: spec_fn(int, int) -> T,
    c: int,
    i: int,
    j: int,
) -> bool {
    let nf = gj_nf(f, c);
    let ng = gj_ng(f, g, c);
    &&& nf(c, j).mul_req(nf(i, c))
    &&& nf(i, j).sub_req(nf(c, j).mul_spec(nf(i, c)))
    &&& ng(c, j).mul_req(nf(i, c))
    &&& ng(i, j).sub_req(ng(c, j).mul_spec(nf(i, c)))
}

/// Whether every operation of the elimination from column `c` on satisfies
/// its operator's precondition, so the executable elimination cannot
/// overflow.
pub open spec fn gj_req<T: Num>(
    f: spec_fn(int, int) -> T,
    g: spec_fn(int, int) -> T,
    n: int,
    c: int,
) -> bool
    decreases n - c,
{
    if c >= n {
        true
    } else if f(c, c) != T::one_spec() && f(c, c) == T::zero_spec() {
        true
    } else {
        let nf = gj_nf(f, c);
        let ng = gj_ng(f, g, c);
        &&& (f(c, c) != T::one_spec() ==> forall|j: int|
            0 <= j < n ==> (#[trigger] f(c, j)).mul_req(T::one_spec().div_spec(f(c, c))) && g(
                c,
                j,
            ).mul_req(T::one_spec().div_spec(f(c, c))))
        &&& forall|i: int, j: int|
            0 <= i < n && 0 <= j < n && i != c ==> #[trigger] gj_step_req(f, g, c, i, j)
        &&& gj_req(gj_elim(nf, nf, c), gj_elim(ng, nf, c), n, c + 1)
    }
}

/// Unfolds one step of `gj_req`: at a usable pivot, the normalisation and
/// elimination preconditions of column `c` hold, and the precondition
/// carries over to the eliminated pair at the next column.
proof fn lemma_gj_req_step<T: Num>(f: spec_fn(int, int) -> T, g: spec_fn(int, int) -> T, n: int, c: int)
    requires
        gj_req(f, g, n, c),
        0 <= c < n,
        !(f(c, c) != T::one_spec() && f(c, c) == T::zero_spec()),
    ensures
        f(c, c) != T::one_spec() ==> forall|j: int|
            0 <= j < n ==> (#[trigger] f(c, j)).mul_req(T::one_spec().div_spec(f(c, c))) && g(
                c,
                j,
            ).mul_req(T::one_spec().div_spec(f(c, c))),
        forall|i: int, j: int|
            0 <= i < n && 0 <= j < n && i != c ==> #[trigger] gj_step_req(f, g, c, i, j),
        gj_req(
            gj_elim(gj_nf(f, c), gj_nf(f, c), c),
            gj_elim(gj_ng(f, g, c), gj_nf(f, c), c),
            n,
            c + 1,
        ),
{
}

impl<T: Num> Matrix<T> {
    /// The inverse by Gauss-Jordan elimination: the matrix is cloned and an
    /// identity matrix tracks every row operation; for each column in turn
    /// the pivot row is normalised by the pivot's reciprocal (unless the
    /// pivot is one) and the column is eliminated from every other row.
    /// Fails on a non-square matrix, then with an invalid determinant when
    /// a pivot is neither one nor invertible (it is zero). Exact only for
    /// element types whose division is; integer division truncates.
    pub fn fast_inverse(&self) -> (r: Result<Self, InversionError>)
        requires
            self.wf(),
            self.rows == self.columns ==> gj_req(
                ent_fn(*self),
                delta_fn::<T>(),
                self.rows as int,
                0,
            ),
        ensures
            match r {
                Ok(m) => {
                    let res = gj_go(ent_fn(*self), delta_fn::<T>(), self.rows as int, 0);
                    &&& self.rows == self.columns && self.rows != 0
                    &&& res is Some
                    &&& m.rows == self.rows && m.columns == self.columns
                    &&& m.wf()
                    &&& forall|i: int, j: int|
                        m.in_bounds(i, j) ==> m.ent(i, j) == res.unwrap().1(i, j)
                },
                Err(InversionError::NotSquare) => self.rows != self.columns || self.rows == 0,
                Err(InversionError::InvalidDeterminant) => self.rows == self.columns && self.rows
                    != 0 && gj_go(ent_fn(*self), delta_fn::<T>(), self.rows as int, 0) is None,
            },
    {
        if !(self.rows == self.columns && self.rows != 0) {
            return Err(InversionError::NotSquare);
        }
        proof {
            T::properties();
        }
        let n = self.rows;
        let mut work = self.copied();
        let mut out = Self::new_identity(n);
        let ghost f0 = ent_fn(*self);
        let ghost g0 = delta_fn::<T>();
        let ghost mut fc = f0;
        let ghost mut gc = g0;
        let one_val = T::one();
        for c in 0..n
            invariant
                self.wf(),
                self.rows == self.columns,
                n == self.rows,
                n >= 1,
                work.wf(),
                out.wf(),
                work.rows == n,
                work.columns == n,
                out.rows == n,
                out.columns == n,
                one_val == T::one_spec(),
                f0 == ent_fn(*self),
                g0 == delta_fn::<T>(),
                gj_go(f0, g0, n as int, 0) == gj_go(fc, gc, n as int, c as int),
                gj_req(fc, gc, n as int, c as int),
                forall|i: int, j: int|
                    0 <= i < n && 0 <= j < n ==> #[trigger] work.ent(i, j) == fc(i, j),
                forall|i: int, j: int|
                    0 <= i < n && 0 <= j < n ==> #[trigger] out.ent(i, j) == gc(i, j),
        {
            let ghost step_f = fc;
        let ghost step_g = gc;
            proof {
                T::properties();
                lemma_buffer_index(work, c as int, c as int);
            }
            let pivot = work.data[c * work.columns + c];
            proof {
                assert(pivot == work.ent(c as int, c as int));
                assert(pivot == fc(c as int, c as int));
            }
            let ghost gp = step_f(c as int, c as int);
            let ghost gr = T::one_spec().div_spec(gp);
            let ghost nf = gj_nf(step_f, c as int);
            let ghost ng = gj_ng(step_f, step_g, c as int);
            let ghost work_pre = work;
            let ghost out_pre = out;
            if !(pivot == one_val) {
                if pivot.is_zero() {
                    proof {
                        assert(gj_go(fc, gc, n as int, c as int) is None);
                    }
                    return Err(InversionError::InvalidDeterminant);
                }
                let recip = one_val / pivot;
                proof {
                    assert(recip == gr);
                    assert(gp != T::one_spec());
                    assert(gp != T::zero_spec());
                    assert forall|j: int| 0 <= j < n implies (#[trigger] step_f(c as int, j)).mul_req(
                        gr,
                    ) && step_g(c as int, j).mul_req(gr) by {}
                    assert forall|j: int| work.in_bounds(c as int, j) implies (
                    #[trigger] work.ent(c as int, j)).mul_req(recip) by {
                        assert(work.ent(c as int, j) == step_f(c as int, j));
                        assert(step_f(c as int, j).mul_req(gr));
                    }
                    assert forall|j: int| out.in_bounds(c as int, j) implies (#[trigger] out.ent(
                        c as int,
                        j,
                    )).mul_req(recip) by {
                        assert(out.ent(c as int, j) == step_g(c as int, j));
                        assert(step_f(c as int, j).mul_req(gr));
                        assert(step_g(c as int, j).mul_req(gr));
                    }
                }
                let s1 = work.scale_row(c, recip);
                let s2 = out.scale_row(c, recip);
                proof {
                    assert(s1 is Ok && s2 is Ok);
                }
            }
            proof {
                assert forall|i: int, j: int| 0 <= i < n && 0 <= j < n implies #[trigger] work.ent(
                    i,
                    j,
                ) == nf(i, j) by {
                    assert(work_pre.ent(i, j) == step_f(i, j));
                }
                assert forall|i: int, j: int| 0 <= i < n && 0 <= j < n implies #[trigger] out.ent(
                    i,
                    j,
                ) == ng(i, j) by {
                    assert(out_pre.ent(i, j) == step_g(i, j));
                }
                assert(gj_req(step_f, step_g, n as int, c as int));
                lemma_gj_req_step(step_f, step_g, n as int, c as int);
            }
            for r2 in 0..n
                invariant
                    self.wf(),
                    n >= 1,
                    c < n,
                    nf == gj_nf(step_f, c as int),
                    ng == gj_ng(step_f, step_g, c as int),
                    work.wf(),
                    out.wf(),
                    work.rows == n,
                    work.columns == n,
                    out.rows == n,
                    out.columns == n,
                    forall|i: int, j: int|
                        0 <= i < n && 0 <= j < n && i != c ==> #[trigger] gj_step_req(
                            step_f,
                            step_g,
                            c as int,
                            i,
                            j,
                        ),
                    forall|i: int, j: int|
                        0 <= i < n && 0 <= j < n && i != c && i < r2 ==> #[trigger] work.ent(i, j)
                            == nf(i, j).sub_spec(nf(c as int, j).mul_spec(nf(i, c as int))),
                    forall|i: int, j: int|
                        0 <= i < n && 0 <= j < n && (i == c || i >= r2) ==> #[trigger] work.ent(
                            i,
                            j,
                        ) == nf(i, j),
                    forall|i: int, j: int|
                        0 <= i < n && 0 <= j < n && i != c && i < r2 ==> #[trigger] out.ent(i, j)
                            == ng(i, j).sub_spec(ng(c as int, j).mul_spec(nf(i, c as int))),
                    forall|i: int, j: int|
                        0 <= i < n && 0 <= j < n && (i == c || i >= r2) ==> #[trigger] out.ent(
                            i,
                            j,
                        ) == ng(i, j),
            {
                if r2 != c {
                    proof {
                        lemma_buffer_index(work, r2 as int, c as int);
                    }
                    let factor = work.data[r2 * work.columns + c];
                    proof {
                        assert(factor == work.ent(r2 as int, c as int));
                        assert(work.ent(r2 as int, c as int) == nf(r2 as int, c as int));
                        assert forall|j: int| 0 <= j < n implies (#[trigger] work.ent(
                            c as int,
                            j,
                        )).mul_req(factor) && work.ent(r2 as int, j).sub_req(
                            work.ent(c as int, j).mul_spec(factor),
                        ) by {
                            assert(gj_step_req(step_f, step_g, c as int, r2 as int, j));
                            assert(nf(c as int, j).mul_req(nf(r2 as int, c as int)));
                            assert(nf(r2 as int, j).sub_req(
                                nf(c as int, j).mul_spec(nf(r2 as int, c as int)),
                            ));
                            assert(work.ent(c as int, j) == nf(c as int, j));
                            assert(work.ent(r2 as int, j) == nf(r2 as int, j));
                        }
                        assert forall|j: int| 0 <= j < n implies (#[trigger] out.ent(
                            c as int,
                            j,
                        )).mul_req(factor) && out.ent(r2 as int, j).sub_req(
                            out.ent(c as int, j).mul_spec(factor),
                        ) by {
                            assert(gj_step_req(step_f, step_g, c as int, r2 as int, j));
                            assert(ng(c as int, j).mul_req(nf(r2 as int, c as int)));
                            assert(ng(r2 as int, j).sub_req(
                                ng(c as int, j).mul_spec(nf(r2 as int, c as int)),
                            ));
                            assert(out.ent(c as int, j) == ng(c as int, j));
                            assert(out.ent(r2 as int, j) == ng(r2 as int, j));
                        }
                    }
                    let ghost wpre = work;
                    let ghost opre = out;
                    let e1 = work.sub_scaled_row(c, r2, factor);
                    let e2 = out.sub_scaled_row(c, r2, factor);
                    proof {
                        assert(e1 is Ok && e2 is Ok);
                        assert forall|i: int, j: int|
                            0 <= i < n && 0 <= j < n && i != c && i < r2 + 1 implies #[trigger] work.ent(
                            i,
                            j,
                        ) == nf(i, j).sub_spec(nf(c as int, j).mul_spec(nf(i, c as int))) by {
                            if i == r2 {
                                assert(wpre.ent(c as int, j) == nf(c as int, j));
                                assert(wpre.ent(r2 as int, j) == nf(r2 as int, j));
                            } else {
                                assert(wpre.ent(i, j) == nf(i, j).sub_spec(
                                    nf(c as int, j).mul_spec(nf(i, c as int)),
                                ));
                            }
                        }
                        assert forall|i: int, j: int|
                            0 <= i < n && 0 <= j < n && (i == c || i >= r2 + 1) implies #[trigger] work.ent(
                            i,
                            j,
                        ) == nf(i, j) by {
                            assert(wpre.ent(i, j) == nf(i, j));
                        }
                        assert forall|i: int, j: int|
                            0 <= i < n && 0 <= j < n && i != c && i < r2 + 1 implies #[trigger] out.ent(
                            i,
                            j,
                        ) == ng(i, j).sub_spec(ng(c as int, j).mul_spec(nf(i, c as int))) by {
                            if i == r2 {
                                assert(opre.ent(c as int, j) == ng(c as int, j));
                                assert(opre.ent(r2 as int, j) == ng(r2 as int, j));
                            } else {
                                assert(opre.ent(i, j) == ng(i, j).sub_spec(
                                    ng(c as int, j).mul_spec(nf(i, c as int)),
                                ));
                            }
                        }
                        assert forall|i: int, j: int|
                            0 <= i < n && 0 <= j < n && (i == c || i >= r2 + 1) implies #[trigger] out.ent(
                            i,
                            j,
                        ) == ng(i, j) by {
                            assert(opre.ent(i, j) == ng(i, j));
                        }
                    }
                }
            }
            proof {
                fc = gj_elim(nf, nf, c as int);
                gc = gj_elim(ng, nf, c as int);
                assert forall|i: int, j: int| 0 <= i < n && 0 <= j < n implies #[trigger] work.ent(
                    i,
                    j,
                ) == fc(i, j) by {}
                assert forall|i: int, j: int| 0 <= i < n && 0 <= j < n implies #[trigger] out.ent(
                    i,
                    j,
                ) == gc(i, j) by {}
                assert(gj_next(step_f, step_g, c as int) == (fc, gc));
                assert(gj_go(step_f, step_g, n as int, c as int) == gj_go(fc, gc, n as int, c + 1));
                assert(gj_req(fc, gc, n as int, c + 1));
            }
        }
        proof {
            assert(gj_go(fc, gc, n as int, n as int) == Some((fc, gc)));
        }
        Ok(out)
    }
}

/// After `remove_row(row)` on a well-formed `before` with more than one
/// row, the elements read as `before`'s with row `row` skipped.
proof fn lemma_remove_row_ent<T>(before: Matrix<T>, after: Matrix<T>, row: int)
    requires
        before.wf(),
        0 <= row < before.rows,
        before.rows >= 2,
        after.rows == before.rows - 1,
        after.columns == before.columns,
        after.data@ == before.data@.subrange(0, row * before.columns) + before.data@.subrange(
            (row + 1) * before.columns,
            before.data@.len() as int,
        ),
    ensures
        after.wf(),
        forall|i: int, j: int|
            after.in_bounds(i, j) ==> after.ent(i, j) == before.ent(
                if i < row {
                    i
                } else {
                    i + 1
                },
                j,
            ),
{
    let cols = before.columns as int;
    let rows = before.rows as int;
    assert(0 <= row * cols && (row + 1) * cols == row * cols + cols && (row + 1) * cols <= rows
        * cols) by (nonlinear_arith)
        requires
            0 <= row < rows && cols >= 0,
    ;
    assert((rows - 1) * cols == rows * cols - cols) by (nonlinear_arith);
    assert forall|i: int, j: int| after.in_bounds(i, j) implies after.ent(i, j) == before.ent(
        if i < row {
            i
        } else {
            i + 1
        },
        j,
    ) by {
        crate::lemma_flat_index_bound(rows - 1, cols, i, j);
        if i < row {
            assert(i * cols + j < row * cols) by (nonlinear_arith)
                requires
                    i < row && 0 <= j < cols && 0 <= i,
            ;
        } else {
            assert(i * cols + j - row * cols + (row + 1) * cols == (i + 1) * cols + j)
                by (nonlinear_arith);
            assert(row * cols <= i * cols + j) by (nonlinear_arith)
                requires
                    row <= i && 0 <= j && 0 <= cols,
            ;
        }
    }
}

} // verus!
