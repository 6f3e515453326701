//! The standard operator traits on matrices: value equality, a default
//! (the empty matrix), negation, shape-checked elementwise addition and
//! subtraction, matrix multiplication, and position indexing.
use vstd::prelude::*;

use vstd::std_specs::cmp::PartialEqSpec;
use vstd::std_specs::ops::AddSpec;
use vstd::std_specs::ops::MulSpec;
use vstd::std_specs::ops::NegSpec;
use vstd::std_specs::ops::SubSpec;

use crate::elements::Num;
use crate::elements::Zero;
use crate::errors::SizingError;
use crate::lemma_buffer_index;
use crate::Matrix;

verus! {

impl<T: PartialEq> PartialEq for Matrix<T> {
    /// Two matrices are equal when their shapes and all their elements are.
    fn eq(&self, other: &Self) -> bool {
        self.rows == other.rows && self.columns == other.columns && self.data == other.data
    }
}

impl<T: PartialEq> vstd::std_specs::cmp::PartialEqSpecImpl for Matrix<T> {
    open spec fn obeys_eq_spec() -> bool {
        T::obeys_eq_spec()
    }

    open spec fn eq_spec(&self, other: &Matrix<T>) -> bool {
        self.rows == other.rows && self.columns == other.columns
            && vstd::std_specs::cmp::PartialEqSpec::eq_spec(&self.data, &other.data)
    }
}

impl<T> Default for Matrix<T> {
    /// The default matrix is the canonical empty one.
    fn default() -> (r: Self)
        ensures
            r.rows == 0,
            r.columns == 0,
            r.data@.len() == 0,
            r.wf(),
    {
        Matrix { data: Vec::new(), rows: 0, columns: 0 }
    }
}

impl<T: core::ops::Neg<Output = T> + Copy> vstd::std_specs::ops::NegSpecImpl for Matrix<T> {
    open spec fn obeys_neg_spec() -> bool {
        false
    }

    open spec fn neg_req(self) -> bool {
        forall|k: int| 0 <= k < self.data@.len() ==> (#[trigger] self.data@[k]).neg_req()
    }

    open spec fn neg_spec(self) -> Matrix<T> {
        arbitrary()
    }
}

impl<T: core::ops::Neg<Output = T> + Copy> core::ops::Neg for Matrix<T> {
    type Output = Matrix<T>;

    /// Negates every element, keeping the shape.
    fn neg(self) -> (r: Matrix<T>)
        ensures
            r.rows == self.rows,
            r.columns == self.columns,
            r.data@.len() == self.data@.len(),
            T::obeys_neg_spec() ==> forall|k: int|
                0 <= k < self.data@.len() ==> r.data@[k] == (#[trigger] self.data@[k]).neg_spec(),
    {
        let n = self.data.len();
        let mut out: Vec<T> = Vec::new();
        for k in 0..n
            invariant
                n == self.data@.len(),
                forall|kk: int| 0 <= kk < n ==> (#[trigger] self.data@[kk]).neg_req(),
                out@.len() == k,
                T::obeys_neg_spec() ==> forall|kk: int|
                    0 <= kk < k ==> out@[kk] == (#[trigger] self.data@[kk]).neg_spec(),
        {
            let v = self.data[k].neg();
            out.push(v);
        }
        Matrix { data: out, rows: self.rows, columns: self.columns }
    }
}

/// The sizing error an elementwise combination of two differently shaped
/// matrices reports: the mismatched axis, or both.
pub open spec fn shape_error<T>(a: Matrix<T>, b: Matrix<T>) -> SizingError {
    if a.rows != b.rows && a.columns != b.columns {
        SizingError::Both(b.rows, b.columns)
    } else if a.rows != b.rows {
        SizingError::Row(b.rows)
    } else {
        SizingError::Column(b.columns)
    }
}

/// Adds two equally shaped matrices element by element.
fn add_entrywise<T: Num>(a: &Matrix<T>, b: &Matrix<T>) -> (r: Result<Matrix<T>, SizingError>)
    requires
        a.wf(),
        b.wf(),
        a.rows == b.rows && a.columns == b.columns ==> forall|k: int|
            0 <= k < a.data@.len() ==> (#[trigger] a.data@[k]).add_req(b.data@[k]),
    ensures
        match r {
            Ok(m) => {
                &&& a.rows == b.rows && a.columns == b.columns
                &&& m.rows == a.rows && m.columns == a.columns
                &&& m.wf()
                &&& m.data@.len() == a.data@.len()
                &&& forall|k: int|
                    0 <= k < a.data@.len() ==> m.data@[k] == (#[trigger] a.data@[k]).add_spec(
                        b.data@[k],
                    )
            },
            Err(e) => (a.rows != b.rows || a.columns != b.columns) && e == shape_error(*a, *b),
        },
{
    if a.rows != b.rows && a.columns != b.columns {
        return Err(SizingError::Both(b.rows, b.columns));
    }
    if a.rows != b.rows {
        return Err(SizingError::Row(b.rows));
    }
    if a.columns != b.columns {
        return Err(SizingError::Column(b.columns));
    }
    proof {
        T::properties();
    }
    let n = a.data.len();
    let mut out: Vec<T> = Vec::new();
    for k in 0..n
        invariant
            n == a.data@.len(),
            n == b.data@.len(),
            T::obeys_add_spec(),
            forall|kk: int| 0 <= kk < n ==> (#[trigger] a.data@[kk]).add_req(b.data@[kk]),
            out@.len() == k,
            forall|kk: int|
                0 <= kk < k ==> out@[kk] == (#[trigger] a.data@[kk]).add_spec(b.data@[kk]),
    {
        let v = a.data[k] + b.data[k];
        out.push(v);
    }
    Ok(Matrix { data: out, rows: a.rows, columns: a.columns })
}

/// Subtracts two equally shaped matrices element by element.
fn sub_entrywise<T: Num>(a: &Matrix<T>, b: &Matrix<T>) -> (r: Result<Matrix<T>, SizingError>)
    requires
        a.wf(),
        b.wf(),
        a.rows == b.rows && a.columns == b.columns ==> forall|k: int|
            0 <= k < a.data@.len() ==> (#[trigger] a.data@[k]).sub_req(b.data@[k]),
    ensures
        match r {
            Ok(m) => {
                &&& a.rows == b.rows && a.columns == b.columns
                &&& m.rows == a.rows && m.columns == a.columns
                &&& m.wf()
                &&& m.data@.len() == a.data@.len()
                &&& forall|k: int|
                    0 <= k < a.data@.len() ==> m.data@[k] == (#[trigger] a.data@[k]).sub_spec(
                        b.data@[k],
                    )
            },
            Err(e) => (a.rows != b.rows || a.columns != b.columns) && e == shape_error(*a, *b),
        },
{
    if a.rows != b.rows && a.columns != b.columns {
        return Err(SizingError::Both(b.rows, b.columns));
    }
    if a.rows != b.rows {
        return Err(SizingError::Row(b.rows));
    }
    if a.columns != b.columns {
        return Err(SizingError::Column(b.columns));
    }
    proof {
        T::properties();
    }
    let n = a.data.len();
    let mut out: Vec<T> = Vec::new();
    for k in 0..n
        invariant
            n == a.data@.len(),
            n == b.data@.len(),
            T::obeys_sub_spec(),
            forall|kk: int| 0 <= kk < n ==> (#[trigger] a.data@[kk]).sub_req(b.data@[kk]),
            out@.len() == k,
            forall|kk: int|
                0 <= kk < k ==> out@[kk] == (#[trigger] a.data@[kk]).sub_spec(b.data@[kk]),
    {
        let v = a.data[k] - b.data[k];
        out.push(v);
    }
    Ok(Matrix { data: out, rows: a.rows, columns: a.columns })
}

/// The sum of the first `n` products `a[i, k] * b[k, j]`, folded from zero.
pub open spec fn dot_acc<T: Num>(a: Matrix<T>, b: Matrix<T>, i: int, j: int, n: int) -> T
    decreases n,
{
    if n <= 0 {
        T::zero_spec()
    } else {
        dot_acc(a, b, i, j, n - 1).add_spec(a.ent(i, n - 1).mul_spec(b.ent(n - 1, j)))
    }
}

/// Whether every multiplication and running addition in `dot_acc` satisfies
/// its operator's precondition, so none of them can overflow.
pub open spec fn dot_req<T: Num>(a: Matrix<T>, b: Matrix<T>, i: int, j: int, n: int) -> bool
    decreases n,
{
    if n <= 0 {
        true
    } else {
        &&& dot_req(a, b, i, j, n - 1)
        &&& a.ent(i, n - 1).mul_req(b.ent(n - 1, j))
        &&& dot_acc(a, b, i, j, n - 1).add_req(a.ent(i, n - 1).mul_spec(b.ent(n - 1, j)))
    }
}

/// The element at `i, j` of the product of `a` and `b`: the dot product of
/// `a`'s row `i` with `b`'s column `j`.
pub open spec fn product_ent<T: Num>(a: Matrix<T>, b: Matrix<T>, i: int, j: int) -> T {
    dot_acc(a, b, i, j, a.columns as int)
}

/// A dot product whose every step is overflow-free stays so when cut short.
proof fn lemma_dot_req_prefix<T: Num>(a: Matrix<T>, b: Matrix<T>, i: int, j: int, k: int, n: int)
    requires
        dot_req(a, b, i, j, n),
        k <= n,
    ensures
        dot_req(a, b, i, j, k),
    decreases n,
{
    if k < n && n > 0 {
        lemma_dot_req_prefix(a, b, i, j, k, n - 1);
    }
}

/// Multiplies two matrices whose inner dimensions agree.
fn mul_matrices<T: Num>(a: &Matrix<T>, b: &Matrix<T>) -> (r: Result<Matrix<T>, usize>)
    requires
        a.wf(),
        b.wf(),
        a.columns == b.rows ==> forall|i: int, j: int|
            0 <= i < a.rows && 0 <= j < b.columns ==> dot_req(*a, *b, i, j, a.columns as int),
    ensures
        match r {
            Ok(m) => {
                &&& a.columns == b.rows
                &&& m.rows == a.rows && m.columns == b.columns
                &&& m.wf()
                &&& forall|i: int, j: int|
                    m.in_bounds(i, j) ==> m.ent(i, j) == product_ent(*a, *b, i, j)
            },
            Err(e) => a.columns != b.rows && e == b.rows,
        },
{
    if a.columns != b.rows {
        return Err(b.rows);
    }
    proof {
        T::properties();
    }
    let rows = a.rows;
    let w = b.columns;
    let inner = a.columns;
    let mut out: Vec<T> = Vec::new();
    proof {
        assert(0 * w == 0) by (nonlinear_arith);
    }
    for i in 0..rows
        invariant
            a.wf(),
            b.wf(),
            rows == a.rows,
            w == b.columns,
            inner == a.columns,
            a.columns == b.rows,
            T::obeys_add_spec(),
            T::obeys_mul_spec(),
            forall|ii: int, jj: int|
                0 <= ii < a.rows && 0 <= jj < b.columns ==> dot_req(*a, *b, ii, jj, inner as int),
            out@.len() == i * w,
            forall|p: int, q: int|
                0 <= p < i && 0 <= q < w ==> #[trigger] out@[p * w + q] == product_ent(
                    *a,
                    *b,
                    p,
                    q,
                ),
    {
        for j in 0..w
            invariant
                a.wf(),
                b.wf(),
                rows == a.rows,
                w == b.columns,
                inner == a.columns,
                a.columns == b.rows,
                i < rows,
                T::obeys_add_spec(),
                T::obeys_mul_spec(),
                forall|ii: int, jj: int|
                    0 <= ii < a.rows && 0 <= jj < b.columns ==> dot_req(
                        *a,
                        *b,
                        ii,
                        jj,
                        inner as int,
                    ),
                out@.len() == i * w + j,
                forall|p: int, q: int|
                    0 <= p < i && 0 <= q < w ==> #[trigger] out@[p * w + q] == product_ent(
                        *a,
                        *b,
                        p,
                        q,
                    ),
                forall|q: int|
                    0 <= q < j ==> #[trigger] out@[i * w + q] == product_ent(*a, *b, i as int, q),
        {
            let mut acc = T::zero();
            for k in 0..inner
                invariant
                    a.wf(),
                    b.wf(),
                    w == b.columns,
                    inner == a.columns,
                    a.columns == b.rows,
                    i < a.rows,
                    j < w,
                    T::obeys_add_spec(),
                    T::obeys_mul_spec(),
                    dot_req(*a, *b, i as int, j as int, inner as int),
                    acc == dot_acc(*a, *b, i as int, j as int, k as int),
            {
                proof {
                    lemma_buffer_index(*a, i as int, k as int);
                    lemma_buffer_index(*b, k as int, j as int);
                    lemma_dot_req_prefix(
                        *a,
                        *b,
                        i as int,
                        j as int,
                        k + 1 as int,
                        inner as int,
                    );
                }
                let prod = a.data[i * a.columns + k] * b.data[k * b.columns + j];
                acc = acc + prod;
            }
            out.push(acc);
            proof {
                assert forall|p: int, q: int| 0 <= p < i && 0 <= q < w implies #[trigger] (p * w
                    + q) < i * w by {
                    assert(p * w + w <= i * w) by (nonlinear_arith)
                        requires
                            p < i && w >= 0,
                    ;
                }
            }
        }
        proof {
            assert((i + 1) * w == i * w + w) by (nonlinear_arith);
            assert forall|p: int, q: int| 0 <= p < i + 1 && 0 <= q < w implies #[trigger] out@[p * w
                + q] == product_ent(*a, *b, p, q) by {
                crate::lemma_flat_index_bound(i + 1 as int, w as int, p, q);
            }
        }
    }
    let m = Matrix { data: out, rows, columns: w };
    proof {
        assert forall|i: int, j: int| m.in_bounds(i, j) implies m.ent(i, j) == product_ent(
            *a,
            *b,
            i,
            j,
        ) by {
            crate::lemma_flat_index_bound(rows as int, w as int, i, j);
        }
    }
    Ok(m)
}

impl<T: Num> vstd::std_specs::ops::AddSpecImpl<Matrix<T>> for Matrix<T> {
    open spec fn obeys_add_spec() -> bool {
        false
    }

    open spec fn add_req(self, rhs: Matrix<T>) -> bool {
        self.wf() && rhs.wf() && (self.rows == rhs.rows && self.columns == rhs.columns
            ==> forall|k: int|
            0 <= k < self.data@.len() ==> (#[trigger] self.data@[k]).add_req(rhs.data@[k]))
    }

    open spec fn add_spec(self, rhs: Matrix<T>) -> Result<Matrix<T>, SizingError> {
        arbitrary()
    }
}

impl<T: Num> core::ops::Add<Matrix<T>> for Matrix<T> {
    type Output = Result<Matrix<T>, SizingError>;

    /// Adds two matrices element by element; fails with the mismatched axis
    /// when the shapes differ.
    fn add(self, rhs: Matrix<T>) -> (r: Result<Matrix<T>, SizingError>)
        ensures
            match r {
                Ok(m) => {
                    &&& self.rows == rhs.rows && self.columns == rhs.columns
                    &&& m.rows == self.rows && m.columns == self.columns
                    &&& m.wf()
                    &&& m.data@.len() == self.data@.len()
                    &&& forall|k: int|
                        0 <= k < self.data@.len() ==> m.data@[k] == (#[trigger] self.data@[k]).add_spec(
                            rhs.data@[k],
                        )
                },
                Err(e) => (self.rows != rhs.rows || self.columns != rhs.columns) && e
                    == shape_error(self, rhs),
            },
    {
        add_entrywise(&self, &rhs)
    }
}

impl<'a, T: Num> vstd::std_specs::ops::AddSpecImpl<&'a Matrix<T>> for &'a Matrix<T> {
    open spec fn obeys_add_spec() -> bool {
        false
    }

    open spec fn add_req(self, rhs: &'a Matrix<T>) -> bool {
        self.wf() && rhs.wf() && (self.rows == rhs.rows && self.columns == rhs.columns
            ==> forall|k: int|
            0 <= k < self.data@.len() ==> (#[trigger] self.data@[k]).add_req(rhs.data@[k]))
    }

    open spec fn add_spec(self, rhs: &'a Matrix<T>) -> Result<Matrix<T>, SizingError> {
        arbitrary()
    }
}

impl<'a, T: Num> core::ops::Add<&'a Matrix<T>> for &'a Matrix<T> {
    type Output = Result<Matrix<T>, SizingError>;

    /// Adds two matrices element by element; fails with the mismatched axis
    /// when the shapes differ.
    fn add(self, rhs: &'a Matrix<T>) -> (r: Result<Matrix<T>, SizingError>)
        ensures
            match r {
                Ok(m) => {
                    &&& self.rows == rhs.rows && self.columns == rhs.columns
                    &&& m.rows == self.rows && m.columns == self.columns
                    &&& m.wf()
                    &&& m.data@.len() == self.data@.len()
                    &&& forall|k: int|
                        0 <= k < self.data@.len() ==> m.data@[k] == (#[trigger] self.data@[k]).add_spec(
                            rhs.data@[k],
                        )
                },
                Err(e) => (self.rows != rhs.rows || self.columns != rhs.columns) && e
                    == shape_error(*self, *rhs),
            },
    {
        add_entrywise(self, rhs)
    }
}

impl<T: Num> vstd::std_specs::ops::SubSpecImpl<Matrix<T>> for Matrix<T> {
    open spec fn obeys_sub_spec() -> bool {
        false
    }

    open spec fn sub_req(self, rhs: Matrix<T>) -> bool {
        self.wf() && rhs.wf() && (self.rows == rhs.rows && self.columns == rhs.columns
            ==> forall|k: int|
            0 <= k < self.data@.len() ==> (#[trigger] self.data@[k]).sub_req(rhs.data@[k]))
    }

    open spec fn sub_spec(self, rhs: Matrix<T>) -> Result<Matrix<T>, SizingError> {
        arbitrary()
    }
}

impl<T: Num> core::ops::Sub<Matrix<T>> for Matrix<T> {
    type Output = Result<Matrix<T>, SizingError>;

    /// Subtracts two matrices element by element; fails with the mismatched
    /// axis when the shapes differ.
    fn sub(self, rhs: Matrix<T>) -> (r: Result<Matrix<T>, SizingError>)
        ensures
            match r {
                Ok(m) => {
                    &&& self.rows == rhs.rows && self.columns == rhs.columns
                    &&& m.rows == self.rows && m.columns == self.columns
                    &&& m.wf()
                    &&& m.data@.len() == self.data@.len()
                    &&& forall|k: int|
                        0 <= k < self.data@.len() ==> m.data@[k] == (#[trigger] self.data@[k]).sub_spec(
                            rhs.data@[k],
                        )
                },
                Err(e) => (self.rows != rhs.rows || self.columns != rhs.columns) && e
                    == shape_error(self, rhs),
            },
    {
        sub_entrywise(&self, &rhs)
    }
}

impl<'a, T: Num> vstd::std_specs::ops::SubSpecImpl<&'a Matrix<T>> for &'a Matrix<T> {
    open spec fn obeys_sub_spec() -> bool {
        false
    }

    open spec fn sub_req(self, rhs: &'a Matrix<T>) -> bool {
        self.wf() && rhs.wf() && (self.rows == rhs.rows && self.columns == rhs.columns
            ==> forall|k: int|
            0 <= k < self.data@.len() ==> (#[trigger] self.data@[k]).sub_req(rhs.data@[k]))
    }

    open spec fn sub_spec(self, rhs: &'a Matrix<T>) -> Result<Matrix<T>, SizingError> {
        arbitrary()
    }
}

impl<'a, T: Num> core::ops::Sub<&'a Matrix<T>> for &'a Matrix<T> {
    type Output = Result<Matrix<T>, SizingError>;

    /// Subtracts two matrices element by element; fails with the mismatched
    /// axis when the shapes differ.
    fn sub(self, rhs: &'a Matrix<T>) -> (r: Result<Matrix<T>, SizingError>)
        ensures
            match r {
                Ok(m) => {
                    &&& self.rows == rhs.rows && self.columns == rhs.columns
                    &&& m.rows == self.rows && m.columns == self.columns
                    &&& m.wf()
                    &&& m.data@.len() == self.data@.len()
                    &&& forall|k: int|
                        0 <= k < self.data@.len() ==> m.data@[k] == (#[trigger] self.data@[k]).sub_spec(
                            rhs.data@[k],
                        )
                },
                Err(e) => (self.rows != rhs.rows || self.columns != rhs.columns) && e
                    == shape_error(*self, *rhs),
            },
    {
        sub_entrywise(self, rhs)
    }
}

impl<T: Num> vstd::std_specs::ops::MulSpecImpl<Matrix<T>> for Matrix<T> {
    open spec fn obeys_mul_spec() -> bool {
        false
    }

    open spec fn mul_req(self, rhs: Matrix<T>) -> bool {
        self.wf() && rhs.wf() && (self.columns == rhs.rows ==> forall|i: int, j: int|
            0 <= i < self.rows && 0 <= j < rhs.columns ==> dot_req(
                self,
                rhs,
                i,
                j,
                self.columns as int,
            ))
    }

    open spec fn mul_spec(self, rhs: Matrix<T>) -> Result<Matrix<T>, usize> {
        arbitrary()
    }
}

impl<T: Num> core::ops::Mul<Matrix<T>> for Matrix<T> {
    type Output = Result<Matrix<T>, usize>;

    /// Multiplies two matrices; fails with the right-hand side's row count
    /// when the inner dimensions disagree.
    fn mul(self, rhs: Matrix<T>) -> (r: Result<Matrix<T>, usize>)
        ensures
            match r {
                Ok(m) => {
                    &&& self.columns == rhs.rows
                    &&& m.rows == self.rows && m.columns == rhs.columns
                    &&& m.wf()
                    &&& forall|i: int, j: int|
                        m.in_bounds(i, j) ==> m.ent(i, j) == product_ent(self, rhs, i, j)
                },
                Err(e) => self.columns != rhs.rows && e == rhs.rows,
            },
    {
        mul_matrices(&self, &rhs)
    }
}

impl<'a, T: Num> vstd::std_specs::ops::MulSpecImpl<&'a Matrix<T>> for &'a Matrix<T> {
    open spec fn obeys_mul_spec() -> bool {
        false
    }

    open spec fn mul_req(self, rhs: &'a Matrix<T>) -> bool {
        self.wf() && rhs.wf() && (self.columns == rhs.rows ==> forall|i: int, j: int|
            0 <= i < self.rows && 0 <= j < rhs.columns ==> dot_req(
                *self,
                *rhs,
                i,
                j,
                self.columns as int,
            ))
    }

    open spec fn mul_spec(self, rhs: &'a Matrix<T>) -> Result<Matrix<T>, usize> {
        arbitrary()
    }
}

impl<'a, T: Num> core::ops::Mul<&'a Matrix<T>> for &'a Matrix<T> {
    type Output = Result<Matrix<T>, usize>;

    /// Multiplies two matrices; fails with the right-hand side's row count
    /// when the inner dimensions disagree.
    fn mul(self, rhs: &'a Matrix<T>) -> (r: Result<Matrix<T>, usize>)
        ensures
            match r {
                Ok(m) => {
                    &&& self.columns == rhs.rows
                    &&& m.rows == self.rows && m.columns == rhs.columns
                    &&& m.wf()
                    &&& forall|i: int, j: int|
                        m.in_bounds(i, j) ==> m.ent(i, j) == product_ent(*self, *rhs, i, j)
                },
                Err(e) => self.columns != rhs.rows && e == rhs.rows,
            },
    {
        mul_matrices(self, rhs)
    }
}

impl<T> vstd::std_specs::core::IndexSpecImpl<(usize, usize)> for Matrix<T> {
    open spec fn index_req(&self, index: &(usize, usize)) -> bool {
        self.wf() && index.0 < self.rows && index.1 < self.columns
    }
}

impl<T> core::ops::Index<(usize, usize)> for Matrix<T> {
    type Output = T;

    /// The element at `(row, col)`; the position must lie inside the matrix.
    fn index(&self, index: (usize, usize)) -> (r: &T)
        ensures
            *r == self.ent(index.0 as int, index.1 as int),
    {
        proof {
            lemma_buffer_index(*self, index.0 as int, index.1 as int);
        }
        &self.data[index.0 * self.columns + index.1]
    }
}

} // verus!
