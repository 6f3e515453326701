//! The general laws of the library, each proved from the contracts of the
//! operations it speaks of: transposing twice restores the matrix, swapping
//! the same rows twice restores it, multiplying by the identity changes
//! nothing, and the identity's determinant is one.
use vstd::prelude::*;

use vstd::std_specs::ops::AddSpec;
use vstd::std_specs::ops::MulSpec;
use vstd::std_specs::ops::SubSpec;

use crate::derivers::det_acc;
use crate::derivers::det_fn;
use crate::derivers::det_of;
use crate::derivers::drop_rc;
use crate::derivers::ent_fn;
use crate::elements::Num;
use crate::elements::One;
use crate::elements::Zero;
use crate::lemma_flat_index_decompose;
use crate::traits::dot_acc;
use crate::traits::dot_req;
use crate::traits::product_ent;
use crate::Matrix;

verus! {

/// Transposing a transpose restores the original matrix: when `b` is the
/// transpose of `a` and `c` the transpose of `b`, as `transpose` describes
/// them, `c` has `a`'s shape and `a`'s buffer.
pub proof fn lemma_transpose_involution<T>(a: Matrix<T>, b: Matrix<T>, c: Matrix<T>)
    requires
        a.wf(),
        b.wf(),
        c.wf(),
        b.rows == a.columns,
        b.columns == a.rows,
        forall|i: int, j: int| a.in_bounds(i, j) ==> b.ent(j, i) == a.ent(i, j),
        c.rows == b.columns,
        c.columns == b.rows,
        forall|i: int, j: int| b.in_bounds(i, j) ==> c.ent(j, i) == b.ent(i, j),
    ensures
        c.rows == a.rows,
        c.columns == a.columns,
        c.data@ == a.data@,
{
    assert forall|k: int| 0 <= k < a.data@.len() implies c.data@[k] == a.data@[k] by {
        lemma_flat_index_decompose(a.rows as int, a.columns as int, k);
        let i = k / (a.columns as int);
        let j = k % (a.columns as int);
        assert(b.ent(j, i) == a.ent(i, j));
        assert(c.ent(i, j) == b.ent(j, i));
        assert(a.ent(i, j) == a.data@[k]);
        assert(c.ent(i, j) == c.data@[k]);
    }
    assert(c.data@ =~= a.data@);
}

/// Swapping two rows and then swapping them again restores the original
/// matrix: when `b` is `a` with rows `r1` and `r2` exchanged, as
/// `swap_rows` describes it, and `c` is `b` with the same rows exchanged,
/// `c` has `a`'s shape and `a`'s buffer.
pub proof fn lemma_swap_rows_involution<T>(
    a: Matrix<T>,
    b: Matrix<T>,
    c: Matrix<T>,
    r1: usize,
    r2: usize,
)
    requires
        a.wf(),
        r1 < a.rows,
        r2 < a.rows,
        b.rows == a.rows,
        b.columns == a.columns,
        b.data@.len() == a.data@.len(),
        forall|i: int, j: int|
            a.in_bounds(i, j) ==> b.ent(i, j) == (if i == r1 {
                a.ent(r2 as int, j)
            } else if i == r2 {
                a.ent(r1 as int, j)
            } else {
                a.ent(i, j)
            }),
        c.rows == b.rows,
        c.columns == b.columns,
        c.data@.len() == b.data@.len(),
        forall|i: int, j: int|
            b.in_bounds(i, j) ==> c.ent(i, j) == (if i == r1 {
                b.ent(r2 as int, j)
            } else if i == r2 {
                b.ent(r1 as int, j)
            } else {
                b.ent(i, j)
            }),
    ensures
        c.rows == a.rows,
        c.columns == a.columns,
        c.data@ == a.data@,
{
    if a.columns > 0 {
        assert forall|k: int| 0 <= k < a.data@.len() implies c.data@[k] == a.data@[k] by {
            lemma_flat_index_decompose(a.rows as int, a.columns as int, k);
            let i = k / (a.columns as int);
            let j = k % (a.columns as int);
            assert(c.ent(i, j) == a.ent(i, j));
            assert(a.ent(i, j) == a.data@[k]);
            assert(c.ent(i, j) == c.data@[k]);
        }
    }
    assert(c.data@ =~= a.data@);
}

/// Swapping two columns and then swapping them again restores the original
/// matrix: when `b` is `a` with columns `c1` and `c2` exchanged, as
/// `swap_columns` describes it, and `c` is `b` with the same columns
/// exchanged, `c` has `a`'s shape and `a`'s buffer.
pub proof fn lemma_swap_columns_involution<T>(
    a: Matrix<T>,
    b: Matrix<T>,
    c: Matrix<T>,
    c1: usize,
    c2: usize,
)
    requires
        a.wf(),
        c1 < a.columns,
        c2 < a.columns,
        b.rows == a.rows,
        b.columns == a.columns,
        b.data@.len() == a.data@.len(),
        forall|i: int, j: int|
            a.in_bounds(i, j) ==> b.ent(i, j) == (if j == c1 {
                a.ent(i, c2 as int)
            } else if j == c2 {
                a.ent(i, c1 as int)
            } else {
                a.ent(i, j)
            }),
        c.rows == b.rows,
        c.columns == b.columns,
        c.data@.len() == b.data@.len(),
        forall|i: int, j: int|
            b.in_bounds(i, j) ==> c.ent(i, j) == (if j == c1 {
                b.ent(i, c2 as int)
            } else if j == c2 {
                b.ent(i, c1 as int)
            } else {
                b.ent(i, j)
            }),
    ensures
        c.rows == a.rows,
        c.columns == a.columns,
        c.data@ == a.data@,
{
    if a.columns > 0 {
        assert forall|k: int| 0 <= k < a.data@.len() implies c.data@[k] == a.data@[k] by {
            lemma_flat_index_decompose(a.rows as int, a.columns as int, k);
            let i = k / (a.columns as int);
            let j = k % (a.columns as int);
            assert(c.ent(i, j) == a.ent(i, j));
            assert(a.ent(i, j) == a.data@[k]);
            assert(c.ent(i, j) == c.data@[k]);
        }
    }
    assert(c.data@ =~= a.data@);
}

/// The first `k` terms of the dot product of row `i` of `m` with column `j`
/// of a right identity: the sum is `m[i, j]` once `k` passes `j`, zero
/// before, and no step can overflow.
proof fn lemma_dot_identity_right<T: Num>(m: Matrix<T>, e: Matrix<T>, i: int, j: int, k: int)
    requires
        m.wf(),
        e.rows == m.columns,
        e.columns == m.columns,
        0 <= i < m.rows,
        0 <= j < e.columns,
        0 <= k <= m.columns,
        forall|a: int, b: int|
            e.in_bounds(a, b) ==> e.ent(a, b) == (if a == b {
                T::one_spec()
            } else {
                T::zero_spec()
            }),
    ensures
        dot_acc(m, e, i, j, k) == (if j < k {
            m.ent(i, j)
        } else {
            T::zero_spec()
        }),
        dot_req(m, e, i, j, k),
    decreases k,
{
    T::properties();
    if k > 0 {
        lemma_dot_identity_right(m, e, i, j, k - 1);
    }
}

/// The first `k` terms of the dot product of row `i` of a left identity
/// with column `j` of `m`: the sum is `m[i, j]` once `k` passes `i`, zero
/// before, and no step can overflow.
proof fn lemma_dot_identity_left<T: Num>(e: Matrix<T>, m: Matrix<T>, i: int, j: int, k: int)
    requires
        m.wf(),
        e.rows == m.rows,
        e.columns == m.rows,
        0 <= i < e.rows,
        0 <= j < m.columns,
        0 <= k <= e.columns,
        forall|a: int, b: int|
            e.in_bounds(a, b) ==> e.ent(a, b) == (if a == b {
                T::one_spec()
            } else {
                T::zero_spec()
            }),
    ensures
        dot_acc(e, m, i, j, k) == (if i < k {
            m.ent(i, j)
        } else {
            T::zero_spec()
        }),
        dot_req(e, m, i, j, k),
    decreases k,
{
    T::properties();
    if k > 0 {
        lemma_dot_identity_left(e, m, i, j, k - 1);
    }
}

/// Multiplying by the identity on the right changes nothing: when `e` is
/// the identity with `m`'s column count, every element of the product
/// `m * e` equals the matching element of `m`, and the multiplication's
/// overflow preconditions all hold.
pub proof fn lemma_mul_identity_right<T: Num>(m: Matrix<T>, e: Matrix<T>)
    requires
        m.wf(),
        e.wf(),
        e.rows == m.columns,
        e.columns == m.columns,
        forall|a: int, b: int|
            e.in_bounds(a, b) ==> e.ent(a, b) == (if a == b {
                T::one_spec()
            } else {
                T::zero_spec()
            }),
    ensures
        forall|i: int, j: int| m.in_bounds(i, j) ==> product_ent(m, e, i, j) == m.ent(i, j),
        forall|i: int, j: int|
            0 <= i < m.rows && 0 <= j < e.columns ==> dot_req(m, e, i, j, m.columns as int),
{
    assert forall|i: int, j: int| m.in_bounds(i, j) implies product_ent(m, e, i, j) == m.ent(
        i,
        j,
    ) by {
        lemma_dot_identity_right(m, e, i, j, m.columns as int);
    }
    assert forall|i: int, j: int| 0 <= i < m.rows && 0 <= j < e.columns implies dot_req(
        m,
        e,
        i,
        j,
        m.columns as int,
    ) by {
        lemma_dot_identity_right(m, e, i, j, m.columns as int);
    }
}

/// Multiplying by the identity on the left changes nothing: when `e` is the
/// identity with `m`'s row count, every element of the product `e * m`
/// equals the matching element of `m`, and the multiplication's overflow
/// preconditions all hold.
pub proof fn lemma_mul_identity_left<T: Num>(e: Matrix<T>, m: Matrix<T>)
    requires
        m.wf(),
        e.wf(),
        e.rows == m.rows,
        e.columns == m.rows,
        forall|a: int, b: int|
            e.in_bounds(a, b) ==> e.ent(a, b) == (if a == b {
                T::one_spec()
            } else {
                T::zero_spec()
            }),
    ensures
        forall|i: int, j: int| m.in_bounds(i, j) ==> product_ent(e, m, i, j) == m.ent(i, j),
        forall|i: int, j: int|
            0 <= i < e.rows && 0 <= j < m.columns ==> dot_req(e, m, i, j, e.columns as int),
{
    assert forall|i: int, j: int| m.in_bounds(i, j) implies product_ent(e, m, i, j) == m.ent(
        i,
        j,
    ) by {
        lemma_dot_identity_left(e, m, i, j, e.columns as int);
    }
    assert forall|i: int, j: int| 0 <= i < e.rows && 0 <= j < m.columns implies dot_req(
        e,
        m,
        i,
        j,
        e.columns as int,
    ) by {
        lemma_dot_identity_left(e, m, i, j, e.columns as int);
    }
}

/// A function that reads as the identity on its leading `n` by `n` block
/// has determinant one, for every `n`, the empty block included.
proof fn lemma_det_fn_delta<T: Num>(f: spec_fn(int, int) -> T, n: int)
    requires
        forall|i: int, j: int|
            0 <= i < n && 0 <= j < n ==> #[trigger] f(i, j) == (if i == j {
                T::one_spec()
            } else {
                T::zero_spec()
            }),
    ensures
        det_fn(f, n) == T::one_spec(),
    decreases n,
{
    T::properties();
    if n >= 2 {
        assert forall|i: int, j: int| 0 <= i < n - 1 && 0 <= j < n - 1 implies #[trigger] drop_rc(
            f,
            0,
            0,
        )(i, j) == (if i == j {
            T::one_spec()
        } else {
            T::zero_spec()
        }) by {}
        lemma_det_fn_delta(drop_rc(f, 0, 0), n - 1);
        lemma_det_acc_delta(f, n, n);
    }
}

/// The first `c` terms of the expansion of an identity's determinant: one
/// as soon as the first term is in, since every later coefficient is zero.
proof fn lemma_det_acc_delta<T: Num>(f: spec_fn(int, int) -> T, n: int, c: int)
    requires
        n >= 2,
        1 <= c <= n,
        forall|i: int, j: int|
            0 <= i < n && 0 <= j < n ==> #[trigger] f(i, j) == (if i == j {
                T::one_spec()
            } else {
                T::zero_spec()
            }),
        det_fn(drop_rc(f, 0, 0), n - 1) == T::one_spec(),
    ensures
        det_acc(f, n, c) == T::one_spec(),
    decreases c,
{
    T::properties();
    if c == 1 {
        assert(f(0, 0) == T::one_spec());
        assert(det_acc(f, n, 0) == T::zero_spec());
        assert(f(0, 0).mul_spec(det_fn(drop_rc(f, 0, 0), n - 1)) == T::one_spec());
        assert(det_acc(f, n, 1) == T::zero_spec().add_spec(T::one_spec()));
    } else {
        lemma_det_acc_delta(f, n, c - 1);
        assert(f(0, c - 1) == T::zero_spec());
        assert(f(0, c - 1).mul_spec(det_fn(drop_rc(f, 0, c - 1), n - 1)) == T::zero_spec());
        assert(det_acc(f, n, c - 1) == T::one_spec());
    }
}

/// The determinant of the identity matrix is one, whatever its size.
pub proof fn lemma_determinant_identity<T: Num>(e: Matrix<T>)
    requires
        e.wf(),
        e.rows == e.columns,
        forall|a: int, b: int|
            e.in_bounds(a, b) ==> e.ent(a, b) == (if a == b {
                T::one_spec()
            } else {
                T::zero_spec()
            }),
    ensures
        det_of(e) == T::one_spec(),
{
    assert forall|i: int, j: int|
        0 <= i < e.rows && 0 <= j < e.rows implies #[trigger] ent_fn(e)(i, j) == (if i == j {
        T::one_spec()
    } else {
        T::zero_spec()
    }) by {}
    lemma_det_fn_delta(ent_fn(e), e.rows as int);
}

} // verus!
