//! The naive reference of the exact drivers: dense copies, three nested loops, and a gate that
//! admits no difference.

use vstd::arithmetic::mul::*;
use vstd::prelude::*;

use crate::api::{law_extent_is_tight, view_fits};
use crate::integer::int_sum;
use crate::layout::Layout;
use crate::scalar::{lemma_wrap_i32, lemma_wrap_i32_product, lemma_wrap_i32_sum, wrap_i32};

verus! {

/// Where element `(i, j)` of a dense matrix of `cols` columns lies.
pub open spec fn pos(i: int, j: int, cols: int) -> int {
    i * cols + j
}

/// Elements before `(i, j)` in row order lie before it.
proof fn lemma_pos(x: int, y: int, i: int, j: int, cols: int)
    requires
        0 <= y < cols,
        0 <= j <= cols,
        0 <= x,
        x < i || (x == i && y < j),
    ensures
        0 <= pos(x, y, cols) < i * cols + j,
{
    assert(0 <= x * cols + y < i * cols + j) by (nonlinear_arith)
        requires
            0 <= y < cols,
            0 <= j <= cols,
            0 <= x,
            x < i || (x == i && y < j),
    ;
}

/// The dense index of `(i, j)`, which lies in a matrix of `rows * cols` elements.
fn dense_at(i: usize, j: usize, rows: usize, cols: usize) -> (r: usize)
    requires
        i < rows,
        j < cols,
        rows * cols <= usize::MAX,
    ensures
        r == pos(i as int, j as int, cols as int),
        r < rows * cols,
{
    proof {
        lemma_pos(i as int, j as int, rows as int, 0, cols as int);
        assert(i * cols >= 0) by (nonlinear_arith)
            requires
                i >= 0,
                cols >= 0,
        ;
    }
    i * cols + j
}

/// An element as an `i32`.
pub trait Widen: Copy {
    spec fn widened(self) -> i32;

    fn widen_i32(self) -> (r: i32)
        ensures
            r == self.widened(),
    ;
}

impl Widen for i8 {
    open spec fn widened(self) -> i32 {
        self as i32
    }

    fn widen_i32(self) -> i32 {
        self as i32
    }
}

impl Widen for i32 {
    open spec fn widened(self) -> i32 {
        self
    }

    fn widen_i32(self) -> i32 {
        self
    }
}

/// A dense copy of a view, in row order.
fn dense<T: Widen>(buf: &[T], rows: usize, cols: usize, rs: isize, cs: isize) -> (r: Vec<i32>)
    requires
        view_fits(rows, cols, rs, cs, buf@.len() as int),
        rows * cols <= usize::MAX,
    ensures
        r@.len() == rows * cols,
        forall|i: int, j: int|
            0 <= i < rows && 0 <= j < cols ==> r@[#[trigger] pos(i, j, cols as int)] == buf@[(
            Layout { off: 0, rs, cs }).idx(i, j)].widened(),
{
    let l: Layout = Layout { off: 0, rs, cs };
    proof {
        law_extent_is_tight(rows, cols, rs, cs);
        lemma_mul_basics(cols as int);
        assert(buf.len() == buf@.len());
    }
    let mut out: Vec<i32> = Vec::new();
    let mut i: usize = 0;
    while i < rows
        invariant
            i <= rows,
            buf@.len() <= usize::MAX,
            l.fits(rows as int, cols as int, buf@.len() as int),
            out@.len() == i * cols,
            forall|x: int, y: int|
                0 <= x < i && 0 <= y < cols ==> out@[#[trigger] pos(x, y, cols as int)]
                    == buf@[l.idx(x, y)].widened(),
        decreases rows - i,
    {
        let mut j: usize = 0;
        while j < cols
            invariant
                i < rows,
                j <= cols,
                buf@.len() <= usize::MAX,
                l.fits(rows as int, cols as int, buf@.len() as int),
                out@.len() == i * cols + j,
                forall|x: int, y: int|
                    0 <= x <= i && 0 <= y < cols && (x < i || y < j) ==> out@[#[trigger] pos(
                        x,
                        y,
                        cols as int,
                    )] == buf@[l.idx(x, y)].widened(),
            decreases cols - j,
        {
            proof {
                assert(0 <= l.idx(i as int, j as int) < buf@.len());
                assert(0 <= l.idx(i as int, 0) < buf@.len());
                assert(0 <= l.idx(0, j as int) < buf@.len());
            }
            let v: i32 = buf[l.at(i, j)].widen_i32();
            out.push(v);
            proof {
                assert forall|x: int, y: int|
                    0 <= x <= i && 0 <= y < cols && (x < i || y < j + 1) implies out@[
                    #[trigger] pos(x, y, cols as int)
                ] == buf@[l.idx(x, y)].widened() by {
                    lemma_pos(x, y, i as int, j + 1, cols as int);
                    if x < i || y < j {
                        lemma_pos(x, y, i as int, j as int, cols as int);
                    }
                }
            }
            j = j + 1;
        }
        proof {
            assert((i + 1) * cols == i * cols + cols) by (nonlinear_arith);
        }
        i = i + 1;
    }
    out
}

/// A dense copy of an `i8` view, widened.
pub fn dense_i32_from_i8(buf: &[i8], rows: usize, cols: usize, rs: isize, cs: isize) -> (r: Vec<
    i32,
>)
    requires
        view_fits(rows, cols, rs, cs, buf@.len() as int),
        rows * cols <= usize::MAX,
    ensures
        r@.len() == rows * cols,
        forall|i: int, j: int|
            0 <= i < rows && 0 <= j < cols ==> r@[#[trigger] pos(i, j, cols as int)] == buf@[(
            Layout { off: 0, rs, cs }).idx(i, j)],
{
    dense(buf, rows, cols, rs, cs)
}

/// A dense copy of an `i32` view.
pub fn dense_i32(buf: &[i32], rows: usize, cols: usize, rs: isize, cs: isize) -> (r: Vec<i32>)
    requires
        view_fits(rows, cols, rs, cs, buf@.len() as int),
        rows * cols <= usize::MAX,
    ensures
        r@.len() == rows * cols,
        forall|i: int, j: int|
            0 <= i < rows && 0 <= j < cols ==> r@[#[trigger] pos(i, j, cols as int)] == buf@[(
            Layout { off: 0, rs, cs }).idx(i, j)],
{
    dense(buf, rows, cols, rs, cs)
}

/// The exact sum over the first `hi` depths of row `i` and column `j`.
pub open spec fn dense_sum(
    da: Seq<i32>,
    db: Seq<i32>,
    i: int,
    j: int,
    k: int,
    n: int,
    hi: int,
) -> int
    decreases hi,
{
    if hi <= 0 {
        0
    } else {
        dense_sum(da, db, i, j, k, n, hi - 1) + da[pos(i, hi - 1, k)] * db[pos(hi - 1, j, n)]
    }
}

/// The naive product, `alpha*A*B + beta*C` modulo `2^32`. A zero `beta` does not read C.
pub fn ref_gemm_i8(
    da: &[i32],
    db: &[i32],
    dc0: &[i32],
    m: usize,
    k: usize,
    n: usize,
    alpha: i32,
    beta: i32,
) -> (r: Vec<i32>)
    requires
        da@.len() == m * k,
        db@.len() == k * n,
        dc0@.len() == m * n,
        m * k <= usize::MAX,
        k * n <= usize::MAX,
        m * n <= usize::MAX,
    ensures
        r@.len() == m * n,
        forall|i: int, j: int|
            0 <= i < m && 0 <= j < n ==> r@[#[trigger] pos(i, j, n as int)] == wrap_i32(
                alpha * dense_sum(da@, db@, i, j, k as int, n as int, k as int) + beta * dc0@[pos(
                    i,
                    j,
                    n as int,
                )],
            ),
{
    let mut out: Vec<i32> = Vec::new();
    let mut i: usize = 0;
    proof {
        lemma_mul_basics(n as int);
    }
    while i < m
        invariant
            i <= m,
            da@.len() == m * k,
            db@.len() == k * n,
            dc0@.len() == m * n,
            m * k <= usize::MAX,
            k * n <= usize::MAX,
            m * n <= usize::MAX,
            out@.len() == i * n,
            forall|x: int, y: int|
                0 <= x < i && 0 <= y < n ==> out@[#[trigger] pos(x, y, n as int)] == wrap_i32(
                    alpha * dense_sum(da@, db@, x, y, k as int, n as int, k as int)
                        + beta * dc0@[pos(x, y, n as int)],
                ),
        decreases m - i,
    {
        let mut j: usize = 0;
        while j < n
            invariant
                i < m,
                j <= n,
                da@.len() == m * k,
                db@.len() == k * n,
                dc0@.len() == m * n,
                m * k <= usize::MAX,
                k * n <= usize::MAX,
                m * n <= usize::MAX,
                out@.len() == i * n + j,
                forall|x: int, y: int|
                    0 <= x <= i && 0 <= y < n && (x < i || y < j) ==> out@[#[trigger] pos(
                        x,
                        y,
                        n as int,
                    )] == wrap_i32(
                        alpha * dense_sum(da@, db@, x, y, k as int, n as int, k as int)
                            + beta * dc0@[pos(x, y, n as int)],
                    ),
            decreases n - j,
        {
            let mut acc: i32 = 0;
            let mut p: usize = 0;
            proof {
                lemma_wrap_i32(0);
            }
            while p < k
                invariant
                    i < m,
                    j < n,
                    p <= k,
                    da@.len() == m * k,
                    db@.len() == k * n,
                    m * k <= usize::MAX,
                    k * n <= usize::MAX,
                    acc == wrap_i32(
                        dense_sum(da@, db@, i as int, j as int, k as int, n as int, p as int),
                    ),
                decreases k - p,
            {
                let x: i32 = da[dense_at(i, p, m, k)];
                let y: i32 = db[dense_at(p, j, k, n)];
                proof {
                    lemma_wrap_i32_sum(
                        dense_sum(da@, db@, i as int, j as int, k as int, n as int, p as int),
                        x * y,
                    );
                }
                acc = acc.wrapping_add(x.wrapping_mul(y));
                p = p + 1;
            }
            let c0: i32 = dc0[dense_at(i, j, m, n)];
            let base: i32 = if beta == 0 {
                0
            } else {
                beta.wrapping_mul(c0)
            };
            let ghost s = dense_sum(
                da@,
                db@,
                i as int,
                j as int,
                k as int,
                n as int,
                k as int,
            );
            proof {
                if beta == 0 {
                    assert(beta * c0 == 0) by (nonlinear_arith)
                        requires
                            beta == 0,
                    ;
                    lemma_wrap_i32(0);
                }
                assert(base == wrap_i32(beta * c0));
                lemma_wrap_i32_product(alpha as int, s);
                lemma_wrap_i32_sum(beta * c0, alpha * s);
                assert(beta * c0 + alpha * s == alpha * s + beta * c0);
            }
            let v: i32 = base.wrapping_add(alpha.wrapping_mul(acc));
            out.push(v);
            proof {
                assert forall|x: int, y: int|
                    0 <= x <= i && 0 <= y < n && (x < i || y < j + 1) implies out@[#[trigger] pos(
                    x,
                    y,
                    n as int,
                )] == wrap_i32(
                    alpha * dense_sum(da@, db@, x, y, k as int, n as int, k as int)
                        + beta * dc0@[pos(x, y, n as int)],
                ) by {
                    lemma_pos(x, y, i as int, j + 1, n as int);
                    if x < i || y < j {
                        lemma_pos(x, y, i as int, j as int, n as int);
                    }
                }
            }
            j = j + 1;
        }
        proof {
            assert((i + 1) * n == i * n + n) by (nonlinear_arith);
        }
        i = i + 1;
    }
    out
}

/// A dense sum is the sum over the views that it was copied from.
pub proof fn lemma_dense_sum(
    da: Seq<i32>,
    db: Seq<i32>,
    x: spec_fn(int) -> i8,
    y: spec_fn(int) -> i8,
    i: int,
    j: int,
    k: int,
    n: int,
    hi: int,
)
    requires
        hi <= k,
        forall|p: int| 0 <= p < k ==> da[#[trigger] pos(i, p, k)] == x(p),
        forall|p: int| 0 <= p < k ==> db[#[trigger] pos(p, j, n)] == y(p),
    ensures
        dense_sum(da, db, i, j, k, n, hi) == int_sum(x, y, 0, hi),
    decreases hi,
{
    if hi > 0 {
        lemma_dense_sum(da, db, x, y, i, j, k, n, hi - 1);
        assert(da[pos(i, hi - 1, k)] == x(hi - 1));
        assert(db[pos(hi - 1, j, n)] == y(hi - 1));
    }
}

/// Hold a result against the reference, element by element in row order. The error is the first
/// element that differs.
pub fn i8_gate(cbuf: &[i32], rsc: isize, csc: isize, m: usize, n: usize, cref: &[i32]) -> (r:
    Result<(), (usize, usize)>)
    requires
        view_fits(m, n, rsc, csc, cbuf@.len() as int),
        cref@.len() == m * n,
    ensures
        match r {
            Ok(_) => forall|x: int, y: int|
                0 <= x < m && 0 <= y < n ==> agrees(cbuf@, rsc, csc, cref@, n as int, x, y),
            Err((i, j)) => i < m && j < n && !agrees(
                cbuf@,
                rsc,
                csc,
                cref@,
                n as int,
                i as int,
                j as int,
            ) && forall|x: int, y: int|
                0 <= x <= i && 0 <= y < n && (x < i || y < j) ==> agrees(
                    cbuf@,
                    rsc,
                    csc,
                    cref@,
                    n as int,
                    x,
                    y,
                ),
        },
{
    let l: Layout = Layout { off: 0, rs: rsc, cs: csc };
    proof {
        law_extent_is_tight(m, n, rsc, csc);
        assert(cbuf.len() == cbuf@.len());
        assert(cref.len() == cref@.len());
    }
    let mut i: usize = 0;
    while i < m
        invariant
            i <= m,
            l == (Layout { off: 0, rs: rsc, cs: csc }),
            cbuf@.len() <= usize::MAX,
            l.fits(m as int, n as int, cbuf@.len() as int),
            cref@.len() == m * n,
            m * n <= usize::MAX,
            forall|x: int, y: int|
                0 <= x < i && 0 <= y < n ==> agrees(cbuf@, rsc, csc, cref@, n as int, x, y),
        decreases m - i,
    {
        let mut j: usize = 0;
        while j < n
            invariant
                i < m,
                j <= n,
                l == (Layout { off: 0, rs: rsc, cs: csc }),
                cbuf@.len() <= usize::MAX,
                l.fits(m as int, n as int, cbuf@.len() as int),
                cref@.len() == m * n,
                m * n <= usize::MAX,
                forall|x: int, y: int|
                    0 <= x <= i && 0 <= y < n && (x < i || y < j) ==> agrees(
                        cbuf@,
                        rsc,
                        csc,
                        cref@,
                        n as int,
                        x,
                        y,
                    ),
            decreases n - j,
        {
            proof {
                assert(0 <= l.idx(i as int, j as int) < cbuf@.len());
                assert(0 <= l.idx(i as int, 0) < cbuf@.len());
                assert(0 <= l.idx(0, j as int) < cbuf@.len());
            }
            if cbuf[l.at(i, j)] != cref[dense_at(i, j, m, n)] {
                assert(!agrees(cbuf@, rsc, csc, cref@, n as int, i as int, j as int));
                return Err((i, j));
            }
            assert(agrees(cbuf@, rsc, csc, cref@, n as int, i as int, j as int));
            j = j + 1;
        }
        i = i + 1;
    }
    Ok(())
}

/// A result agrees with the reference at `(i, j)`.
pub open spec fn agrees(
    c: Seq<i32>,
    rs: isize,
    cs: isize,
    cref: Seq<i32>,
    n: int,
    i: int,
    j: int,
) -> bool {
    c[(Layout { off: 0, rs, cs }).idx(i, j)] == cref[pos(i, j, n)]
}

} // verus!
