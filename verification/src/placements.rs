//! Where the entries write, place by place, and what they leave alone.

use vstd::prelude::*;

use crate::batched::{batch_outcome, ran_into, Batch, BatchProblem, GemmProblem};
use crate::dispatch::{written, Operands};
use crate::element::GemmScalar;
use crate::error::GemmError;
use crate::homog::{gemm_element, gemm_runs};
use crate::layout::Layout;
use crate::parallel::{Context, Parallelism};

verus! {

/// What is written of an output: the elements of its view, each at its own place, and nothing at
/// any other place.
pub proof fn law_written_places<O>(
    before: Seq<O>,
    after: Seq<O>,
    lc: Layout,
    m: int,
    n: int,
    ok: spec_fn(int, int, O, O) -> bool,
    i: int,
    j: int,
    x: int,
)
    requires
        written(before, after, lc, m, n, ok),
        0 <= i < m,
        0 <= j < n,
        0 <= x < before.len(),
    ensures
        after.len() == before.len(),
        ({
            let at = lc.off + i * lc.rs + j * lc.cs;
            ok(i, j, before[at], after[at])
        }),
        (forall|r: int, s: int|
            0 <= r < m && 0 <= s < n ==> lc.off + #[trigger] (r * lc.rs) + #[trigger] (s * lc.cs)
                != x) ==> after[x] == before[x],
{
    reveal(Layout::idx);
    assert(ok(i, j, before[lc.idx(i, j)], after[lc.idx(i, j)]));
    if lc.covers(m, n, x) {
        let (r, s) = choose|r: int, s: int|
            0 <= r < m && 0 <= s < n && #[trigger] lc.idx(r, s) == x;
        assert(lc.off + r * lc.rs + s * lc.cs == x);
    }
}

/// The operands of entry `e` of a batch are those of the first one, each moved by `e` of its
/// strides.
pub proof fn law_batch_entries<'a, T>(b: Batch<'a, T>, e: int)
    requires
        b.addressable(),
        0 <= e < b.batch,
    ensures
        ({
            let (o, f) = (b.at(e), b.ops);
            &&& o.m == f.m && o.k == f.k && o.n == f.n
            &&& o.a == f.a && o.b == f.b
            &&& o.la.off == f.la.off + e * b.a_stride
            &&& o.lb.off == f.lb.off + e * b.b_stride
            &&& o.lc.off == f.lc.off + e * b.c_stride
            &&& o.la.rs == f.la.rs && o.la.cs == f.la.cs
            &&& o.lb.rs == f.lb.rs && o.lb.cs == f.lb.cs
            &&& o.lc.rs == f.lc.rs && o.lc.cs == f.lc.cs
        }),
{
    assert(0 <= b.ops.la.off + e * b.a_stride <= usize::MAX);
}

/// What a batch writes: element `(i, j)` of entry `e` at its own place, and nothing at a place
/// that is none of these.
pub proof fn law_batch_places<'a, T, O>(
    b: Batch<'a, T>,
    before: Seq<O>,
    after: Seq<O>,
    ok: spec_fn(int, int, int, O, O) -> bool,
    e: int,
    i: int,
    j: int,
    x: int,
)
    requires
        b.addressable(),
        b.written(before, after, ok),
        0 <= e < b.batch,
        0 <= i < b.ops.m,
        0 <= j < b.ops.n,
        0 <= x < before.len(),
    ensures
        after.len() == before.len(),
        ({
            let lc = b.ops.lc;
            let at = lc.off + e * b.c_stride + i * lc.rs + j * lc.cs;
            ok(e, i, j, before[at], after[at])
        }),
        (forall|q: int, r: int, s: int|
            0 <= q < b.batch && 0 <= r < b.ops.m && 0 <= s < b.ops.n ==> b.ops.lc.off
                + #[trigger] (q * b.c_stride) + #[trigger] (r * b.ops.lc.rs) + #[trigger] (s
                * b.ops.lc.cs) != x) ==> after[x] == before[x],
{
    reveal(Layout::idx);
    law_batch_entries(b, e);
    let at = b.at(e).lc.idx(i, j);
    assert(ok(e, i, j, before[at], after[at]));
    if b.covers(x) {
        let (m, n) = (b.ops.m as int, b.ops.n as int);
        let q = choose|q: int| 0 <= q < b.batch && (#[trigger] b.at(q)).lc.covers(m, n, x);
        let l = b.at(q).lc;
        let (r, s) = choose|r: int, s: int| 0 <= r < m && 0 <= s < n && #[trigger] l.idx(r, s) == x;
        law_batch_entries(b, q);
        assert(b.ops.lc.off + q * b.c_stride + r * b.ops.lc.rs + s * b.ops.lc.cs == x);
    }
}

/// How a batch of products with views of their own ends. When it succeeds, every element of every
/// output holds its product. When it fails at `at`, every product from there on, that one too, is
/// as it was; an error of the checks leaves all of them as they were.
pub proof fn law_separate_products<'a, T: GemmScalar>(
    ctx: Context,
    par: Parallelism,
    p: Seq<BatchProblem<'a, T>>,
    q: Seq<BatchProblem<'a, T>>,
    r: Result<(), (usize, GemmError)>,
    e: int,
    i: int,
    j: int,
)
    requires
        batch_outcome(ctx, par, p, q, r),
        0 <= e < p.len(),
        0 <= i < p[e].c.rows,
        0 <= j < p[e].c.cols,
    ensures
        q.len() == p.len(),
        r is Ok || (r matches Err((at, GemmError::TooLarge)) && e < at) ==> ({
            let (a, b, c) = (p[e].a, p[e].b, p[e].c);
            let at = i * c.rs + j * c.cs;
            let o = Operands {
                m: a.rows,
                k: a.cols,
                n: b.cols,
                a: a.data,
                la: Layout { off: 0, rs: a.rs, cs: a.cs },
                b: b.data,
                lb: Layout { off: 0, rs: b.rs, cs: b.cs },
                lc: Layout { off: 0, rs: c.rs, cs: c.cs },
            };
            q[e].c.data@[at] == gemm_element(ctx, o, p[e].alpha, p[e].beta, i, j, c.data@[at])
        }),
        q[e].alpha == p[e].alpha && q[e].beta == p[e].beta && q[e].a == p[e].a && q[e].b == p[e].b,
        q[e].c.rows == p[e].c.rows && q[e].c.cols == p[e].c.cols,
        q[e].c.rs == p[e].c.rs && q[e].c.cs == p[e].c.cs,
        q[e].c.data@.len() == p[e].c.data@.len(),
        r is Ok ==> p[e].error() is None,
        r matches Err((at, err)) ==> {
            &&& e < at ==> p[e].error() is None
            &&& err != GemmError::TooLarge ==> p[at as int].error() == Some(err)
            &&& err == GemmError::TooLarge ==> p[e].error() is None && !gemm_runs(
                ctx,
                par,
                p[at as int].ops(),
                p[at as int].alpha,
            )
        },
        r matches Err((at, err)) ==> at < p.len() && (at <= e || err != GemmError::TooLarge
            ==> q[e].c.data@ == p[e].c.data@),
{
    reveal(Layout::idx);
    let c = p[e].c;
    assert(q[e] == q[e]);
    if let Err((at, err)) = r {
        assert(p[at as int].error() != Some(GemmError::TooLarge));
        if e < at {
            assert(p.take(at as int)[e] == p[e]);
        }
    }
    if r is Ok || (r matches Err((at, GemmError::TooLarge)) && e < at) {
        if let Err((at, err)) = r {
            if p[at as int].error() is Some {
                assert(p[at as int].error() != Some(GemmError::TooLarge));
            }
        }
        let at = c.layout_spec().idx(i, j);
        assert(at == i * c.rs + j * c.cs);
        assert(q[e].c.data@[at] == gemm_element(
            ctx,
            p[e].ops(),
            p[e].alpha,
            p[e].beta,
            i,
            j,
            c.data@[at],
        ));
    }
}

/// A batch of products that write to one slice: each of those that ran has left its product at its
/// places, and a place of none of them is as it was.
pub proof fn law_products_into_one_slice<'a, T: GemmScalar>(
    ctx: Context,
    par: Parallelism,
    p: Seq<GemmProblem<'a, T>>,
    before: Seq<T>,
    after: Seq<T>,
    done: int,
    e: int,
    i: int,
    j: int,
    x: int,
)
    requires
        ran_into(ctx, par, p, before, after, done),
        0 <= e < done <= p.len(),
        0 <= i < p[e].ops.m,
        0 <= j < p[e].ops.n,
        0 <= x < before.len(),
    ensures
        after.len() == before.len(),
        ({
            let o = p[e].ops;
            let at = o.lc.off + i * o.lc.rs + j * o.lc.cs;
            after[at] == gemm_element(ctx, o, p[e].alpha, p[e].beta, i, j, before[at])
        }),
        (forall|q: int, r: int, s: int|
            0 <= q < done && 0 <= r < p[q].ops.m && 0 <= s < p[q].ops.n ==> p[q].ops.lc.off
                + #[trigger] (r * p[q].ops.lc.rs) + #[trigger] (s * p[q].ops.lc.cs) != x)
            ==> after[x] == before[x],
{
    reveal(Layout::idx);
    let o = p[e].ops;
    assert(p[e].done(ctx, before, after));
    let at = o.lc.idx(i, j);
    assert(after[at] == gemm_element(ctx, o, p[e].alpha, p[e].beta, i, j, before[at]));
    if exists|q: int| 0 <= q < done && (#[trigger] p[q]).covers(x) {
        let q = choose|q: int| 0 <= q < done && (#[trigger] p[q]).covers(x);
        let l = p[q].ops.lc;
        let (r, s) = choose|r: int, s: int|
            0 <= r < p[q].ops.m && 0 <= s < p[q].ops.n && #[trigger] l.idx(r, s) == x;
        assert(p[q].ops.lc.off + r * p[q].ops.lc.rs + s * p[q].ops.lc.cs == x);
    }
}

} // verus!
