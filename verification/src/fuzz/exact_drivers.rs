//! The drivers of the homogeneous entries, on wrapping `i32` elements: plain, prepacked on either
//! side, and batched. Every one of them holds its result against the naive reference, and none
//! ever reports a difference.

use vstd::arithmetic::mul::*;
use vstd::prelude::*;
use vstd::slice::slice_subrange;

use crate::api::{extent_spec, law_extent_is_tight, reach, view_fits, MatMut, MatRef};
use crate::arith::{div_up, lemma_div_up, max_int};
use crate::batched::{batch_of, gemm_batched_with, shifted, Batch};
use crate::cache::Shape;
use crate::dispatch::{written, Operands};
use crate::element::GemmScalar;
use crate::error::GemmError;
use crate::exact::{
    law_gemm_is_exact, law_prepacked_gemm_is_exact, lemma_ring_sum_ext, ring_sum, Ring,
};
use crate::fuzz::common::{
    assert_no_gap_writes, build_operand, byte_of, extent_of, gap_written, lemma_plan_view,
    lemma_steps, step_spec, steps, LayoutPlan, Rng, SENTINEL,
};
use crate::fuzz::differential::{problem_fits, Report};
use crate::fuzz::reference::{agrees, dense_i32, dense_sum, i8_gate, pos, ref_gemm_i8};
use crate::fuzz::separate_views::{batched_slice_real, dense_rows, gapped_rows};
use crate::gemm::{gemm_with, operands_of};
use crate::homog::{gemm_element, gemm_runs};
use crate::layout::{lemma_transposed_idx, Layout};
use crate::packed_gemm::{
    gemm_packed_a_with, gemm_packed_b_with, packed_a_request, packed_b_request, packed_runs,
    PackedConsume,
};
use crate::parallel::{Context, Parallelism};
use crate::prepack::{
    prepack_lhs, prepack_rhs, prepack_shape, rhs_geometry, rhs_packs, PackedLhs, PackedRhs,
};
use crate::scalar::{lemma_wrap_i32_product, lemma_wrap_i32_sum, wrap_i32, Scalar};

verus! {

/// `o` has the shape and the strides of a made-up problem.
pub open spec fn shaped<'a>(
    o: Operands<'a, i32>,
    m: usize,
    k: usize,
    n: usize,
    la: LayoutPlan,
    lb: LayoutPlan,
    lc: LayoutPlan,
) -> bool {
    &&& o.m == m
    &&& o.k == k
    &&& o.n == n
    &&& (o.la.rs as int, o.la.cs as int) == la.strides_spec(m as int, k as int)
    &&& (o.lb.rs as int, o.lb.cs as int) == lb.strides_spec(k as int, n as int)
    &&& (o.lc.rs as int, o.lc.cs as int) == lc.strides_spec(m as int, n as int)
}

/// Whether a product can be run depends on its shape and strides alone.
proof fn lemma_runs_shape<'a, 'b>(
    ctx: Context,
    par: Parallelism,
    o: Operands<'a, i32>,
    q: Operands<'b, i32>,
    alpha: i32,
)
    requires
        o.m == q.m,
        o.k == q.k,
        o.n == q.n,
        o.la.rs == q.la.rs,
        o.la.cs == q.la.cs,
        o.lb.rs == q.lb.rs,
        o.lb.cs == q.lb.cs,
        o.lc.rs == q.lc.rs,
        o.lc.cs == q.lc.cs,
    ensures
        gemm_runs(ctx, par, o, alpha) == gemm_runs(ctx, par, q, alpha),
{
    assert(o.oriented().la.rs == q.oriented().la.rs);
    assert(o.oriented().la.cs == q.oriented().la.cs);
}

/// A dense sum, wrapped, is the ring sum of its terms.
proof fn lemma_dense_ring(
    da: Seq<i32>,
    db: Seq<i32>,
    f: spec_fn(int) -> i32,
    i: int,
    j: int,
    k: int,
    n: int,
    hi: int,
)
    requires
        hi <= k,
        forall|p: int|
            0 <= p < k ==> #[trigger] f(p) == wrap_i32(da[pos(i, p, k)] * db[pos(p, j, n)]),
    ensures
        ring_sum(f, 0, hi) == wrap_i32(dense_sum(da, db, i, j, k, n, hi)),
    decreases hi,
{
    if hi > 0 {
        lemma_dense_ring(da, db, f, i, j, k, n, hi - 1);
        let x = da[pos(i, hi - 1, k)] * db[pos(hi - 1, j, n)];
        assert(f(hi - 1) == wrap_i32(x));
        lemma_wrap_i32_sum(dense_sum(da, db, i, j, k, n, hi - 1), x);
    } else {
        crate::scalar::lemma_wrap_i32(0);
    }
}

/// `alpha * s + beta * old` over wrapped numbers.
proof fn lemma_ring_blend(alpha: i32, s: int, beta: i32, old: i32)
    ensures
        alpha.times_spec(wrap_i32(s)).plus_spec(beta.times_spec(old)) == wrap_i32(
            alpha * s + beta * old,
        ),
{
    lemma_wrap_i32_product(alpha as int, s);
    lemma_wrap_i32_sum(alpha * s, beta * old);
}

/// The dense copies of two views, and the reference of their product.
pub open spec fn is_reference(
    av: Seq<i32>,
    la: Layout,
    bv: Seq<i32>,
    lb: Layout,
    cv: Seq<i32>,
    lc: Layout,
    m: int,
    k: int,
    n: int,
    alpha: i32,
    beta: i32,
    cref: Seq<i32>,
) -> bool {
    &&& cref.len() == m * n
    &&& forall|i: int, j: int|
        0 <= i < m && 0 <= j < n ==> cref[#[trigger] pos(i, j, n)] == alpha.times_spec(
            ring_sum(
                |p: int| av[la.idx(i, p)].times_spec(bv[lb.idx(p, j)]),
                0,
                k,
            ),
        ).plus_spec(beta.times_spec(cv[lc.idx(i, j)]))
}

/// Compute the reference of a problem.
pub(crate) fn reference(
    a: &[i32],
    rsa: isize,
    csa: isize,
    b: &[i32],
    rsb: isize,
    csb: isize,
    c: &[i32],
    rsc: isize,
    csc: isize,
    m: usize,
    k: usize,
    n: usize,
    alpha: i32,
    beta: i32,
) -> (r: Vec<i32>)
    requires
        view_fits(m, k, rsa, csa, a@.len() as int),
        view_fits(k, n, rsb, csb, b@.len() as int),
        view_fits(m, n, rsc, csc, c@.len() as int),
        m * k <= usize::MAX,
        k * n <= usize::MAX,
        m * n <= usize::MAX,
    ensures
        is_reference(
            a@,
            (Layout { off: 0, rs: rsa, cs: csa }),
            b@,
            (Layout { off: 0, rs: rsb, cs: csb }),
            c@,
            (Layout { off: 0, rs: rsc, cs: csc }),
            m as int,
            k as int,
            n as int,
            alpha,
            beta,
            r@,
        ),
{
    let da: Vec<i32> = dense_i32(a, m, k, rsa, csa);
    let db: Vec<i32> = dense_i32(b, k, n, rsb, csb);
    let dc: Vec<i32> = dense_i32(c, m, n, rsc, csc);
    let r: Vec<i32> = ref_gemm_i8(
        da.as_slice(),
        db.as_slice(),
        dc.as_slice(),
        m,
        k,
        n,
        alpha,
        beta,
    );
    proof {
        let la = Layout { off: 0, rs: rsa, cs: csa };
        let lb = Layout { off: 0, rs: rsb, cs: csb };
        let lc = Layout { off: 0, rs: rsc, cs: csc };
        assert forall|i: int, j: int| 0 <= i < m && 0 <= j < n implies r@[#[trigger] pos(
            i,
            j,
            n as int,
        )] == alpha.times_spec(
            ring_sum(|p: int| a@[la.idx(i, p)].times_spec(b@[lb.idx(p, j)]), 0, k as int),
        ).plus_spec(beta.times_spec(c@[lc.idx(i, j)])) by {
            let f = |p: int| a@[la.idx(i, p)].times_spec(b@[lb.idx(p, j)]);
            assert forall|p: int| 0 <= p < k implies #[trigger] f(p) == wrap_i32(
                da@[pos(i, p, k as int)] * db@[pos(p, j, n as int)],
            ) by {
                assert(da@[pos(i, p, k as int)] == a@[la.idx(i, p)]);
                assert(db@[pos(p, j, n as int)] == b@[lb.idx(p, j)]);
            }
            let s = dense_sum(da@, db@, i, j, k as int, n as int, k as int);
            lemma_dense_ring(da@, db@, f, i, j, k as int, n as int, k as int);
            assert(dc@[pos(i, j, n as int)] == c@[lc.idx(i, j)]);
            lemma_ring_blend(alpha, s, beta, c@[lc.idx(i, j)]);
        }
    }
    r
}

/// Hold a result against its reference and the sentinels.
pub(crate) fn check(
    cbuf: &[i32],
    rsc: isize,
    csc: isize,
    m: usize,
    n: usize,
    cref: &[i32],
) -> (r: Result<(), Report>)
    requires
        view_fits(m, n, rsc, csc, cbuf@.len() as int),
        cref@.len() == m * n,
    ensures
        (forall|i: int, j: int|
            0 <= i < m && 0 <= j < n ==> agrees(cbuf@, rsc, csc, cref@, n as int, i, j)) && (
        forall|x: int|
            !gap_written(cbuf@, (Layout { off: 0, rs: rsc, cs: csc }), m as int, n as int, x))
            ==> r == Ok::<(), Report>(()),
        r is Ok ==> forall|i: int, j: int|
            0 <= i < m && 0 <= j < n ==> agrees(cbuf@, rsc, csc, cref@, n as int, i, j),
        r is Ok ==> forall|x: int|
            !gap_written(cbuf@, (Layout { off: 0, rs: rsc, cs: csc }), m as int, n as int, x),
{
    if let Err((i, j)) = i8_gate(cbuf, rsc, csc, m, n, cref) {
        return Err(Report::Mismatch(i, j));
    }
    if let Err(at) = assert_no_gap_writes(cbuf, m, n, rsc, csc) {
        return Err(Report::GapWrite(at));
    }
    Ok(())
}

/// What can be run of one problem can be run of every one of its shape.
pub proof fn lemma_runs_alike<'a>(
    ctx: Context,
    par: Parallelism,
    o: Operands<'a, i32>,
    alpha: i32,
    m: usize,
    k: usize,
    n: usize,
    la: LayoutPlan,
    lb: LayoutPlan,
    lc: LayoutPlan,
)
    requires
        shaped(o, m, k, n, la, lb, lc),
    ensures
        forall|q: Operands<'_, i32>|
            shaped(q, m, k, n, la, lb, lc) ==> #[trigger] gemm_runs(ctx, par, q, alpha)
                == gemm_runs(ctx, par, o, alpha),
{
    assert forall|q: Operands<'_, i32>| shaped(q, m, k, n, la, lb, lc) implies #[trigger] gemm_runs(
        ctx,
        par,
        q,
        alpha,
    ) == gemm_runs(ctx, par, o, alpha) by {
        lemma_runs_shape(ctx, par, o, q, alpha);
    }
}

/// An element of a plain product agrees with its reference.
proof fn lemma_element_agrees<'a>(
    ctx: Context,
    o: Operands<'a, i32>,
    alpha: i32,
    beta: i32,
    c0: Seq<i32>,
    c: Seq<i32>,
    cref: Seq<i32>,
    i: int,
    j: int,
)
    requires
        0 <= i < o.m,
        0 <= j < o.n,
        c[o.lc.idx(i, j)] == gemm_element(ctx, o, alpha, beta, i, j, c0[o.lc.idx(i, j)]),
        is_reference(
            o.a@,
            o.la,
            o.b@,
            o.lb,
            c0,
            o.lc,
            o.m as int,
            o.k as int,
            o.n as int,
            alpha,
            beta,
            cref,
        ),
    ensures
        c[o.lc.idx(i, j)] == cref[pos(i, j, o.n as int)],
{
    let old = c0[o.lc.idx(i, j)];
    law_gemm_is_exact(ctx, o, alpha, beta, i, j, old);
    let f = |p: int| o.a@[o.la.idx(i, p)].times_spec(o.b@[o.lb.idx(p, j)]);
    let g = |p: int|
        o.a@[o.la.idx(i, p)].widen_spec().times_spec(o.b@[o.lb.idx(p, j)].widen_spec());
    assert(f =~= g);
    assert(cref[pos(i, j, o.n as int)] == alpha.times_spec(
        ring_sum(f, 0, o.k as int),
    ).plus_spec(beta.times_spec(old)));
}

/// A plain product agrees with its reference.
pub proof fn lemma_gemm_agrees<'a>(
    ctx: Context,
    o: Operands<'a, i32>,
    alpha: i32,
    beta: i32,
    c0: Seq<i32>,
    c: Seq<i32>,
    cref: Seq<i32>,
)
    requires
        o.lc.off == 0,
        written(
            c0,
            c,
            o.lc,
            o.m as int,
            o.n as int,
            |i: int, j: int, x: i32, y: i32| y == gemm_element(ctx, o, alpha, beta, i, j, x),
        ),
        is_reference(
            o.a@,
            o.la,
            o.b@,
            o.lb,
            c0,
            o.lc,
            o.m as int,
            o.k as int,
            o.n as int,
            alpha,
            beta,
            cref,
        ),
    ensures
        forall|i: int, j: int|
            0 <= i < o.m && 0 <= j < o.n ==> agrees(
                c,
                o.lc.rs,
                o.lc.cs,
                cref,
                o.n as int,
                i,
                j,
            ),
{
    let l = o.lc;
    assert(l == Layout { off: 0, rs: l.rs, cs: l.cs });
    assert forall|i: int, j: int| 0 <= i < o.m && 0 <= j < o.n implies agrees(
        c,
        l.rs,
        l.cs,
        cref,
        o.n as int,
        i,
        j,
    ) by {
        lemma_element_agrees(ctx, o, alpha, beta, c0, c, cref, i, j);
    }
}

/// Where nothing outside a view changes, its gaps keep the sentinel.
pub proof fn lemma_gaps_kept(c0: Seq<i32>, c: Seq<i32>, l: Layout, m: int, n: int)
    requires
        c.len() == c0.len(),
        forall|x: int| 0 <= x < c0.len() && !l.covers(m, n, x) ==> #[trigger] c0[x] == SENTINEL,
        forall|x: int| 0 <= x < c.len() && !l.covers(m, n, x) ==> #[trigger] c[x] == c0[x],
    ensures
        forall|x: int| !gap_written(c, l, m, n, x),
{
    assert forall|x: int| !gap_written(c, l, m, n, x) by {
        if gap_written(c, l, m, n, x) {
            assert(c[x] == c0[x]);
        }
    }
}

/// Run the plain product on a made-up problem. It never differs from the reference and never
/// writes outside C's view, so it fails only where the library refuses the problem as too large.
pub fn differential_gemm_real(
    ctx: &Context,
    m: usize,
    k: usize,
    n: usize,
    la: LayoutPlan,
    lb: LayoutPlan,
    lc: LayoutPlan,
    alpha: i32,
    beta: i32,
    par: Parallelism,
    a_seed: u64,
    b_seed: u64,
    c_seed: u64,
) -> (r: Result<(), Report>)
    requires
        ctx.kernels.valid(),
        problem_fits(m as int, k as int, n as int, la, lb, lc),
    ensures
        r == Ok::<(), Report>(()) || r == Err::<(), Report>(Report::Refused(GemmError::TooLarge)),
        forall|o: Operands<'_, i32>|
            shaped(o, m, k, n, la, lb, lc) ==> (r is Ok <==> #[trigger] gemm_runs(
                *ctx,
                par,
                o,
                alpha,
            )),
{
    let mut ra: Rng = Rng::new(a_seed);
    let mut rb: Rng = Rng::new(b_seed);
    let mut rc: Rng = Rng::new(c_seed);
    let (abuf, rsa, csa): (Vec<i32>, isize, isize) = build_operand(m, k, la, 0i32, &mut ra);
    let (bbuf, rsb, csb): (Vec<i32>, isize, isize) = build_operand(k, n, lb, 0i32, &mut rb);
    let (mut cbuf, rsc, csc): (Vec<i32>, isize, isize) = build_operand(
        m,
        n,
        lc,
        SENTINEL,
        &mut rc,
    );
    let ghost c0 = cbuf@;
    let ghost l = Layout { off: 0, rs: rsc, cs: csc };
    proof {
        lemma_plan_view(la, m, k, rsa, csa);
        lemma_plan_view(lb, k, n, rsb, csb);
        lemma_plan_view(lc, m, n, rsc, csc);
    }
    let cref: Vec<i32> = reference(
        abuf.as_slice(),
        rsa,
        csa,
        bbuf.as_slice(),
        rsb,
        csb,
        cbuf.as_slice(),
        rsc,
        csc,
        m,
        k,
        n,
        alpha,
        beta,
    );
    let a: MatRef<'_, i32> = MatRef::new(abuf.as_slice(), m, k, rsa, csa);
    let b: MatRef<'_, i32> = MatRef::new(bbuf.as_slice(), k, n, rsb, csb);
    let ghost o = operands_of(a, b, l);
    proof {
        lemma_runs_alike(*ctx, par, o, alpha, m, k, n, la, lb, lc);
    }
    let done = gemm_with(
        ctx,
        alpha,
        a,
        b,
        beta,
        MatMut::new(cbuf.as_mut_slice(), m, n, rsc, csc),
        par,
    );
    if let Err(e) = done {
        return Err(Report::Refused(e));
    }
    proof {
        lemma_gemm_agrees(*ctx, o, alpha, beta, c0, cbuf@, cref@);
        lemma_gaps_kept(c0, cbuf@, l, m as int, n as int);
    }
    check(cbuf.as_slice(), rsc, csc, m, n, cref.as_slice())
}

/// Whether a problem with a prepacked right operand can be packed and run.
pub open spec fn packed_ok(
    ctx: Context,
    par: Parallelism,
    m: usize,
    k: usize,
    n: usize,
    rs: int,
    cs: int,
    alpha: i32,
) -> bool {
    &&& rhs_packs::<i32>(ctx, k, n)
    &&& packed_runs::<i32>(
        ctx,
        par,
        m,
        (Layout { off: 0, rs: rs as isize, cs: cs as isize }),
        rhs_geometry::<i32>(ctx, k, n),
        alpha,
    )
}

/// A product with a prepacked operand agrees with its reference, in the frame in which it is run.
proof fn lemma_packed_agrees<'a>(
    ctx: Context,
    req: PackedConsume<'a, i32>,
    bv: Seq<i32>,
    lb: Layout,
    i: int,
    j: int,
    old: i32,
)
    requires
        req.packed.geometry().kc > 0,
        req.packed.element() == (|j: int, p: int| bv[lb.idx(p, j)]),
    ensures
        req.element(ctx, i, j, old) == req.alpha.times_spec(
            ring_sum(
                |p: int| req.a@[req.la.idx(i, p)].times_spec(bv[lb.idx(p, j)]),
                0,
                req.packed.geometry().k as int,
            ),
        ).plus_spec(req.beta.times_spec(old)),
{
    law_prepacked_gemm_is_exact(ctx, req, i, j, old);
    let f = |p: int| req.a@[req.la.idx(i, p)].times_spec(bv[lb.idx(p, j)]);
    let g = |p: int|
        req.a@[req.la.idx(i, p)].widen_spec().times_spec(
            (req.packed.element())(j, p).widen_spec(),
        );
    assert(f =~= g);
}

/// A packed operand that is not empty is split into slices of some depth; one that is empty says
/// so too.
proof fn lemma_geometry_depth(ctx: Context, k: usize, n: usize)
    ensures
        rhs_geometry::<i32>(ctx, k, n).kc > 0,
        rhs_geometry::<i32>(ctx, k, n).k == k,
        rhs_geometry::<i32>(ctx, k, n).n == n,
{
    if k > 0 && n > 0 {
        let (mr, nr) = i32::rhs_tile_spec(ctx.kernels);
        let s = prepack_shape(
            ctx,
            mr,
            nr,
            max_int(vstd::layout::size_of::<i32>() as usize as int, 1),
            k,
            n,
        );
        lemma_kc_in_range(ctx, s);
    }
}

/// The model's depth lies in `1..=k`.
proof fn lemma_kc_in_range(ctx: Context, s: Shape)
    requires
        0 < s.k <= usize::MAX,
    ensures
        max_int(ctx.machine.cache.blocking_spec(ctx.tuning, s).1, 1) <= usize::MAX,
{
    let c = ctx.machine.cache;
    if s.m == 0 || s.n == 0 || c.is_tiny(ctx.tuning, s) {
    } else {
        let pieces = max_int(div_up(s.k, c.kc_raw(ctx.tuning, s)), 1);
        lemma_div_up(s.k, pieces);
    }
}

/// Run the product with a prepacked `B` on a made-up problem whose output is laid out by columns.
pub fn differential_packed_b_real(
    ctx: &Context,
    m: usize,
    k: usize,
    n: usize,
    la: LayoutPlan,
    lb: LayoutPlan,
    alpha: i32,
    beta: i32,
    par: Parallelism,
    a_seed: u64,
    b_seed: u64,
    c_seed: u64,
) -> (r: Result<(), Report>)
    requires
        ctx.kernels.valid(),
        problem_fits(
            m as int,
            k as int,
            n as int,
            la,
            lb,
            (LayoutPlan::ColIsh { il: 1, pad: 1 }),
        ),
    ensures
        r == (if packed_ok(
            *ctx,
            par,
            m,
            k,
            n,
            la.strides_spec(m as int, k as int).0,
            la.strides_spec(m as int, k as int).1,
            alpha,
        ) {
            Ok::<(), Report>(())
        } else {
            Err(Report::Refused(GemmError::TooLarge))
        }),
{
    let lc: LayoutPlan = LayoutPlan::ColIsh { il: 1, pad: 1 };
    let mut ra: Rng = Rng::new(a_seed);
    let mut rb: Rng = Rng::new(b_seed);
    let mut rc: Rng = Rng::new(c_seed);
    let (abuf, rsa, csa): (Vec<i32>, isize, isize) = build_operand(m, k, la, 0i32, &mut ra);
    let (bbuf, rsb, csb): (Vec<i32>, isize, isize) = build_operand(k, n, lb, 0i32, &mut rb);
    let (mut cbuf, rsc, csc): (Vec<i32>, isize, isize) = build_operand(
        m,
        n,
        lc,
        SENTINEL,
        &mut rc,
    );
    let ghost c0 = cbuf@;
    let ghost l = Layout { off: 0, rs: rsc, cs: csc };
    proof {
        lemma_plan_view(la, m, k, rsa, csa);
        lemma_plan_view(lb, k, n, rsb, csb);
        lemma_plan_view(lc, m, n, rsc, csc);
        lemma_geometry_depth(*ctx, k, n);
    }
    let cref: Vec<i32> = reference(
        abuf.as_slice(),
        rsa,
        csa,
        bbuf.as_slice(),
        rsb,
        csb,
        cbuf.as_slice(),
        rsc,
        csc,
        m,
        k,
        n,
        alpha,
        beta,
    );
    let a: MatRef<'_, i32> = MatRef::new(abuf.as_slice(), m, k, rsa, csa);
    let b: MatRef<'_, i32> = MatRef::new(bbuf.as_slice(), k, n, rsb, csb);
    let packed: PackedRhs<i32> = match prepack_rhs(ctx, b) {
        Ok(p) => p,
        Err(e) => return Err(Report::Refused(e)),
    };
    let done = gemm_packed_b_with(
        ctx,
        alpha,
        a,
        &packed,
        beta,
        MatMut::new(cbuf.as_mut_slice(), m, n, rsc, csc),
        par,
    );
    if let Err(e) = done {
        return Err(Report::Refused(e));
    }
    proof {
        let req = packed_b_request(alpha, a, &packed, beta, l);
        let lbb = b.layout_spec();
        assert(packed.element() =~= (|j: int, p: int| bbuf@[lbb.idx(p, j)]));
        assert forall|i: int, j: int| 0 <= i < m && 0 <= j < n implies agrees(
            cbuf@,
            rsc,
            csc,
            cref@,
            n as int,
            i,
            j,
        ) by {
            let old = c0[l.idx(i, j)];
            lemma_packed_agrees(*ctx, req, bbuf@, lbb, i, j, old);
            assert(cbuf@[l.idx(i, j)] == req.element(*ctx, i, j, old));
            assert(cref@[pos(i, j, n as int)] == alpha.times_spec(
                ring_sum(
                    |p: int| abuf@[a.layout_spec().idx(i, p)].times_spec(bbuf@[lbb.idx(p, j)]),
                    0,
                    k as int,
                ),
            ).plus_spec(beta.times_spec(old)));
        }
        lemma_gaps_kept(c0, cbuf@, l, m as int, n as int);
    }
    check(cbuf.as_slice(), rsc, csc, m, n, cref.as_slice())
}

/// The terms of the transposed product are those of the product, with their factors exchanged.
proof fn lemma_transposed_terms(
    av: Seq<i32>,
    la: Layout,
    bv: Seq<i32>,
    lb: Layout,
    i: int,
    j: int,
    k: int,
)
    ensures
        ring_sum(
            |p: int| bv[lb.transposed().idx(j, p)].times_spec(av[la.idx(i, p)]),
            0,
            k,
        ) == ring_sum(|p: int| av[la.idx(i, p)].times_spec(bv[lb.idx(p, j)]), 0, k),
{
    let f = |p: int| bv[lb.transposed().idx(j, p)].times_spec(av[la.idx(i, p)]);
    let g = |p: int| av[la.idx(i, p)].times_spec(bv[lb.idx(p, j)]);
    assert forall|p: int| #[trigger] f(p) == g(p) by {
        lemma_transposed_idx(lb, j, p);
        i32::products(av[la.idx(i, p)], bv[lb.idx(p, j)], 0);
    }
    assert(f =~= g);
}

/// Run the product with a prepacked `A` on a made-up problem whose output is laid out by rows.
pub fn differential_packed_a_real(
    ctx: &Context,
    m: usize,
    k: usize,
    n: usize,
    la: LayoutPlan,
    lb: LayoutPlan,
    alpha: i32,
    beta: i32,
    par: Parallelism,
    a_seed: u64,
    b_seed: u64,
    c_seed: u64,
) -> (r: Result<(), Report>)
    requires
        ctx.kernels.valid(),
        problem_fits(
            m as int,
            k as int,
            n as int,
            la,
            lb,
            (LayoutPlan::RowIsh { il: 1, pad: 1 }),
        ),
    ensures
        r == (if packed_ok(
            *ctx,
            par,
            n,
            k,
            m,
            lb.strides_spec(k as int, n as int).1,
            lb.strides_spec(k as int, n as int).0,
            alpha,
        ) {
            Ok::<(), Report>(())
        } else {
            Err(Report::Refused(GemmError::TooLarge))
        }),
{
    let lc: LayoutPlan = LayoutPlan::RowIsh { il: 1, pad: 1 };
    let mut ra: Rng = Rng::new(a_seed);
    let mut rb: Rng = Rng::new(b_seed);
    let mut rc: Rng = Rng::new(c_seed);
    let (abuf, rsa, csa): (Vec<i32>, isize, isize) = build_operand(m, k, la, 0i32, &mut ra);
    let (bbuf, rsb, csb): (Vec<i32>, isize, isize) = build_operand(k, n, lb, 0i32, &mut rb);
    let (mut cbuf, rsc, csc): (Vec<i32>, isize, isize) = build_operand(
        m,
        n,
        lc,
        SENTINEL,
        &mut rc,
    );
    let ghost c0 = cbuf@;
    let ghost l = Layout { off: 0, rs: rsc, cs: csc };
    proof {
        lemma_plan_view(la, m, k, rsa, csa);
        lemma_plan_view(lb, k, n, rsb, csb);
        lemma_plan_view(lc, m, n, rsc, csc);
        lemma_geometry_depth(*ctx, k, m);
    }
    let cref: Vec<i32> = reference(
        abuf.as_slice(),
        rsa,
        csa,
        bbuf.as_slice(),
        rsb,
        csb,
        cbuf.as_slice(),
        rsc,
        csc,
        m,
        k,
        n,
        alpha,
        beta,
    );
    let a: MatRef<'_, i32> = MatRef::new(abuf.as_slice(), m, k, rsa, csa);
    let b: MatRef<'_, i32> = MatRef::new(bbuf.as_slice(), k, n, rsb, csb);
    let packed: PackedLhs<i32> = match prepack_lhs(ctx, a) {
        Ok(p) => p,
        Err(e) => return Err(Report::Refused(e)),
    };
    let done = gemm_packed_a_with(
        ctx,
        alpha,
        &packed,
        b,
        beta,
        MatMut::new(cbuf.as_mut_slice(), m, n, rsc, csc),
        par,
    );
    if let Err(e) = done {
        return Err(Report::Refused(e));
    }
    proof {
        let req = packed_a_request(alpha, &packed.as_rhs(), b, beta, l);
        let (laa, lbb) = (a.layout_spec(), b.layout_spec());
        let lt = laa.transposed();
        assert forall|i: int, p: int| #[trigger] lt.idx(p, i) == laa.idx(i, p) by {
            lemma_transposed_idx(laa, p, i);
        }
        assert(packed.as_rhs().element() =~= (|j: int, p: int| abuf@[lt.idx(p, j)]));
        assert forall|i: int, j: int| 0 <= i < m && 0 <= j < n implies agrees(
            cbuf@,
            rsc,
            csc,
            cref@,
            n as int,
            i,
            j,
        ) by {
            let old = c0[l.idx(i, j)];
            lemma_packed_agrees(*ctx, req, abuf@, lt, j, i, old);
            assert((|p: int| bbuf@[lbb.transposed().idx(j, p)].times_spec(abuf@[lt.idx(p, i)]))
                =~= (|p: int| bbuf@[lbb.transposed().idx(j, p)].times_spec(abuf@[laa.idx(i, p)])));
            lemma_transposed_terms(abuf@, laa, bbuf@, lbb, i, j, k as int);
            assert(cbuf@[l.idx(i, j)] == req.element(*ctx, j, i, old));
            assert(cref@[pos(i, j, n as int)] == alpha.times_spec(
                ring_sum(
                    |p: int| abuf@[laa.idx(i, p)].times_spec(bbuf@[lbb.idx(p, j)]),
                    0,
                    k as int,
                ),
            ).plus_spec(beta.times_spec(old)));
        }
        lemma_gaps_kept(c0, cbuf@, l, m as int, n as int);
    }
    check(cbuf.as_slice(), rsc, csc, m, n, cref.as_slice())
}

/// The distance between the elements of an operand: none where it is shared, and otherwise its
/// extent and a pad.
pub open spec fn batch_step(broadcast: bool, extent: int, pad: int) -> int {
    if broadcast {
        0
    } else {
        extent + pad
    }
}

/// The length that holds a batch.
pub open spec fn batch_len(batch: int, step: int, extent: int) -> int {
    if batch <= 1 {
        extent
    } else {
        (batch - 1) * step + extent
    }
}

/// The extent of a plan's view.
pub open spec fn plan_extent(lp: LayoutPlan, rows: int, cols: int) -> int {
    let (rs, cs) = lp.strides_spec(rows, cols);
    if rows == 0 || cols == 0 {
        0
    } else {
        reach(rows, rs) + reach(cols, cs) + 1
    }
}

/// A batch that can be made up.
pub open spec fn batch_fits(
    batch: int,
    m: int,
    k: int,
    n: int,
    la: LayoutPlan,
    lb: LayoutPlan,
    lc: LayoutPlan,
    a_broadcast: bool,
    b_broadcast: bool,
    a_pad: int,
    b_pad: int,
    c_pad: int,
) -> bool {
    &&& problem_fits(m, k, n, la, lb, lc)
    &&& batch > 0 ==> problem_fits(m, k, n, dense_rows(), dense_rows(), gapped_rows())
    &&& batch_step(a_broadcast, plan_extent(la, m, k), a_pad) <= isize::MAX
    &&& batch_step(b_broadcast, plan_extent(lb, k, n), b_pad) <= isize::MAX
    &&& batch_step(false, plan_extent(lc, m, n), c_pad) <= isize::MAX
    &&& batch_len(
        batch,
        batch_step(a_broadcast, plan_extent(la, m, k), a_pad),
        plan_extent(la, m, k),
    ) <= isize::MAX
    &&& batch_len(
        batch,
        batch_step(b_broadcast, plan_extent(lb, k, n), b_pad),
        plan_extent(lb, k, n),
    ) <= isize::MAX
    &&& batch_len(
        batch,
        batch_step(false, plan_extent(lc, m, n), c_pad),
        plan_extent(lc, m, n),
    ) <= isize::MAX
}

/// One operand of a batch: its strides, the distance between its elements, and its length.
fn operand_layout(
    batch: usize,
    rows: usize,
    cols: usize,
    lp: LayoutPlan,
    broadcast: bool,
    pad: usize,
) -> (r: (isize, isize, usize, usize))
    requires
        lp.fits(rows as int, cols as int),
        batch_step(broadcast, plan_extent(lp, rows as int, cols as int), pad as int) <= isize::MAX,
        batch_len(
            batch as int,
            batch_step(broadcast, plan_extent(lp, rows as int, cols as int), pad as int),
            plan_extent(lp, rows as int, cols as int),
        ) <= isize::MAX,
    ensures
        (r.0 as int, r.1 as int) == lp.strides_spec(rows as int, cols as int),
        0 <= r.0,
        0 <= r.1,
        r.2 == batch_step(broadcast, plan_extent(lp, rows as int, cols as int), pad as int),
        r.3 == batch_len(batch as int, r.2 as int, plan_extent(lp, rows as int, cols as int)),
        extent_spec(rows, cols, r.0, r.1) == Some(plan_extent(lp, rows as int, cols as int)),
        0 <= plan_extent(lp, rows as int, cols as int) <= isize::MAX,
{
    let (rs, cs): (isize, isize) = lp.strides(rows, cols);
    let extent: usize = extent_of(rows, cols, rs, cs);
    proof {
        lemma_plan_view(lp, rows, cols, rs, cs);
    }
    let step: usize = if broadcast {
        0
    } else {
        extent + pad
    };
    let len: usize = if batch <= 1 {
        extent
    } else {
        proof {
            assert((batch - 1) * step >= 0) by (nonlinear_arith)
                requires
                    batch >= 1,
                    step >= 0,
            ;
        }
        (batch - 1) * step + extent
    };
    (rs, cs, step, len)
}

/// The part of a buffer that element `e` of a batch lies in.
proof fn lemma_batch_element(batch: int, step: int, extent: int, e: int)
    requires
        0 <= e < batch,
        step >= 0,
        extent >= 0,
    ensures
        0 <= e * step,
        e * step + extent <= batch_len(batch, step, extent),
{
    lemma_mul_basics(step);
    if batch > 1 {
        assert(0 <= e * step <= (batch - 1) * step) by (nonlinear_arith)
            requires
                0 <= e <= batch - 1,
                step >= 0,
        ;
    }
}

/// Among the places before `(i, j)` in row order, `(x, y)` is the last one at its slot.
spec fn last_before(l: Layout, cols: int, x: int, y: int, i: int, j: int) -> bool {
    forall|u: int, w: int|
        0 <= u && 0 <= w < cols && (u < i || u == i && w < j) && #[trigger] l.idx(u, w) == l.idx(
            x,
            y,
        ) ==> u < x || u == x && w <= y
}

/// What a generator in state `s` gives after `n` others.
spec fn draw_at(s: u64, n: int) -> i32 {
    byte_of(steps(s, (n + 1) as nat)) as i32
}

/// Fill the view of one element with draws in row order. Where places share a slot, the last of
/// them is what stays.
fn fill_view(buf: &mut Vec<i32>, l: Layout, rows: usize, cols: usize, rng: &mut Rng)
    requires
        l.fits(rows as int, cols as int, old(buf)@.len() as int),
        old(buf)@.len() <= usize::MAX,
    ensures
        final(buf)@.len() == old(buf)@.len(),
        forall|x: int|
            0 <= x < old(buf)@.len() && !l.covers(rows as int, cols as int, x)
                ==> #[trigger] final(buf)@[x] == old(buf)@[x],
        forall|x: int, y: int|
            0 <= x < rows && 0 <= y < cols && last_before(l, cols as int, x, y, rows as int, 0)
                ==> final(buf)@[#[trigger] l.idx(x, y)] == draw_at(
                old(rng).state,
                x * cols + y,
            ),
        final(rng).state == steps(old(rng).state, (rows * cols) as nat),
{
    let ghost b0 = buf@;
    let ghost s0 = rng.state;
    let ghost n = cols as int;
    let mut i: usize = 0;
    proof {
        lemma_mul_basics(n);
    }
    while i < rows
        invariant
            i <= rows,
            n == cols,
            buf@.len() == b0.len(),
            b0.len() <= usize::MAX,
            l.fits(rows as int, cols as int, b0.len() as int),
            forall|x: int|
                0 <= x < b0.len() && !l.covers(rows as int, cols as int, x) ==> #[trigger] buf@[x]
                    == b0[x],
            i * n >= 0,
            rng.state == steps(s0, (i * n) as nat),
            forall|x: int, y: int|
                0 <= x < i && 0 <= y < n && last_before(l, n, x, y, i as int, 0)
                    ==> buf@[#[trigger] l.idx(x, y)] == draw_at(s0, x * n + y),
        decreases rows - i,
    {
        let mut j: usize = 0;
        while j < cols
            invariant
                i < rows,
                j <= cols,
                n == cols,
                buf@.len() == b0.len(),
                b0.len() <= usize::MAX,
                l.fits(rows as int, cols as int, b0.len() as int),
                forall|x: int|
                    0 <= x < b0.len() && !l.covers(rows as int, cols as int, x)
                        ==> #[trigger] buf@[x] == b0[x],
                i * n >= 0,
                rng.state == steps(s0, (i * n + j) as nat),
                forall|x: int, y: int|
                    0 <= x && 0 <= y < n && (x < i || x == i && y < j) && last_before(
                        l,
                        n,
                        x,
                        y,
                        i as int,
                        j as int,
                    ) ==> buf@[#[trigger] l.idx(x, y)] == draw_at(s0, x * n + y),
            decreases cols - j,
        {
            proof {
                assert(0 <= l.idx(i as int, j as int) < b0.len());
                assert(0 <= l.idx(i as int, 0) < b0.len());
                assert(0 <= l.idx(0, j as int) < b0.len());
                assert(l.covers(rows as int, cols as int, l.idx(i as int, j as int)));
                lemma_steps(s0, (i * n + j) as nat, 1);
                assert(steps(rng.state, 1) == steps(step_spec(rng.state), 0));
            }
            let at: usize = l.at(i, j);
            let ghost before = buf@;
            let v: i32 = rng.next_i8() as i32;
            buf.set(at, v);
            proof {
                assert(v == draw_at(s0, i * n + j));
                assert forall|x: int, y: int|
                    0 <= x && 0 <= y < n && (x < i || x == i && y < j + 1) && last_before(
                        l,
                        n,
                        x,
                        y,
                        i as int,
                        j + 1,
                    ) implies buf@[#[trigger] l.idx(x, y)] == draw_at(s0, x * n + y) by {
                    if !(x == i && y == j) {
                        if l.idx(i as int, j as int) == l.idx(x, y) {
                            assert(false);
                        }
                        assert(last_before(l, n, x, y, i as int, j as int));
                        assert(buf@[l.idx(x, y)] == before[l.idx(x, y)]);
                    }
                }
            }
            j = j + 1;
        }
        proof {
            assert((i + 1) * n == i * n + n) by (nonlinear_arith);
            assert forall|x: int, y: int|
                0 <= x < i + 1 && 0 <= y < n && last_before(l, n, x, y, i + 1, 0) implies buf@[
                #[trigger] l.idx(x, y)
            ] == draw_at(s0, x * n + y) by {
                assert(last_before(l, n, x, y, i as int, n));
            }
        }
        i = i + 1;
    }
}

/// Views that are the same place seen from the start of a buffer and from the start of an
/// element.
proof fn lemma_subrange_view(
    buf: Seq<i32>,
    lo: int,
    hi: int,
    rs: isize,
    cs: isize,
    rows: int,
    cols: int,
    i: int,
    j: int,
)
    requires
        0 <= lo <= hi <= buf.len(),
        lo <= usize::MAX,
        (Layout { off: 0, rs, cs }).fits(rows, cols, hi - lo),
        0 <= i < rows,
        0 <= j < cols,
    ensures
        (Layout { off: lo as usize, rs, cs }).idx(i, j) == lo + (Layout { off: 0, rs, cs }).idx(
            i,
            j,
        ),
        buf.subrange(lo, hi)[(Layout { off: 0, rs, cs }).idx(i, j)] == buf[(Layout {
            off: lo as usize,
            rs,
            cs,
        }).idx(i, j)],
{
    reveal(Layout::idx);
    assert(0 <= (Layout { off: 0, rs, cs }).idx(i, j) < hi - lo);
}

/// Compute the reference of a problem whose views start inside their buffers.
fn reference_at(
    a: &[i32],
    a_lo: usize,
    rsa: isize,
    csa: isize,
    b: &[i32],
    b_lo: usize,
    rsb: isize,
    csb: isize,
    c: &[i32],
    c_lo: usize,
    rsc: isize,
    csc: isize,
    m: usize,
    k: usize,
    n: usize,
    alpha: i32,
    beta: i32,
) -> (r: Vec<i32>)
    requires
        a_lo <= a@.len(),
        b_lo <= b@.len(),
        c_lo <= c@.len(),
        view_fits(m, k, rsa, csa, a@.len() - a_lo),
        view_fits(k, n, rsb, csb, b@.len() - b_lo),
        view_fits(m, n, rsc, csc, c@.len() - c_lo),
        m * k <= usize::MAX,
        k * n <= usize::MAX,
        m * n <= usize::MAX,
    ensures
        is_reference(
            a@,
            (Layout { off: a_lo, rs: rsa, cs: csa }),
            b@,
            (Layout { off: b_lo, rs: rsb, cs: csb }),
            c@,
            (Layout { off: c_lo, rs: rsc, cs: csc }),
            m as int,
            k as int,
            n as int,
            alpha,
            beta,
            r@,
        ),
{
    let asub: &[i32] = slice_subrange(a, a_lo, a.len());
    let bsub: &[i32] = slice_subrange(b, b_lo, b.len());
    let csub: &[i32] = slice_subrange(c, c_lo, c.len());
    let r: Vec<i32> = reference(
        asub,
        rsa,
        csa,
        bsub,
        rsb,
        csb,
        csub,
        rsc,
        csc,
        m,
        k,
        n,
        alpha,
        beta,
    );
    proof {
        let (la, lb, lc) = (
            Layout { off: a_lo, rs: rsa, cs: csa },
            Layout { off: b_lo, rs: rsb, cs: csb },
            Layout { off: c_lo, rs: rsc, cs: csc },
        );
        let (za, zb, zc) = (
            Layout { off: 0, rs: rsa, cs: csa },
            Layout { off: 0, rs: rsb, cs: csb },
            Layout { off: 0, rs: rsc, cs: csc },
        );
        law_extent_is_tight(m, k, rsa, csa);
        law_extent_is_tight(k, n, rsb, csb);
        law_extent_is_tight(m, n, rsc, csc);
        assert forall|i: int, j: int| 0 <= i < m && 0 <= j < n implies r@[#[trigger] pos(
            i,
            j,
            n as int,
        )] == alpha.times_spec(
            ring_sum(|p: int| a@[la.idx(i, p)].times_spec(b@[lb.idx(p, j)]), 0, k as int),
        ).plus_spec(beta.times_spec(c@[lc.idx(i, j)])) by {
            let f = |p: int| asub@[za.idx(i, p)].times_spec(bsub@[zb.idx(p, j)]);
            let g = |p: int| a@[la.idx(i, p)].times_spec(b@[lb.idx(p, j)]);
            assert forall|p: int| 0 <= p < k implies #[trigger] f(p) == g(p) by {
                lemma_subrange_view(
                    a@,
                    a_lo as int,
                    a@.len() as int,
                    rsa,
                    csa,
                    m as int,
                    k as int,
                    i,
                    p,
                );
                lemma_subrange_view(
                    b@,
                    b_lo as int,
                    b@.len() as int,
                    rsb,
                    csb,
                    k as int,
                    n as int,
                    p,
                    j,
                );
            }
            lemma_ring_sum_ext(f, g, 0, k as int);
            lemma_subrange_view(
                c@,
                c_lo as int,
                c@.len() as int,
                rsc,
                csc,
                m as int,
                n as int,
                i,
                j,
            );
            assert(r@[pos(i, j, n as int)] == alpha.times_spec(
                ring_sum(f, 0, k as int),
            ).plus_spec(beta.times_spec(csub@[zc.idx(i, j)])));
        }
    }
    r
}

/// Some element of a batch covers offset `x`.
pub open spec fn batch_covers(
    l: Layout,
    step: int,
    batch: int,
    rows: int,
    cols: int,
    x: int,
) -> bool {
    exists|e: int| 0 <= e < batch && (#[trigger] shifted(l, e, step)).covers(rows, cols, x)
}

/// A slot outside every element of a batch that does not hold the sentinel.
pub open spec fn batch_gap_written(
    buf: Seq<i32>,
    l: Layout,
    step: int,
    batch: int,
    rows: int,
    cols: int,
    x: int,
) -> bool {
    0 <= x < buf.len() && !batch_covers(l, step, batch, rows, cols, x) && buf[x] != SENTINEL
}

/// Mark the places of one view.
fn mark_view(marks: &mut Vec<bool>, l: Layout, rows: usize, cols: usize)
    requires
        l.fits(rows as int, cols as int, old(marks)@.len() as int),
        old(marks)@.len() <= usize::MAX,
    ensures
        final(marks)@.len() == old(marks)@.len(),
        forall|x: int|
            0 <= x < old(marks)@.len() ==> #[trigger] final(marks)@[x] == (old(marks)@[x]
                || l.covers(rows as int, cols as int, x)),
{
    let ghost m0 = marks@;
    let mut i: usize = 0;
    while i < rows
        invariant
            i <= rows,
            marks@.len() == m0.len(),
            m0.len() <= usize::MAX,
            l.fits(rows as int, cols as int, m0.len() as int),
            forall|x: int|
                0 <= x < m0.len() ==> #[trigger] marks@[x] == (m0[x] || l.covers(
                    i as int,
                    cols as int,
                    x,
                )),
        decreases rows - i,
    {
        let mut j: usize = 0;
        let ghost base = marks@;
        while j < cols
            invariant
                i < rows,
                j <= cols,
                marks@.len() == m0.len(),
                base.len() == m0.len(),
                m0.len() <= usize::MAX,
                l.fits(rows as int, cols as int, m0.len() as int),
                forall|x: int|
                    0 <= x < m0.len() ==> #[trigger] base[x] == (m0[x] || l.covers(
                        i as int,
                        cols as int,
                        x,
                    )),
                forall|x: int|
                    0 <= x < m0.len() && #[trigger] base[x] ==> marks@[x],
                forall|y: int| 0 <= y < j ==> marks@[#[trigger] l.idx(i as int, y)],
                forall|x: int|
                    0 <= x < m0.len() && #[trigger] marks@[x] && !base[x] ==> l.covers(
                        i + 1,
                        cols as int,
                        x,
                    ),
            decreases cols - j,
        {
            proof {
                assert(0 <= l.idx(i as int, j as int) < m0.len());
                assert(0 <= l.idx(i as int, 0) < m0.len());
                assert(0 <= l.idx(0, j as int) < m0.len());
                assert(l.covers(i + 1, cols as int, l.idx(i as int, j as int)));
                assert forall|y: int| 0 <= y < cols implies 0 <= #[trigger] l.idx(i as int, y)
                    < m0.len() by {}
            }
            let at: usize = l.at(i, j);
            marks.set(at, true);
            j = j + 1;
        }
        proof {
            assert forall|x: int| 0 <= x < m0.len() implies #[trigger] marks@[x] == (m0[x]
                || l.covers(i + 1, cols as int, x)) by {
                if l.covers(i as int, cols as int, x) {
                    let (a, b) = choose|a: int, b: int|
                        0 <= a < i && 0 <= b < cols && #[trigger] l.idx(a, b) == x;
                    assert(0 <= a < i + 1 && l.idx(a, b) == x);
                }
                if l.covers(i + 1, cols as int, x) {
                    let (a, b) = choose|a: int, b: int|
                        0 <= a < i + 1 && 0 <= b < cols && #[trigger] l.idx(a, b) == x;
                    if a < i {
                        assert(l.covers(i as int, cols as int, x));
                        assert(base[x]);
                    } else {
                        assert(marks@[l.idx(i as int, b)]);
                    }
                }
                if base[x] {
                    assert(marks@[x]);
                }
            }
        }
        i = i + 1;
    }
}

/// Check that nothing outside the elements of a batch has been written to, neither the gaps
/// within an element nor those between two. Otherwise the error is the first such slot.
pub fn assert_batched_no_gap_writes(
    buf: &[i32],
    batch: usize,
    m: usize,
    n: usize,
    rsc: isize,
    csc: isize,
    c_bs: usize,
) -> (r: Result<(), usize>)
    requires
        c_bs <= isize::MAX,
        forall|e: int|
            0 <= e < batch ==> 0 <= #[trigger] (e * c_bs) <= usize::MAX && shifted(
                (Layout { off: 0, rs: rsc, cs: csc }),
                e,
                c_bs as int,
            ).fits(m as int, n as int, buf@.len() as int),
    ensures
        match r {
            Ok(_) => forall|x: int|
                !batch_gap_written(
                    buf@,
                    (Layout { off: 0, rs: rsc, cs: csc }),
                    c_bs as int,
                    batch as int,
                    m as int,
                    n as int,
                    x,
                ),
            Err(at) => batch_gap_written(
                buf@,
                (Layout { off: 0, rs: rsc, cs: csc }),
                c_bs as int,
                batch as int,
                m as int,
                n as int,
                at as int,
            ) && forall|x: int|
                x < at ==> !batch_gap_written(
                    buf@,
                    (Layout { off: 0, rs: rsc, cs: csc }),
                    c_bs as int,
                    batch as int,
                    m as int,
                    n as int,
                    x,
                ),
        },
{
    let l: Layout = Layout { off: 0, rs: rsc, cs: csc };
    let len: usize = buf.len();
    let mut marks: Vec<bool> = vec![false; len];
    let mut e: usize = 0;
    while e < batch
        invariant
            e <= batch,
            len == buf@.len(),
            marks@.len() == len,
            l == (Layout { off: 0, rs: rsc, cs: csc }),
            forall|e: int|
                0 <= e < batch ==> 0 <= #[trigger] (e * c_bs) <= usize::MAX && shifted(
                    l,
                    e,
                    c_bs as int,
                ).fits(m as int, n as int, buf@.len() as int),
            forall|x: int|
                0 <= x < len ==> #[trigger] marks@[x] == batch_covers(
                    l,
                    c_bs as int,
                    e as int,
                    m as int,
                    n as int,
                    x,
                ),
        decreases batch - e,
    {
        let ghost before = marks@;
        assert(0 <= e * c_bs <= usize::MAX);
        let le: Layout = Layout { off: e * c_bs, rs: rsc, cs: csc };
        assert(le == shifted(l, e as int, c_bs as int));
        mark_view(&mut marks, le, m, n);
        proof {
            assert forall|x: int| 0 <= x < len implies #[trigger] marks@[x] == batch_covers(
                l,
                c_bs as int,
                e + 1,
                m as int,
                n as int,
                x,
            ) by {
                assert(marks@[x] == (before[x] || le.covers(m as int, n as int, x)));
                if before[x] {
                    let f = choose|f: int|
                        0 <= f < e && (#[trigger] shifted(l, f, c_bs as int)).covers(
                            m as int,
                            n as int,
                            x,
                        );
                    assert(0 <= f < e + 1 && shifted(l, f, c_bs as int).covers(
                        m as int,
                        n as int,
                        x,
                    ));
                }
                if batch_covers(l, c_bs as int, e + 1, m as int, n as int, x) {
                    let f = choose|f: int|
                        0 <= f < e + 1 && (#[trigger] shifted(l, f, c_bs as int)).covers(
                            m as int,
                            n as int,
                            x,
                        );
                    if f < e {
                        assert(batch_covers(l, c_bs as int, e as int, m as int, n as int, x));
                    }
                }
            }
        }
        e = e + 1;
    }
    let mut at: usize = 0;
    while at < len
        invariant
            at <= len,
            len == buf@.len(),
            marks@.len() == len,
            l == (Layout { off: 0, rs: rsc, cs: csc }),
            forall|x: int|
                0 <= x < len ==> #[trigger] marks@[x] == batch_covers(
                    l,
                    c_bs as int,
                    batch as int,
                    m as int,
                    n as int,
                    x,
                ),
            forall|x: int|
                x < at ==> !batch_gap_written(
                    buf@,
                    l,
                    c_bs as int,
                    batch as int,
                    m as int,
                    n as int,
                    x,
                ),
        decreases len - at,
    {
        assert(marks@[at as int] == batch_covers(
            l,
            c_bs as int,
            batch as int,
            m as int,
            n as int,
            at as int,
        ));
        if !marks[at] && buf[at] != SENTINEL {
            return Err(at);
        }
        at = at + 1;
    }
    Ok(())
}

/// The gaps of a batch keep the sentinel.
proof fn lemma_batch_gaps_kept<'a>(bt: Batch<'a, i32>, c0: Seq<i32>, c: Seq<i32>, step: int)
    requires
        bt.c_stride == step,
        c.len() == c0.len(),
        forall|x: int|
            0 <= x < c0.len() && !batch_covers(
                bt.ops.lc,
                step,
                bt.batch as int,
                bt.ops.m as int,
                bt.ops.n as int,
                x,
            ) ==> #[trigger] c0[x] == SENTINEL,
        forall|x: int| 0 <= x < c.len() && !bt.covers(x) ==> #[trigger] c[x] == c0[x],
    ensures
        forall|x: int|
            !batch_gap_written(
                c,
                bt.ops.lc,
                step,
                bt.batch as int,
                bt.ops.m as int,
                bt.ops.n as int,
                x,
            ),
{
    assert forall|x: int|
        !batch_gap_written(
            c,
            bt.ops.lc,
            step,
            bt.batch as int,
            bt.ops.m as int,
            bt.ops.n as int,
            x,
        ) by {
        if batch_gap_written(
            c,
            bt.ops.lc,
            step,
            bt.batch as int,
            bt.ops.m as int,
            bt.ops.n as int,
            x,
        ) {
            if bt.covers(x) {
                let e = choose|e: int|
                    0 <= e < bt.batch && (#[trigger] bt.at(e)).lc.covers(
                        bt.ops.m as int,
                        bt.ops.n as int,
                        x,
                    );
                assert(bt.at(e).lc == shifted(bt.ops.lc, e, step));
            }
            assert(c[x] == c0[x]);
        }
    }
}

/// The elements of an operand of a batch fit its buffer.
proof fn lemma_element_fits(
    rows: usize,
    cols: usize,
    rs: isize,
    cs: isize,
    batch: int,
    step: int,
    len: int,
    e: int,
)
    requires
        extent_spec(rows, cols, rs, cs) is Some,
        0 <= step,
        0 <= e < batch,
        len == batch_len(batch, step, extent_spec(rows, cols, rs, cs)->0),
        len <= usize::MAX,
    ensures
        0 <= e * step <= len,
        view_fits(rows, cols, rs, cs, len - e * step),
        shifted((Layout { off: 0, rs, cs }), e, step).fits(rows as int, cols as int, len),
        shifted((Layout { off: 0, rs, cs }), e, step) == (Layout {
            off: (e * step) as usize,
            rs,
            cs,
        }),
{
    let x = extent_spec(rows, cols, rs, cs)->0;
    law_extent_is_tight(rows, cols, rs, cs);
    assert(x >= 0);
    lemma_batch_element(batch, step, x, e);
    let l = Layout { off: 0, rs, cs };
    let s = shifted(l, e, step);
    assert forall|i: int, j: int| 0 <= i < rows && 0 <= j < cols implies 0 <= #[trigger] s.idx(
        i,
        j,
    ) < len by {
        assert(0 <= l.idx(i, j) < x);
        reveal(Layout::idx);
    }
}

/// Among the places of the first `batch` elements, taken element by element and then in row
/// order, `(x, y)` of element `e` is the last one at its slot.
spec fn last_in_batch(
    l: Layout,
    step: int,
    batch: int,
    rows: int,
    cols: int,
    e: int,
    x: int,
    y: int,
) -> bool {
    forall|f: int, u: int, w: int|
        0 <= f < batch && 0 <= u < rows && 0 <= w < cols && #[trigger] shifted(l, f, step).idx(
            u,
            w,
        ) == shifted(l, e, step).idx(x, y) ==> f < e || f == e && (u < x || u == x && w <= y)
}

/// Fill every element of a batch with draws, element by element and in row order. Where places
/// share a slot, the last of them is what stays. What lies outside the elements stays.
fn fill_batch(
    buf: &mut Vec<i32>,
    batch: usize,
    step: usize,
    rows: usize,
    cols: usize,
    rs: isize,
    cs: isize,
    rng: &mut Rng,
)
    requires
        extent_spec(rows, cols, rs, cs) is Some,
        old(buf)@.len() == batch_len(
            batch as int,
            step as int,
            extent_spec(rows, cols, rs, cs)->0,
        ),
        old(buf)@.len() <= usize::MAX,
    ensures
        final(buf)@.len() == old(buf)@.len(),
        forall|x: int|
            0 <= x < old(buf)@.len() && !batch_covers(
                (Layout { off: 0, rs, cs }),
                step as int,
                batch as int,
                rows as int,
                cols as int,
                x,
            ) ==> #[trigger] final(buf)@[x] == old(buf)@[x],
        forall|e: int, x: int, y: int|
            0 <= e < batch && 0 <= x < rows && 0 <= y < cols && last_in_batch(
                (Layout { off: 0, rs, cs }),
                step as int,
                batch as int,
                rows as int,
                cols as int,
                e,
                x,
                y,
            ) ==> final(buf)@[#[trigger] shifted((Layout { off: 0, rs, cs }), e, step as int).idx(
                x,
                y,
            )] == draw_at(old(rng).state, e * (rows * cols) + (x * cols + y)),
        final(rng).state == steps(old(rng).state, (batch * (rows * cols)) as nat),
{
    let ghost b0 = buf@;
    let ghost s0 = rng.state;
    let ghost size = rows * cols;
    proof {
        lemma_mul_nonnegative(rows as int, cols as int);
        lemma_mul_basics(size);
    }
    let ghost l = Layout { off: 0, rs, cs };
    let mut e: usize = 0;
    while e < batch
        invariant
            e <= batch,
            buf@.len() == b0.len(),
            b0.len() <= usize::MAX,
            l == (Layout { off: 0, rs, cs }),
            extent_spec(rows, cols, rs, cs) is Some,
            b0.len() == batch_len(
                batch as int,
                step as int,
                extent_spec(rows, cols, rs, cs)->0,
            ),
            forall|x: int|
                0 <= x < b0.len() && !batch_covers(
                    l,
                    step as int,
                    batch as int,
                    rows as int,
                    cols as int,
                    x,
                ) ==> #[trigger] buf@[x] == b0[x],
            size == rows * cols,
            0 <= size,
            0 <= e * size,
            rng.state == steps(s0, (e * size) as nat),
            forall|g: int, x: int, y: int|
                0 <= g < e && 0 <= x < rows && 0 <= y < cols && last_in_batch(
                    l,
                    step as int,
                    e as int,
                    rows as int,
                    cols as int,
                    g,
                    x,
                    y,
                ) ==> buf@[#[trigger] shifted(l, g, step as int).idx(x, y)] == draw_at(
                    s0,
                    g * size + (x * cols + y),
                ),
        decreases batch - e,
    {
        proof {
            lemma_element_fits(
                rows,
                cols,
                rs,
                cs,
                batch as int,
                step as int,
                b0.len() as int,
                e as int,
            );
        }
        let le: Layout = Layout { off: e * step, rs, cs };
        let ghost be = buf@;
        let ghost se = rng.state;
        fill_view(buf, le, rows, cols, rng);
        proof {
            assert forall|x: int|
                0 <= x < b0.len() && !batch_covers(
                    l,
                    step as int,
                    batch as int,
                    rows as int,
                    cols as int,
                    x,
                ) implies #[trigger] buf@[x] == b0[x] by {
                assert(le == shifted(l, e as int, step as int));
                assert(!le.covers(rows as int, cols as int, x));
                assert(buf@[x] == be[x]);
            }
            assert((e + 1) * size == e * size + size) by (nonlinear_arith);
            lemma_steps(s0, (e * size) as nat, size as nat);
            assert forall|g: int, x: int, y: int|
                0 <= g < e + 1 && 0 <= x < rows && 0 <= y < cols && last_in_batch(
                    l,
                    step as int,
                    e + 1,
                    rows as int,
                    cols as int,
                    g,
                    x,
                    y,
                ) implies buf@[#[trigger] shifted(l, g, step as int).idx(x, y)] == draw_at(
                s0,
                g * size + (x * cols + y),
            ) by {
                let at = shifted(l, g, step as int).idx(x, y);
                assert(le == shifted(l, e as int, step as int));
                if g < e {
                    lemma_element_fits(
                        rows,
                        cols,
                        rs,
                        cs,
                        batch as int,
                        step as int,
                        b0.len() as int,
                        g,
                    );
                    assert(!le.covers(rows as int, cols as int, at));
                    assert(last_in_batch(
                        l,
                        step as int,
                        e as int,
                        rows as int,
                        cols as int,
                        g,
                        x,
                        y,
                    ));
                    assert(buf@[at] == be[at]);
                } else {
                    assert(last_before(le, cols as int, x, y, rows as int, 0));
                    lemma_mul_nonnegative(x, cols as int);
                    lemma_steps(s0, (e * size) as nat, (x * cols + y + 1) as nat);
                    assert(draw_at(se, x * cols + y) == draw_at(s0, e * size + (x * cols + y)));
                }
            }
        }
        e = e + 1;
    }
}

/// A buffer of `len` equal elements.
fn filled(v: i32, len: usize) -> (r: Vec<i32>)
    ensures
        r@.len() == len,
        forall|x: int| 0 <= x < len ==> #[trigger] r@[x] == v,
{
    let mut out: Vec<i32> = Vec::new();
    while out.len() < len
        invariant
            out@.len() <= len,
            forall|x: int| 0 <= x < out@.len() ==> #[trigger] out@[x] == v,
        decreases len - out@.len(),
    {
        out.push(v);
    }
    out
}

/// Run the batched product on a made-up batch, and then one of the same shape over separate views.
/// No element ever differs from its reference, and nothing outside the elements is written, so it
/// fails only where the library refuses one of the two as too large.
pub fn differential_batched_real(
    ctx: &Context,
    batch: usize,
    m: usize,
    k: usize,
    n: usize,
    la: LayoutPlan,
    lb: LayoutPlan,
    lc: LayoutPlan,
    a_broadcast: bool,
    b_broadcast: bool,
    a_bs_pad: usize,
    b_bs_pad: usize,
    c_bs_pad: usize,
    alpha: i32,
    beta: i32,
    par: Parallelism,
    seed: u64,
) -> (r: Result<(), Report>)
    requires
        ctx.kernels.valid(),
        batch_fits(
            batch as int,
            m as int,
            k as int,
            n as int,
            la,
            lb,
            lc,
            a_broadcast,
            b_broadcast,
            a_bs_pad as int,
            b_bs_pad as int,
            c_bs_pad as int,
        ),
    ensures
        r == Ok::<(), Report>(()) || r == Err::<(), Report>(Report::Refused(GemmError::TooLarge)),
        forall|o: Operands<'_, i32>, q: Operands<'_, i32>|
            #[trigger] shaped(o, m, k, n, la, lb, lc) && #[trigger] shaped(
                q,
                m,
                k,
                n,
                dense_rows(),
                dense_rows(),
                gapped_rows(),
            ) ==> (r is Ok <==> batch == 0 || gemm_runs(*ctx, par, o, alpha) && gemm_runs(
                *ctx,
                par,
                q,
                alpha,
            )),
{
    let (rsa, csa, a_bs, a_len): (isize, isize, usize, usize) = operand_layout(
        batch,
        m,
        k,
        la,
        a_broadcast,
        a_bs_pad,
    );
    let (rsb, csb, b_bs, b_len): (isize, isize, usize, usize) = operand_layout(
        batch,
        k,
        n,
        lb,
        b_broadcast,
        b_bs_pad,
    );
    let (rsc, csc, c_bs, c_len): (isize, isize, usize, usize) = operand_layout(
        batch,
        m,
        n,
        lc,
        false,
        c_bs_pad,
    );
    let ec: usize = extent_of(m, n, rsc, csc);
    let mut ra: Rng = Rng::new(seed ^ 0x0A);
    let mut rb: Rng = Rng::new(seed ^ 0x0B);
    let mut rc: Rng = Rng::new(seed ^ 0x0C);
    let mut abuf: Vec<i32> = filled(0, a_len);
    let mut bbuf: Vec<i32> = filled(0, b_len);
    let mut cbuf: Vec<i32> = filled(SENTINEL, c_len);
    fill_batch(&mut abuf, batch, a_bs, m, k, rsa, csa, &mut ra);
    fill_batch(&mut bbuf, batch, b_bs, k, n, rsb, csb, &mut rb);
    fill_batch(&mut cbuf, batch, c_bs, m, n, rsc, csc, &mut rc);
    let ghost c0 = cbuf@;
    let mut refs: Vec<Vec<i32>> = Vec::new();
    let mut e: usize = 0;
    while e < batch
        invariant
            e <= batch,
            refs@.len() == e,
            c0 == cbuf@,
            problem_fits(m as int, k as int, n as int, la, lb, lc),
            extent_spec(m, k, rsa, csa) is Some,
            extent_spec(k, n, rsb, csb) is Some,
            extent_spec(m, n, rsc, csc) is Some,
            abuf@.len() == batch_len(batch as int, a_bs as int, extent_spec(m, k, rsa, csa)->0),
            bbuf@.len() == batch_len(batch as int, b_bs as int, extent_spec(k, n, rsb, csb)->0),
            cbuf@.len() == batch_len(batch as int, c_bs as int, extent_spec(m, n, rsc, csc)->0),
            abuf@.len() <= isize::MAX,
            bbuf@.len() <= isize::MAX,
            cbuf@.len() <= isize::MAX,
            forall|f: int|
                0 <= f < e ==> is_reference(
                    abuf@,
                    shifted((Layout { off: 0, rs: rsa, cs: csa }), f, a_bs as int),
                    bbuf@,
                    shifted((Layout { off: 0, rs: rsb, cs: csb }), f, b_bs as int),
                    c0,
                    shifted((Layout { off: 0, rs: rsc, cs: csc }), f, c_bs as int),
                    m as int,
                    k as int,
                    n as int,
                    alpha,
                    beta,
                    (#[trigger] refs@[f])@,
                ),
        decreases batch - e,
    {
        proof {
            lemma_element_fits(
                m,
                k,
                rsa,
                csa,
                batch as int,
                a_bs as int,
                abuf@.len() as int,
                e as int,
            );
            lemma_element_fits(
                k,
                n,
                rsb,
                csb,
                batch as int,
                b_bs as int,
                bbuf@.len() as int,
                e as int,
            );
            lemma_element_fits(
                m,
                n,
                rsc,
                csc,
                batch as int,
                c_bs as int,
                cbuf@.len() as int,
                e as int,
            );
        }
        let cref: Vec<i32> = reference_at(
            abuf.as_slice(),
            e * a_bs,
            rsa,
            csa,
            bbuf.as_slice(),
            e * b_bs,
            rsb,
            csb,
            cbuf.as_slice(),
            e * c_bs,
            rsc,
            csc,
            m,
            k,
            n,
            alpha,
            beta,
        );
        refs.push(cref);
        e = e + 1;
    }
    let a: MatRef<'_, i32> = MatRef::new(abuf.as_slice(), m, k, rsa, csa);
    let b: MatRef<'_, i32> = MatRef::new(bbuf.as_slice(), k, n, rsb, csb);
    let ghost l = Layout { off: 0, rs: rsc, cs: csc };
    let ghost bt = batch_of(batch, a, a_bs as isize, b, b_bs as isize, l, c_bs as isize);
    proof {
        lemma_plan_view(lc, m, n, rsc, csc);
        lemma_runs_alike(*ctx, par, bt.at(0), alpha, m, k, n, la, lb, lc);
    }
    let done = gemm_batched_with(
        ctx,
        batch,
        alpha,
        a,
        a_bs as isize,
        b,
        b_bs as isize,
        beta,
        MatMut::new(cbuf.as_mut_slice(), m, n, rsc, csc),
        c_bs as isize,
        par,
    );
    if let Err(err) = done {
        return Err(Report::Refused(err));
    }
    e = 0;
    while e < batch
        invariant
            e <= batch,
            refs@.len() == batch,
            cbuf@.len() == batch_len(batch as int, c_bs as int, extent_spec(m, n, rsc, csc)->0),
            cbuf@.len() <= isize::MAX,
            extent_spec(m, n, rsc, csc) == Some(ec as int),
            a_bs <= isize::MAX,
            b_bs <= isize::MAX,
            c_bs <= isize::MAX,
            a.data@ == abuf@,
            b.data@ == bbuf@,
            a.rows == m,
            a.cols == k,
            a.rs == rsa,
            a.cs == csa,
            b.cols == n,
            b.rs == rsb,
            b.cs == csb,
            l == (Layout { off: 0, rs: rsc, cs: csc }),
            bt == batch_of(batch, a, a_bs as isize, b, b_bs as isize, l, c_bs as isize),
            bt.written(
                c0,
                cbuf@,
                |e: int, i: int, j: int, x: i32, y: i32|
                    y == gemm_element(*ctx, bt.at(e), alpha, beta, i, j, x),
            ),
            forall|f: int|
                0 <= f < batch ==> is_reference(
                    abuf@,
                    shifted((Layout { off: 0, rs: rsa, cs: csa }), f, a_bs as int),
                    bbuf@,
                    shifted((Layout { off: 0, rs: rsb, cs: csb }), f, b_bs as int),
                    c0,
                    shifted(l, f, c_bs as int),
                    m as int,
                    k as int,
                    n as int,
                    alpha,
                    beta,
                    (#[trigger] refs@[f])@,
                ),
        decreases batch - e,
    {
        proof {
            lemma_element_fits(
                m,
                n,
                rsc,
                csc,
                batch as int,
                c_bs as int,
                cbuf@.len() as int,
                e as int,
            );
            lemma_batch_element(batch as int, c_bs as int, ec as int, e as int);
        }
        let lo: usize = e * c_bs;
        let slot: &[i32] = slice_subrange(cbuf.as_slice(), lo, lo + ec);
        let ghost o = bt.at(e as int);
        proof {
            assert(is_reference(
                o.a@,
                o.la,
                o.b@,
                o.lb,
                c0,
                o.lc,
                m as int,
                k as int,
                n as int,
                alpha,
                beta,
                refs@[e as int]@,
            ));
            law_extent_is_tight(m, n, rsc, csc);
            assert forall|i: int, j: int| 0 <= i < m && 0 <= j < n implies agrees(
                slot@,
                rsc,
                csc,
                refs@[e as int]@,
                n as int,
                i,
                j,
            ) by {
                lemma_subrange_view(
                    cbuf@,
                    lo as int,
                    lo + ec,
                    rsc,
                    csc,
                    m as int,
                    n as int,
                    i,
                    j,
                );
                assert(cbuf@[bt.at(e as int).lc.idx(i, j)] == gemm_element(
                    *ctx,
                    o,
                    alpha,
                    beta,
                    i,
                    j,
                    c0[o.lc.idx(i, j)],
                ));
                lemma_element_agrees(
                    *ctx,
                    o,
                    alpha,
                    beta,
                    c0,
                    cbuf@,
                    refs@[e as int]@,
                    i,
                    j,
                );
            }
        }
        if let Err((i, j)) = i8_gate(slot, rsc, csc, m, n, refs[e].as_slice()) {
            return Err(Report::Mismatch(i, j));
        }
        e = e + 1;
    }
    proof {
        lemma_batch_gaps_kept(bt, c0, cbuf@, c_bs as int);
        assert forall|f: int| 0 <= f < batch implies 0 <= #[trigger] (f * c_bs) <= usize::MAX
            && shifted(l, f, c_bs as int).fits(m as int, n as int, cbuf@.len() as int) by {
            lemma_element_fits(
                m,
                n,
                rsc,
                csc,
                batch as int,
                c_bs as int,
                cbuf@.len() as int,
                f,
            );
        }
    }
    if let Err(at) = assert_batched_no_gap_writes(cbuf.as_slice(), batch, m, n, rsc, csc, c_bs) {
        return Err(Report::GapWrite(at));
    }
    if batch >= 1 {
        return batched_slice_real(ctx, batch, m, k, n, alpha, beta, par, seed);
    }
    Ok(())
}

} // verus!
