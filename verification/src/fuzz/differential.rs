//! Exact differential drivers: make a problem up, run the library on it, and hold the result
//! against the naive reference.

use vstd::prelude::*;

use crate::api::{MatMut, MatRef};
use crate::dispatch::Operands;
use crate::error::GemmError;
use crate::fuzz::common::{
    assert_no_gap_writes, build_operand, gap_written, lemma_plan_view, LayoutPlan, Rng, SENTINEL,
};
use crate::fuzz::reference::{
    agrees, dense_i32, dense_i32_from_i8, dense_sum, i8_gate, lemma_dense_sum, pos, ref_gemm_i8,
};
use crate::gemm::operands_of;
use crate::gemm_i8::{gemm_i8_with, int_element, int_runs};
use crate::layout::Layout;
use crate::packed_gemm::{
    gemm_i8_packed_b_with, int_packed_element, int_packed_runs, law_int_prepacked_equals_plain,
};
use crate::parallel::{Context, Parallelism};
use crate::prepack::{int_rhs_geometry, int_rhs_packs, prepack_rhs_i8, PackedRhs};
use crate::scalar::wrap_i32;

verus! {

/// How a run can fail.
#[derive(Clone, Copy, Debug, PartialEq, Eq, Structural)]
pub enum Report {
    /// The library refused the problem.
    Refused(GemmError),
    /// The result differs from the reference.
    Mismatch(usize, usize),
    /// A slot outside C's view was written.
    GapWrite(usize),
}

/// A problem that can be made up: the layouts fit, and C's elements do not coincide.
pub open spec fn problem_fits(
    m: int,
    k: int,
    n: int,
    la: LayoutPlan,
    lb: LayoutPlan,
    lc: LayoutPlan,
) -> bool {
    &&& la.fits(m, k)
    &&& lb.fits(k, n)
    &&& lc.fits(m, n)
    &&& la.spreads() || la is BroadcastRow
    &&& lb.spreads() || lb is BroadcastRow
    &&& lc.spreads()
    &&& m * k <= usize::MAX
    &&& k * n <= usize::MAX
    &&& m * n <= usize::MAX
}

/// See [`problem_fits`].
pub fn can_fit(
    m: usize,
    k: usize,
    n: usize,
    la: LayoutPlan,
    lb: LayoutPlan,
    lc: LayoutPlan,
) -> (r: bool)
    ensures
        r == problem_fits(m as int, k as int, n as int, la, lb, lc),
{
    let a_repeats: bool = match la {
        LayoutPlan::BroadcastRow => true,
        _ => false,
    };
    let b_repeats: bool = match lb {
        LayoutPlan::BroadcastRow => true,
        _ => false,
    };
    la.can_fit(m, k) && lb.can_fit(k, n) && lc.can_fit(m, n) && (la.can_spread() || a_repeats) && (
    lb.can_spread() || b_repeats) && lc.can_spread() && m.checked_mul(k).is_some() && k.checked_mul(
        n,
    ).is_some() && m.checked_mul(n).is_some()
}

/// `o` has the shape and the strides of a made-up problem.
pub open spec fn has_shape<'a>(
    o: Operands<'a, i8>,
    m: usize,
    k: usize,
    n: usize,
    la: LayoutPlan,
    lb: LayoutPlan,
    lc: LayoutPlan,
) -> bool {
    &&& o.m == m
    &&& o.k == k
    &&& o.n == n
    &&& (o.la.rs as int, o.la.cs as int) == la.strides_spec(m as int, k as int)
    &&& (o.lb.rs as int, o.lb.cs as int) == lb.strides_spec(k as int, n as int)
    &&& (o.lc.rs as int, o.lc.cs as int) == lc.strides_spec(m as int, n as int)
}

/// Whether an integer product can be run depends on its shape and strides alone.
proof fn lemma_int_runs_shape<'a, 'b>(
    ctx: Context,
    par: Parallelism,
    o: Operands<'a, i8>,
    q: Operands<'b, i8>,
    alpha: i32,
)
    requires
        o.m == q.m,
        o.k == q.k,
        o.n == q.n,
        o.la.rs == q.la.rs,
        o.la.cs == q.la.cs,
        o.lb.rs == q.lb.rs,
        o.lb.cs == q.lb.cs,
        o.lc.rs == q.lc.rs,
        o.lc.cs == q.lc.cs,
    ensures
        int_runs(ctx, par, o, alpha) == int_runs(ctx, par, q, alpha),
{
    assert(o.oriented().la.rs == q.oriented().la.rs);
    assert(o.oriented().la.cs == q.oriented().la.cs);
}

/// The reference computes what the exact product is.
proof fn lemma_reference<'a>(
    o: Operands<'a, i8>,
    da: Seq<i32>,
    db: Seq<i32>,
    dc: Seq<i32>,
    cref: Seq<i32>,
    alpha: i32,
    beta: i32,
    i: int,
    j: int,
)
    requires
        0 <= i < o.m,
        0 <= j < o.n,
        forall|x: int, y: int|
            0 <= x < o.m && 0 <= y < o.k ==> da[#[trigger] pos(x, y, o.k as int)]
                == o.a@[o.la.idx(x, y)],
        forall|x: int, y: int|
            0 <= x < o.k && 0 <= y < o.n ==> db[#[trigger] pos(x, y, o.n as int)]
                == o.b@[o.lb.idx(x, y)],
        cref[pos(i, j, o.n as int)] == wrap_i32(
            alpha * dense_sum(
                da,
                db,
                i,
                j,
                o.k as int,
                o.n as int,
                o.k as int,
            ) + beta * dc[pos(i, j, o.n as int)],
        ),
    ensures
        cref[pos(i, j, o.n as int)] == int_element(
            o,
            alpha,
            beta,
            i,
            j,
            dc[pos(i, j, o.n as int)],
        ),
{
    let fa = |i: int, p: int| o.a@[o.la.idx(i, p)];
    let fb = |j: int, p: int| o.b@[o.lb.idx(p, j)];
    let x = |p: int| fa(i, p);
    let y = |p: int| fb(j, p);
    lemma_dense_sum(da, db, x, y, i, j, o.k as int, o.n as int, o.k as int);
}

/// Run the integer product on a made-up problem. It never differs from the reference and never
/// writes outside C's view, so it fails only where the library refuses the problem as too large.
pub fn differential_gemm_i8(
    ctx: &Context,
    m: usize,
    k: usize,
    n: usize,
    la: LayoutPlan,
    lb: LayoutPlan,
    lc: LayoutPlan,
    alpha: i32,
    beta: i32,
    par: Parallelism,
    a_seed: u64,
    b_seed: u64,
    c_seed: u64,
) -> (r: Result<(), Report>)
    requires
        ctx.kernels.valid(),
        problem_fits(m as int, k as int, n as int, la, lb, lc),
    ensures
        r == Ok::<(), Report>(()) || r == Err::<(), Report>(Report::Refused(GemmError::TooLarge)),
        forall|o: Operands<'_, i8>|
            has_shape(o, m, k, n, la, lb, lc) ==> (r is Ok <==> #[trigger] int_runs(
                *ctx,
                par,
                o,
                alpha,
            )),
{
    let mut ra: Rng = Rng::new(a_seed);
    let mut rb: Rng = Rng::new(b_seed);
    let mut rc: Rng = Rng::new(c_seed);
    let (abuf, rsa, csa): (Vec<i8>, isize, isize) = build_operand(m, k, la, 0i8, &mut ra);
    let (bbuf, rsb, csb): (Vec<i8>, isize, isize) = build_operand(k, n, lb, 0i8, &mut rb);
    let (mut cbuf, rsc, csc): (Vec<i32>, isize, isize) = build_operand(
        m,
        n,
        lc,
        SENTINEL,
        &mut rc,
    );
    let ghost c0 = cbuf@;
    let ghost l = Layout { off: 0, rs: rsc, cs: csc };
    proof {
        lemma_plan_view(la, m, k, rsa, csa);
        lemma_plan_view(lb, k, n, rsb, csb);
        lemma_plan_view(lc, m, n, rsc, csc);
    }
    let da: Vec<i32> = dense_i32_from_i8(abuf.as_slice(), m, k, rsa, csa);
    let db: Vec<i32> = dense_i32_from_i8(bbuf.as_slice(), k, n, rsb, csb);
    let dc0: Vec<i32> = dense_i32(cbuf.as_slice(), m, n, rsc, csc);
    let cref: Vec<i32> = ref_gemm_i8(
        da.as_slice(),
        db.as_slice(),
        dc0.as_slice(),
        m,
        k,
        n,
        alpha,
        beta,
    );
    let a: MatRef<'_, i8> = MatRef::new(abuf.as_slice(), m, k, rsa, csa);
    let b: MatRef<'_, i8> = MatRef::new(bbuf.as_slice(), k, n, rsb, csb);
    let ghost o = operands_of(a, b, l);
    proof {
        assert forall|q: Operands<'_, i8>|
            has_shape(q, m, k, n, la, lb, lc) implies #[trigger] int_runs(*ctx, par, q, alpha)
            == int_runs(*ctx, par, o, alpha) by {
            lemma_int_runs_shape(*ctx, par, o, q, alpha);
        }
    }
    let done = gemm_i8_with(
        ctx,
        alpha,
        a,
        b,
        beta,
        MatMut::new(cbuf.as_mut_slice(), m, n, rsc, csc),
        par,
    );
    if let Err(e) = done {
        return Err(Report::Refused(e));
    }
    proof {
        assert forall|i: int, j: int| 0 <= i < m && 0 <= j < n implies agrees(
            cbuf@,
            rsc,
            csc,
            cref@,
            n as int,
            i,
            j,
        ) by {
            lemma_reference(o, da@, db@, dc0@, cref@, alpha, beta, i, j);
            assert(cbuf@[l.idx(i, j)] == int_element(o, alpha, beta, i, j, c0[l.idx(i, j)]));
        }
    }
    if let Err((i, j)) = i8_gate(cbuf.as_slice(), rsc, csc, m, n, cref.as_slice()) {
        return Err(Report::Mismatch(i, j));
    }
    proof {
        assert forall|x: int| !gap_written(cbuf@, l, m as int, n as int, x) by {
            if gap_written(cbuf@, l, m as int, n as int, x) {
                assert(cbuf@[x] == c0[x]);
                assert(c0[x] == SENTINEL);
            }
        }
    }
    if let Err(at) = assert_no_gap_writes(cbuf.as_slice(), m, n, rsc, csc) {
        return Err(Report::GapWrite(at));
    }
    Ok(())
}

/// Run the integer product with a prepacked `B` on a made-up problem whose output is laid out by
/// columns, next to the plain one. Neither ever differs from the reference, so the two are
/// identical, and the run fails only where the library refuses the problem as too large.
pub fn differential_packed_b_i8(
    ctx: &Context,
    m: usize,
    k: usize,
    n: usize,
    la: LayoutPlan,
    lb: LayoutPlan,
    alpha: i32,
    beta: i32,
    par: Parallelism,
    a_seed: u64,
    b_seed: u64,
    c_seed: u64,
) -> (r: Result<(), Report>)
    requires
        ctx.kernels.valid(),
        problem_fits(
            m as int,
            k as int,
            n as int,
            la,
            lb,
            (LayoutPlan::ColIsh { il: 1, pad: 1 }),
        ),
    ensures
        r == Ok::<(), Report>(()) || r == Err::<(), Report>(Report::Refused(GemmError::TooLarge)),
        forall|o: Operands<'_, i8>|
            has_shape(o, m, k, n, la, lb, (LayoutPlan::ColIsh { il: 1, pad: 1 })) ==> (r is Ok
                <==> #[trigger] int_runs(*ctx, par, o, alpha) && int_rhs_packs(*ctx, k, n)
                && int_packed_runs(
                *ctx,
                par,
                m,
                (Layout { off: 0, rs: o.la.rs, cs: o.la.cs }),
                int_rhs_geometry(*ctx, k, n),
                alpha,
            )),
{
    let lc: LayoutPlan = LayoutPlan::ColIsh { il: 1, pad: 1 };
    if let Err(e) = differential_gemm_i8(
        ctx,
        m,
        k,
        n,
        la,
        lb,
        lc,
        alpha,
        beta,
        par,
        a_seed,
        b_seed,
        c_seed,
    ) {
        return Err(e);
    }
    let mut ra: Rng = Rng::new(a_seed);
    let mut rb: Rng = Rng::new(b_seed);
    let mut rc: Rng = Rng::new(c_seed);
    let (abuf, rsa, csa): (Vec<i8>, isize, isize) = build_operand(m, k, la, 0i8, &mut ra);
    let (bbuf, rsb, csb): (Vec<i8>, isize, isize) = build_operand(k, n, lb, 0i8, &mut rb);
    let (mut cbuf, rsc, csc): (Vec<i32>, isize, isize) = build_operand(
        m,
        n,
        lc,
        SENTINEL,
        &mut rc,
    );
    let ghost c0 = cbuf@;
    let ghost l = Layout { off: 0, rs: rsc, cs: csc };
    proof {
        lemma_plan_view(la, m, k, rsa, csa);
        lemma_plan_view(lb, k, n, rsb, csb);
        lemma_plan_view(lc, m, n, rsc, csc);
    }
    let da: Vec<i32> = dense_i32_from_i8(abuf.as_slice(), m, k, rsa, csa);
    let db: Vec<i32> = dense_i32_from_i8(bbuf.as_slice(), k, n, rsb, csb);
    let dc0: Vec<i32> = dense_i32(cbuf.as_slice(), m, n, rsc, csc);
    let cref: Vec<i32> = ref_gemm_i8(
        da.as_slice(),
        db.as_slice(),
        dc0.as_slice(),
        m,
        k,
        n,
        alpha,
        beta,
    );
    let a: MatRef<'_, i8> = MatRef::new(abuf.as_slice(), m, k, rsa, csa);
    let b: MatRef<'_, i8> = MatRef::new(bbuf.as_slice(), k, n, rsb, csb);
    let ghost o = operands_of(a, b, l);
    let packed: PackedRhs<i8> = match prepack_rhs_i8(ctx, b) {
        Ok(p) => p,
        Err(e) => return Err(Report::Refused(e)),
    };
    let done = gemm_i8_packed_b_with(
        ctx,
        alpha,
        a,
        &packed,
        beta,
        MatMut::new(cbuf.as_mut_slice(), m, n, rsc, csc),
        par,
    );
    if let Err(e) = done {
        return Err(Report::Refused(e));
    }
    proof {
        assert forall|i: int, j: int| 0 <= i < m && 0 <= j < n implies agrees(
            cbuf@,
            rsc,
            csc,
            cref@,
            n as int,
            i,
            j,
        ) by {
            lemma_reference(o, da@, db@, dc0@, cref@, alpha, beta, i, j);
            let old = c0[l.idx(i, j)];
            assert(packed.element() =~= (|j: int, p: int| o.b@[o.lb.idx(p, j)]));
            law_int_prepacked_equals_plain(o, packed, alpha, beta, i, j, old);
            assert(cbuf@[l.idx(i, j)] == int_packed_element(
                a.data@,
                a.layout_spec(),
                packed,
                alpha,
                beta,
                i,
                j,
                old,
            ));
        }
    }
    if let Err((i, j)) = i8_gate(cbuf.as_slice(), rsc, csc, m, n, cref.as_slice()) {
        return Err(Report::Mismatch(i, j));
    }
    proof {
        assert forall|x: int| !gap_written(cbuf@, l, m as int, n as int, x) by {
            if gap_written(cbuf@, l, m as int, n as int, x) {
                assert(cbuf@[x] == c0[x]);
                assert(c0[x] == SENTINEL);
            }
        }
    }
    if let Err(at) = assert_no_gap_writes(cbuf.as_slice(), m, n, rsc, csc) {
        return Err(Report::GapWrite(at));
    }
    Ok(())
}

} // verus!
