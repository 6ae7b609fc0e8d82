//! The batched entry over separate views, on wrapping `i32` elements: every element of the batch
//! has buffers of its own, and is held against the naive reference.

use vstd::prelude::*;

use crate::api::{MatMut, MatRef};
use crate::batched::{gemm_batched_slice_with, same_problem, BatchProblem};
use crate::dispatch::Operands;
use crate::error::GemmError;
use crate::fuzz::common::{build_operand, lemma_plan_view, LayoutPlan, Rng, SENTINEL};
use crate::fuzz::differential::{problem_fits, Report};
use crate::fuzz::exact_drivers::{
    check, lemma_gaps_kept, lemma_gemm_agrees, lemma_runs_alike, reference, shaped,
};
use crate::homog::gemm_runs;
use crate::layout::Layout;
use crate::parallel::{Context, Parallelism};

verus! {

/// The operands are dense and laid out by rows.
pub open spec fn dense_rows() -> LayoutPlan {
    LayoutPlan::RowIsh { il: 1, pad: 0 }
}

/// C is laid out by rows, with a gap behind each.
pub open spec fn gapped_rows() -> LayoutPlan {
    LayoutPlan::RowIsh { il: 1, pad: 1 }
}

/// An element of the batch passes the checks and has the common shape.
spec fn element_of<'a>(
    p: BatchProblem<'a, i32>,
    m: usize,
    k: usize,
    n: usize,
    alpha: i32,
) -> bool {
    &&& p.error() is None
    &&& p.alpha == alpha
    &&& shaped(p.ops(), m, k, n, dense_rows(), dense_rows(), gapped_rows())
}

/// Run all the elements once they are there.
fn run_all<'a>(
    ctx: &Context,
    m: usize,
    k: usize,
    n: usize,
    alpha: i32,
    par: Parallelism,
    problems: Vec<BatchProblem<'a, i32>>,
) -> (r: Result<(), Report>)
    requires
        ctx.kernels.valid(),
        forall|i: int|
            0 <= i < problems@.len() ==> element_of(#[trigger] problems@[i], m, k, n, alpha),
    ensures
        r == Ok::<(), Report>(()) || r == Err::<(), Report>(Report::Refused(GemmError::TooLarge)),
        r is Ok ==> forall|i: int|
            0 <= i < problems@.len() ==> (#[trigger] problems@[i]).done(
                *ctx,
                final(problems@[i].c.data)@,
            ),
        forall|o: Operands<'_, i32>|
            #[trigger] shaped(o, m, k, n, dense_rows(), dense_rows(), gapped_rows()) ==> (r is Ok
                <==> problems@.len() == 0 || gemm_runs(*ctx, par, o, alpha)),
{
    let ghost p0 = problems@;
    let mut problems: Vec<BatchProblem<'a, i32>> = problems;
    let done = gemm_batched_slice_with(ctx, problems.as_mut_slice(), par);
    proof {
        if p0.len() > 0 {
            assert(element_of(p0[0], m, k, n, alpha));
            lemma_runs_alike(
                *ctx,
                par,
                p0[0].ops(),
                alpha,
                m,
                k,
                n,
                dense_rows(),
                dense_rows(),
                gapped_rows(),
            );
        }
        if let Err((at, _)) = done {
            assert(element_of(p0[at as int], m, k, n, alpha));
        } else {
            let q = problems@;
            assert(has_resolved(problems));
            assert forall|i: int| 0 <= i < p0.len() implies (#[trigger] p0[i]).done(
                *ctx,
                final(p0[i].c.data)@,
            ) && gemm_runs(*ctx, par, p0[i].ops(), p0[i].alpha) by {
                assert(same_problem(p0[i], q[i]));
                assert(has_resolved(problems[i]));
                assert(has_resolved(problems[i].c));
                assert(final(q[i].c.data)@ == q[i].c.data@);
            }
        }
    }
    match done {
        Ok(_) => Ok(()),
        Err((_, e)) => Err(Report::Refused(e)),
    }
}

/// Make up the elements from `problems.len()` on, one in each call, run all of them at the end,
/// and hold each against its reference on the way back.
fn run_from<'a>(
    ctx: &Context,
    batch: usize,
    m: usize,
    k: usize,
    n: usize,
    alpha: i32,
    beta: i32,
    par: Parallelism,
    seed: u64,
    problems: Vec<BatchProblem<'a, i32>>,
) -> (r: Result<(), Report>)
    requires
        ctx.kernels.valid(),
        problems@.len() <= batch,
        problem_fits(m as int, k as int, n as int, dense_rows(), dense_rows(), gapped_rows()),
        forall|i: int|
            0 <= i < problems@.len() ==> element_of(#[trigger] problems@[i], m, k, n, alpha),
    ensures
        r == Ok::<(), Report>(()) || r == Err::<(), Report>(Report::Refused(GemmError::TooLarge)),
        r is Ok ==> forall|i: int|
            0 <= i < problems@.len() ==> (#[trigger] problems@[i]).done(
                *ctx,
                final(problems@[i].c.data)@,
            ),
        forall|o: Operands<'_, i32>|
            #[trigger] shaped(o, m, k, n, dense_rows(), dense_rows(), gapped_rows()) ==> (r is Ok
                <==> batch == 0 || gemm_runs(*ctx, par, o, alpha)),
    decreases batch - problems@.len(),
{
    if problems.len() == batch {
        return run_all(ctx, m, k, n, alpha, par, problems);
    }
    let ghost before = problems@;
    let e: usize = problems.len();
    let dense: LayoutPlan = LayoutPlan::RowIsh { il: 1, pad: 0 };
    let gapped: LayoutPlan = LayoutPlan::RowIsh { il: 1, pad: 1 };
    let mut rng: Rng = Rng::new(seed ^ (e as u64).wrapping_mul(0x9E37) ^ 0x51CE);
    let (abuf, rsa, csa): (Vec<i32>, isize, isize) = build_operand(m, k, dense, 0i32, &mut rng);
    let (bbuf, rsb, csb): (Vec<i32>, isize, isize) = build_operand(k, n, dense, 0i32, &mut rng);
    let (mut cbuf, rsc, csc): (Vec<i32>, isize, isize) = build_operand(
        m,
        n,
        gapped,
        SENTINEL,
        &mut rng,
    );
    let ghost c0 = cbuf@;
    let ghost l = Layout { off: 0, rs: rsc, cs: csc };
    proof {
        lemma_plan_view(dense, m, k, rsa, csa);
        lemma_plan_view(dense, k, n, rsb, csb);
        lemma_plan_view(gapped, m, n, rsc, csc);
    }
    let cref: Vec<i32> = reference(
        abuf.as_slice(),
        rsa,
        csa,
        bbuf.as_slice(),
        rsb,
        csb,
        cbuf.as_slice(),
        rsc,
        csc,
        m,
        k,
        n,
        alpha,
        beta,
    );
    let a: MatRef<'_, i32> = MatRef::new(abuf.as_slice(), m, k, rsa, csa);
    let b: MatRef<'_, i32> = MatRef::new(bbuf.as_slice(), k, n, rsb, csb);
    let mut all: Vec<BatchProblem<'_, i32>> = problems;
    all.push(
        BatchProblem { alpha, a, b, beta, c: MatMut::new(cbuf.as_mut_slice(), m, n, rsc, csc) },
    );
    let ghost now = all@;
    let ghost o = now[e as int].ops();
    proof {
        assert forall|i: int| 0 <= i < now.len() implies element_of(
            #[trigger] now[i],
            m,
            k,
            n,
            alpha,
        ) by {
            if i < e {
                assert(now[i] == before[i]);
            }
        }
    }
    let r = run_from(ctx, batch, m, k, n, alpha, beta, par, seed, all);
    proof {
        assert forall|i: int| 0 <= i < before.len() && r is Ok implies (
        #[trigger] before[i]).done(*ctx, final(before[i].c.data)@) by {
            assert(now[i] == before[i]);
            assert(now[i].done(*ctx, final(now[i].c.data)@));
        }
    }
    if let Err(err) = r {
        return Err(err);
    }
    proof {
        assert(now[e as int].done(*ctx, final(now[e as int].c.data)@));
        lemma_gemm_agrees(*ctx, o, alpha, beta, c0, cbuf@, cref@);
        lemma_gaps_kept(c0, cbuf@, l, m as int, n as int);
    }
    check(cbuf.as_slice(), rsc, csc, m, n, cref.as_slice())
}

/// Run the batched product over separate views on a made-up batch. No element ever differs from
/// its reference, and nothing outside the views is written, so it fails only where the library
/// refuses the problem as too large.
pub fn batched_slice_real(
    ctx: &Context,
    batch: usize,
    m: usize,
    k: usize,
    n: usize,
    alpha: i32,
    beta: i32,
    par: Parallelism,
    seed: u64,
) -> (r: Result<(), Report>)
    requires
        ctx.kernels.valid(),
        problem_fits(m as int, k as int, n as int, dense_rows(), dense_rows(), gapped_rows()),
    ensures
        r == Ok::<(), Report>(()) || r == Err::<(), Report>(Report::Refused(GemmError::TooLarge)),
        forall|o: Operands<'_, i32>|
            #[trigger] shaped(o, m, k, n, dense_rows(), dense_rows(), gapped_rows()) ==> (r is Ok
                <==> batch == 0 || gemm_runs(*ctx, par, o, alpha)),
{
    run_from(ctx, batch, m, k, n, alpha, beta, par, seed, Vec::new())
}

} // verus!
