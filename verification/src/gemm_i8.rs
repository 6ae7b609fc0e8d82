//! Integer products: `C(i32) <- alpha*A(i8)*B(i8) + beta*C`, exact modulo `2^32`.

use vstd::prelude::*;

use crate::api::{gemm_views_error, validate_gemm_views, MatMut, MatRef};
use crate::arith::{saturate, saturating_mul};
use crate::cells::{for_each_cell, Cell};
use crate::dispatch::{
    choose_route, lemma_operands_transposed, lemma_written_ext, lemma_written_transposed,
    route_spec, run_direct, written, Operands, Route, Routes,
};
use crate::driver::{request_spec, run, strided_product};
use crate::error::{outcome, GemmError};
use crate::gemm::{lemma_views_valid, operands_of};
use crate::homog::lemma_done_written;
use crate::integer::{
    int_depth, int_depth_spec, int_result, int_sum, law_int_product_is_exact,
    lemma_int_sum_commutes, lemma_int_sum_ext, IntGemm,
};
use crate::isa::Isa;
use crate::kernel::{Epilogue, Identity};
use crate::layout::{lemma_transposed_idx, Layout};
use crate::parallel::{default_context, Context, Parallelism};
use crate::product::Product;
use crate::scalar::{lemma_wrap_i32, wrap_i32};
use crate::tuning::Tuning;

verus! {

/// Choose between a kernel and its stand-in for small products with several workers.
pub fn pick_int_kernel<F: Copy>(
    tun: &Tuning,
    par: Parallelism,
    mnk: usize,
    run: F,
    small_par_fallback: Option<F>,
) -> (r: F)
    ensures
        r == picked(*tun, par, mnk as int, run, small_par_fallback),
{
    match small_par_fallback {
        Some(fallback) => match par {
            Parallelism::Rayon(n) => if n != 1 && mnk < tun.i8_vnni_min_par_mnk {
                fallback
            } else {
                run
            },
            Parallelism::Serial => run,
        },
        None => run,
    }
}

/// The stand-in takes over when there is one, more than one worker is asked for, and the work
/// is below the threshold.
pub open spec fn picked<F>(
    tun: Tuning,
    par: Parallelism,
    mnk: int,
    run: F,
    small_par_fallback: Option<F>,
) -> F {
    if small_par_fallback is Some && (par matches Parallelism::Rayon(n) && n != 1) && mnk
        < tun.i8_vnni_min_par_mnk {
        small_par_fallback->0
    } else {
        run
    }
}

/// The microtile of the integer kernel.
pub fn i8_rhs_tile(ctx: &Context) -> (r: (usize, usize))
    ensures
        r == (ctx.kernels.byte.mr, ctx.kernels.byte.nr),
{
    (ctx.kernels.byte.mr, ctx.kernels.byte.nr)
}

/// The depth multiple of the integer kernel's panels: 4 for the dot kernel, 1 otherwise.
pub fn i8_rhs_depth_multiple(ctx: &Context) -> (r: usize)
    ensures
        r == ctx.kernels.byte.depth_multiple,
{
    ctx.kernels.byte.depth_multiple
}

/// What element `(i, j)` of the output holds after an integer product, from the value `old`
/// that it had: `alpha * sum + beta * old` modulo `2^32`.
pub open spec fn int_element<'a>(
    o: Operands<'a, i8>,
    alpha: i32,
    beta: i32,
    i: int,
    j: int,
    old: i32,
) -> i32 {
    int_result(
        |i: int, p: int| o.a@[o.la.idx(i, p)],
        |j: int, p: int| o.b@[o.lb.idx(p, j)],
        o.k as int,
        alpha,
        beta,
        i,
        j,
        old,
    )
}

/// Transposing an integer product exchanges the indices of its results, and nothing else: the
/// two orientations compute the same output.
pub proof fn law_int_orientation_does_not_matter<'a>(
    o: Operands<'a, i8>,
    alpha: i32,
    beta: i32,
    i: int,
    j: int,
    old: i32,
)
    ensures
        int_element(o.transposed(), alpha, beta, j, i, old) == int_element(
            o,
            alpha,
            beta,
            i,
            j,
            old,
        ),
{
    let t = o.transposed();
    let x = |p: int| o.a@[o.la.idx(i, p)];
    let y = |p: int| o.b@[o.lb.idx(p, j)];
    let x2 = |p: int| t.a@[t.la.idx(j, p)];
    let y2 = |p: int| t.b@[t.lb.idx(p, i)];
    assert forall|p: int| 0 <= p < o.k implies #[trigger] x2(p) == y(p) by {
        lemma_transposed_idx(o.lb, j, p);
    }
    assert forall|p: int| 0 <= p < o.k implies #[trigger] y2(p) == x(p) by {
        lemma_transposed_idx(o.la, p, i);
    }
    lemma_int_sum_ext(x2, y2, y, x, 0, o.k as int);
    lemma_int_sum_commutes(x, y, 0, o.k as int);
    let fa = |i: int, p: int| o.a@[o.la.idx(i, p)];
    let fb = |j: int, p: int| o.b@[o.lb.idx(p, j)];
    let ga = |i: int, p: int| t.a@[t.la.idx(i, p)];
    let gb = |j: int, p: int| t.b@[t.lb.idx(p, j)];
    assert((|p: int| fa(i, p)) =~= x);
    assert((|p: int| fb(j, p)) =~= y);
    assert((|p: int| ga(j, p)) =~= x2);
    assert((|p: int| gb(i, p)) =~= y2);
}

/// A finished integer product in the frame of the engine.
proof fn lemma_int_done<'a, const DOT: bool>(
    prod: Product<IntGemm<DOT>, Identity>,
    c: Seq<i32>,
    run_o: Operands<'a, i8>,
    alpha: i32,
    beta: i32,
)
    requires
        prod.done(c),
        prod.k == run_o.k,
        prod.k > 0,
        prod.kc > 0,
        prod.m == run_o.m,
        prod.n == run_o.n,
        prod.lc == run_o.lc,
        prod.alpha == alpha,
        prod.beta == beta,
        prod.a == (|i: int, p: int| run_o.a@[run_o.la.idx(i, p)]),
        prod.b == (|j: int, p: int| run_o.b@[run_o.lb.idx(p, j)]),
    ensures
        written(
            prod.c0,
            c,
            run_o.lc,
            run_o.m as int,
            run_o.n as int,
            |i: int, j: int, x: i32, y: i32| y == int_element(run_o, alpha, beta, i, j, x),
        ),
{
    lemma_done_written(prod, c);
    let got = |i: int, j: int, x: i32, y: i32|
        <Identity as Epilogue<IntGemm<DOT>>>::stores(
            &prod.epi,
            prod.con().total(i, j, x),
            i,
            j,
            y,
        );
    let want = |i: int, j: int, x: i32, y: i32| y == int_element(run_o, alpha, beta, i, j, x);
    assert forall|i: int, j: int, x: i32, y: i32|
        0 <= i < prod.m && 0 <= j < prod.n && #[trigger] got(i, j, x, y) implies want(
        i,
        j,
        x,
        y,
    ) by {
        law_int_product_is_exact(prod.con(), i, j, x);
    }
    lemma_written_ext(prod.c0, c, prod.lc, prod.m, prod.n, got, want);
}

/// The routes of an integer product.
pub open spec fn int_routes() -> Routes {
    Routes { gemv: false, deep: None }
}

/// No size overflows on the route of an integer product whose kernel has dot panels or not.
pub open spec fn int_route_fits<'a>(
    ctx: Context,
    par: Parallelism,
    dot: bool,
    o: Operands<'a, i8>,
) -> bool {
    let t = o.oriented();
    let (mr, nr) = (ctx.kernels.byte.mr, ctx.kernels.byte.nr);
    route_spec(ctx, int_routes(), o) == Route::Driver ==> if dot {
        request_spec::<IntGemm<true>>(mr, nr, 4, t.m, t.k, t.n, t.la, None).fits(ctx, par)
    } else {
        request_spec::<IntGemm<false>>(mr, nr, 1, t.m, t.k, t.n, t.la, None).fits(ctx, par)
    }
}

/// Run an integer product along its route. The shallow and small-output routes never use the
/// dot panels.
fn run_typed_int<'a, const DOT: bool>(
    ctx: &Context,
    par: Parallelism,
    alpha: i32,
    o: Operands<'a, i8>,
    beta: i32,
    c: &mut [i32],
) -> (r: Result<(), GemmError>)
    requires
        ctx.kernels.valid(),
        0 < o.m,
        0 < o.k,
        0 < o.n,
        o.valid(old(c)@.len() as int),
    ensures
        r is Ok <==> int_route_fits(*ctx, par, DOT, o),
        r is Ok ==> written(
            old(c)@,
            final(c)@,
            o.lc,
            o.m as int,
            o.n as int,
            |i: int, j: int, x: i32, y: i32| y == int_element(o, alpha, beta, i, j, x),
        ),
        r matches Err(e) ==> e == GemmError::TooLarge && final(c)@ == old(c)@,
{
    let ghost c0 = c@;
    let mut run_o: Operands<'a, i8> = o;
    let (route, swapped): (Route, bool) = choose_route(
        ctx,
        Routes { gemv: false, deep: None },
        &mut run_o,
    );
    proof {
        lemma_operands_transposed(o, c0.len() as int);
    }
    let (mr, nr): (usize, usize) = i8_rhs_tile(ctx);
    let ghost want_run = |i: int, j: int, x: i32, y: i32|
        y == int_element(run_o, alpha, beta, i, j, x);
    match route {
        Route::Driver => {
            let r = run::<IntGemm<DOT>>(
                ctx,
                par,
                mr,
                nr,
                int_depth(DOT),
                run_o.m,
                run_o.k,
                run_o.n,
                alpha,
                run_o.a,
                run_o.la,
                run_o.b,
                run_o.lb,
                beta,
                c,
                run_o.lc,
            );
            if let Err(e) = r {
                return Err(e);
            }
            proof {
                let kc = request_spec::<IntGemm<DOT>>(
                    mr,
                    nr,
                    int_depth_spec(DOT),
                    run_o.m,
                    run_o.k,
                    run_o.n,
                    run_o.la,
                    None,
                ).kc(*ctx);
                let prod = strided_product::<IntGemm<DOT>, Identity>(
                    run_o.m as int,
                    run_o.k as int,
                    run_o.n as int,
                    kc,
                    run_o.a@,
                    run_o.la,
                    run_o.b@,
                    run_o.lb,
                    alpha,
                    beta,
                    c0,
                    run_o.lc,
                    Identity,
                );
                lemma_int_done(prod, c@, run_o, alpha, beta);
            }
        },
        _ => {
            run_direct::<IntGemm<false>, Identity>(
                run_o.m,
                run_o.k,
                run_o.n,
                alpha,
                run_o.a,
                run_o.la,
                run_o.b,
                run_o.lb,
                beta,
                c,
                run_o.lc,
                &Identity,
            );
            proof {
                let prod = strided_product::<IntGemm<false>, Identity>(
                    run_o.m as int,
                    run_o.k as int,
                    run_o.n as int,
                    run_o.k as int,
                    run_o.a@,
                    run_o.la,
                    run_o.b@,
                    run_o.lb,
                    alpha,
                    beta,
                    c0,
                    run_o.lc,
                    Identity,
                );
                lemma_int_done(prod, c@, run_o, alpha, beta);
            }
        },
    }
    proof {
        let want = |i: int, j: int, x: i32, y: i32| y == int_element(o, alpha, beta, i, j, x);
        if swapped {
            let want_t = |i: int, j: int, x: i32, y: i32| want(j, i, x, y);
            assert forall|i: int, j: int, x: i32, y: i32|
                0 <= i < run_o.m && 0 <= j < run_o.n && #[trigger] want_run(
                    i,
                    j,
                    x,
                    y,
                ) implies want_t(i, j, x, y) by {
                law_int_orientation_does_not_matter(o, alpha, beta, j, i, x);
            }
            lemma_written_ext(c0, c@, run_o.lc, run_o.m as int, run_o.n as int, want_run, want_t);
            lemma_written_transposed(c0, c@, o.lc, o.m as int, o.n as int, want);
        } else {
            lemma_written_ext(c0, c@, o.lc, o.m as int, o.n as int, want_run, want);
        }
    }
    Ok(())
}

struct ScaleIntCell {
    beta: i32,
}

impl Cell<i32> for ScaleIntCell {
    closed spec fn takes(&self, i: int, j: int) -> bool {
        true
    }

    closed spec fn gives(&self, i: int, j: int, before: i32, after: i32) -> bool {
        after == wrap_i32(self.beta * before)
    }

    fn update(&self, i: usize, j: usize, before: i32) -> (after: i32) {
        proof {
            lemma_wrap_i32(0);
            lemma_wrap_i32(before as int);
            vstd::arithmetic::mul::lemma_mul_basics(before as int);
        }
        if self.beta == 0 {
            0
        } else if self.beta == 1 {
            before
        } else {
            self.beta.wrapping_mul(before)
        }
    }
}

/// `C <- beta*C`, wrapping.
pub fn scale_c_int(beta: i32, c: &mut [i32], lc: Layout, m: usize, n: usize)
    requires
        lc.fits(m as int, n as int, old(c)@.len() as int),
        lc.distinct(m as int, n as int),
    ensures
        written(
            old(c)@,
            final(c)@,
            lc,
            m as int,
            n as int,
            |i: int, j: int, x: i32, y: i32| y == wrap_i32(beta * x),
        ),
{
    let ghost c0 = c@;
    let g: ScaleIntCell = ScaleIntCell { beta };
    for_each_cell(c, lc, m, n, &g);
    proof {
        lemma_written_ext(
            c0,
            c@,
            lc,
            m as int,
            n as int,
            |i: int, j: int, x: i32, y: i32| g.gives(i, j, x, y),
            |i: int, j: int, x: i32, y: i32| y == wrap_i32(beta * x),
        );
    }
}

/// A fully described integer product.
pub struct IntTask<'a> {
    pub alpha: i32,
    pub beta: i32,
    pub ops: Operands<'a, i8>,
}

/// The kernel that an integer product runs.
pub open spec fn int_kernel<'a>(ctx: Context, par: Parallelism, o: Operands<'a, i8>) -> Isa {
    picked(
        ctx.tuning,
        par,
        saturate(saturate(o.m * o.n) * o.k),
        ctx.kernels.byte.isa,
        ctx.kernels.byte.small_par_fallback,
    )
}

/// Whether an integer product can be run: it is degenerate, or no size of its route overflows.
pub open spec fn int_runs<'a>(
    ctx: Context,
    par: Parallelism,
    o: Operands<'a, i8>,
    alpha: i32,
) -> bool {
    o.m == 0 || o.n == 0 || o.k == 0 || alpha == 0 || int_route_fits(
        ctx,
        par,
        int_kernel(ctx, par, o) == Isa::Avx512Vnni,
        o,
    )
}

/// Run an integer product: the degenerate cases here, everything else with the chosen kernel.
/// Which kernel runs never shows in the result.
pub fn execute_int<'a>(
    ctx: &Context,
    task: IntTask<'a>,
    par: Parallelism,
    c: &mut [i32],
) -> (r: Result<(), GemmError>)
    requires
        ctx.kernels.valid(),
        task.ops.valid(old(c)@.len() as int),
    ensures
        r is Ok <==> int_runs(*ctx, par, task.ops, task.alpha),
        r is Ok ==> written(
            old(c)@,
            final(c)@,
            task.ops.lc,
            task.ops.m as int,
            task.ops.n as int,
            |i: int, j: int, x: i32, y: i32|
                y == int_element(task.ops, task.alpha, task.beta, i, j, x),
        ),
        r matches Err(e) ==> e == GemmError::TooLarge && final(c)@ == old(c)@,
{
    let ghost c0 = c@;
    let ghost o = task.ops;
    if task.ops.m == 0 || task.ops.n == 0 {
        return Ok(());
    }
    if task.ops.k == 0 || task.alpha == 0 {
        scale_c_int(task.beta, c, task.ops.lc, task.ops.m, task.ops.n);
        proof {
            let got = |i: int, j: int, x: i32, y: i32| y == wrap_i32(task.beta * x);
            let want = |i: int, j: int, x: i32, y: i32|
                y == int_element(o, task.alpha, task.beta, i, j, x);
            assert forall|i: int, j: int, x: i32, y: i32|
                0 <= i < o.m && 0 <= j < o.n && #[trigger] got(i, j, x, y) implies want(
                i,
                j,
                x,
                y,
            ) by {
                lemma_vanishing_sum(o, task.alpha, task.beta, i, j, x);
            }
            lemma_written_ext(c0, c@, o.lc, o.m as int, o.n as int, got, want);
        }
        return Ok(());
    }
    let d = ctx.kernels.byte;
    let mnk: usize = saturating_mul(saturating_mul(task.ops.m, task.ops.n), task.ops.k);
    let isa: Isa = pick_int_kernel(&ctx.tuning, par, mnk, d.isa, d.small_par_fallback);
    match isa {
        Isa::Avx512Vnni => run_typed_int::<true>(ctx, par, task.alpha, task.ops, task.beta, c),
        _ => run_typed_int::<false>(ctx, par, task.alpha, task.ops, task.beta, c),
    }
}

/// Without a depth, or with a zero `alpha`, only `beta * old` is left.
proof fn lemma_vanishing_sum<'a>(
    o: Operands<'a, i8>,
    alpha: i32,
    beta: i32,
    i: int,
    j: int,
    old: i32,
)
    requires
        o.k == 0 || alpha == 0,
    ensures
        int_element(o, alpha, beta, i, j, old) == wrap_i32(beta * old),
{
    let fa = |i: int, p: int| o.a@[o.la.idx(i, p)];
    let fb = |j: int, p: int| o.b@[o.lb.idx(p, j)];
    let s = int_sum(|p: int| fa(i, p), |p: int| fb(j, p), 0, o.k as int);
    assert(alpha * s == 0) by (nonlinear_arith)
        requires
            alpha == 0 || s == 0,
    ;
}

/// `C <- alpha*A*B + beta*C` over `i8` views and an `i32` output, under the given context.
///
/// The result is exact modulo `2^32`, whatever the context and the parallelism.
pub fn gemm_i8_with<'a>(
    ctx: &Context,
    alpha: i32,
    a: MatRef<'a, i8>,
    b: MatRef<'a, i8>,
    beta: i32,
    c: MatMut<'_, i32>,
    par: Parallelism,
) -> (r: Result<(), GemmError>)
    requires
        ctx.kernels.valid(),
    ensures
        r == (match gemm_views_error(a.geometry(), b.geometry(), c.geometry()) {
            Some(e) => Err::<(), GemmError>(e),
            None => if int_runs(*ctx, par, operands_of(a, b, c.layout_spec()), alpha) {
                Ok(())
            } else {
                Err(GemmError::TooLarge)
            },
        }),
        r is Ok ==> written(
            old(c.data)@,
            final(c.data)@,
            c.layout_spec(),
            c.rows as int,
            c.cols as int,
            |i: int, j: int, x: i32, y: i32|
                y == int_element(operands_of(a, b, c.layout_spec()), alpha, beta, i, j, x),
        ),
        r is Err ==> final(c.data)@ == old(c.data)@,
{
    if let Err(e) = validate_gemm_views(&a, &b, &c) {
        return Err(e);
    }
    proof {
        lemma_views_valid(a, b, c.geometry());
    }
    let ops: Operands<'a, i8> = Operands {
        m: a.rows,
        k: a.cols,
        n: b.cols,
        a: a.data,
        la: a.layout(),
        b: b.data,
        lb: b.layout(),
        lc: c.layout(),
    };
    assert(ops == operands_of(a, b, c.layout_spec()));
    match execute_int(ctx, IntTask { alpha, beta, ops }, par, c.data) {
        Ok(_) => Ok(()),
        Err(e) => Err(e),
    }
}

/// `C <- alpha*A*B + beta*C` over `i8` views and an `i32` output: [`gemm_i8_with`] under the
/// default context.
pub fn gemm_i8<'a>(
    alpha: i32,
    a: MatRef<'a, i8>,
    b: MatRef<'a, i8>,
    beta: i32,
    c: MatMut<'_, i32>,
    par: Parallelism,
) -> (r: Result<(), GemmError>)
    ensures
        r == (match gemm_views_error(a.geometry(), b.geometry(), c.geometry()) {
            Some(e) => Err::<(), GemmError>(e),
            None => if int_runs(
                default_context(),
                par,
                operands_of(a, b, c.layout_spec()),
                alpha,
            ) {
                Ok(())
            } else {
                Err(GemmError::TooLarge)
            },
        }),
        r is Ok ==> written(
            old(c.data)@,
            final(c.data)@,
            c.layout_spec(),
            c.rows as int,
            c.cols as int,
            |i: int, j: int, x: i32, y: i32|
                y == int_element(operands_of(a, b, c.layout_spec()), alpha, beta, i, j, x),
        ),
        r is Err ==> final(c.data)@ == old(c.data)@,
{
    gemm_i8_with(&Context::new(), alpha, a, b, beta, c, par)
}

/// `C <- alpha*A*B + beta*C` over `i8` operands and an `i32` output that are known to fit their
/// slices, at any offset and with strides of either sign.
pub fn gemm_i8_unchecked_with<'a>(
    ctx: &Context,
    alpha: i32,
    ops: Operands<'a, i8>,
    beta: i32,
    c: &mut [i32],
    par: Parallelism,
) -> (r: Result<(), GemmError>)
    requires
        ctx.kernels.valid(),
        ops.valid(old(c)@.len() as int),
    ensures
        r == outcome(None, int_runs(*ctx, par, ops, alpha)),
        r is Ok ==> written(
            old(c)@,
            final(c)@,
            ops.lc,
            ops.m as int,
            ops.n as int,
            |i: int, j: int, x: i32, y: i32| y == int_element(ops, alpha, beta, i, j, x),
        ),
        r is Err ==> final(c)@ == old(c)@,
{
    match execute_int(ctx, IntTask { alpha, beta, ops }, par, c) {
        Ok(_) => Ok(()),
        Err(e) => Err(e),
    }
}

/// [`gemm_i8_unchecked_with`] under the default context.
pub fn gemm_i8_unchecked<'a>(
    alpha: i32,
    ops: Operands<'a, i8>,
    beta: i32,
    c: &mut [i32],
    par: Parallelism,
) -> (r: Result<(), GemmError>)
    requires
        ops.valid(old(c)@.len() as int),
    ensures
        r == outcome(None, int_runs(default_context(), par, ops, alpha)),
        r is Ok ==> written(
            old(c)@,
            final(c)@,
            ops.lc,
            ops.m as int,
            ops.n as int,
            |i: int, j: int, x: i32, y: i32| y == int_element(ops, alpha, beta, i, j, x),
        ),
        r is Err ==> final(c)@ == old(c)@,
{
    gemm_i8_unchecked_with(&Context::new(), alpha, ops, beta, c, par)
}

} // verus!
