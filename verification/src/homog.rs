//! Homogeneous products: the routes, the deep route of narrow types and the degenerate cases, for
//! every element type.

use vstd::arithmetic::mul::*;
use vstd::prelude::*;

use crate::api::{extent_spec, law_extent_is_tight, law_no_self_alias_is_distinct, reach};
use crate::arith::{abs_int, lemma_div_up, min_int};
use crate::cells::{for_each_cell, Cell};
use crate::dispatch::{
    choose_route, lemma_operands_transposed, lemma_single_slice, lemma_written_ext,
    lemma_written_transposed, orient_swap, route_spec, run_direct, written, Operands, Route, Routes,
};
use crate::driver::{request_spec, run, run_epilogue, strided_product};
use crate::element::{GemmScalar, Plain, Twin};
use crate::error::GemmError;
use crate::kernel::{
    alpha_status, beta_status, blend, blend_status, chain, dot_range, lemma_chain_split,
    AlphaStatus, BetaStatus, Epilogue, Identity, KernelFamily,
};
use crate::layout::Layout;
use crate::parallel::{Context, Parallelism};
use crate::product::{Contraction, Product};
use crate::scalar::Scalar;

verus! {

/// The arithmetic of a homogeneous product that is split into slices of depth `kc`.
pub open spec fn plain_contraction<'a, T: GemmScalar>(
    o: Operands<'a, T>,
    kc: int,
    alpha: T::Acc,
    beta: T::Acc,
) -> Contraction<Plain<T>> {
    Contraction {
        k: o.k as int,
        kc,
        a: |i: int, p: int| o.a@[o.la.idx(i, p)],
        b: |j: int, p: int| o.b@[o.lb.idx(p, j)],
        alpha,
        beta,
    }
}

/// The depth of a slice on a route: the driver's, or the whole depth.
pub open spec fn route_kc<'a, T: GemmScalar>(
    ctx: Context,
    route: Route,
    o: Operands<'a, T>,
) -> int {
    let (mr, nr) = T::rhs_tile_spec(ctx.kernels);
    let q = T::rhs_depth_multiple_spec(ctx.kernels);
    if route == Route::Driver {
        request_spec::<Plain<T>>(mr, nr, q, o.m, o.k, o.n, o.la, None).kc(ctx)
    } else {
        o.k as int
    }
}

/// The accumulator with which output `(i, j)` of a homogeneous product ends, before the
/// epilogue, from the value `old` that the output had. It depends on the operands, the scales
/// and the route alone: not on the parallelism.
pub open spec fn gemm_total<'a, T: GemmScalar>(
    ctx: Context,
    routes: Routes,
    o: Operands<'a, T>,
    alpha: T::Acc,
    beta: T::Acc,
    i: int,
    j: int,
    old: T,
) -> T::Acc {
    let route = route_spec(ctx, routes, o);
    if route != Route::Gemv && o.row_major() {
        let t = o.transposed();
        plain_contraction(t, route_kc(ctx, route, t), alpha, beta).total(j, i, old)
    } else {
        plain_contraction(o, route_kc(ctx, route, o), alpha, beta).total(i, j, old)
    }
}

/// No size overflows on the route that a product takes.
pub open spec fn gemm_fits<'a, T: GemmScalar>(
    ctx: Context,
    par: Parallelism,
    routes: Routes,
    o: Operands<'a, T>,
) -> bool {
    let route = route_spec(ctx, routes, o);
    let t = o.oriented();
    let (mr, nr) = T::rhs_tile_spec(ctx.kernels);
    let q = T::rhs_depth_multiple_spec(ctx.kernels);
    if route == Route::Driver {
        request_spec::<Plain<T>>(mr, nr, q, t.m, t.k, t.n, t.la, None).fits(ctx, par)
    } else if route == Route::DeepK {
        &&& t.m * t.n <= isize::MAX
        &&& request_spec::<Twin<T>>(mr, nr, q, t.m, t.k, t.n, t.la, None).fits(ctx, par)
    } else {
        true
    }
}

/// A finished product, as what has been written.
pub proof fn lemma_done_written<F: KernelFamily, E: Epilogue<F>>(
    prod: Product<F, E>,
    c: Seq<F::Out>,
)
    requires
        prod.done(c),
    ensures
        written(
            prod.c0,
            c,
            prod.lc,
            prod.m,
            prod.n,
            |i: int, j: int, x: F::Out, y: F::Out|
                prod.epi.stores(prod.con().total(i, j, x), i, j, y),
        ),
{
}

/// A product in the frame of the engine, seen in the frame of the caller: through the
/// transposition, where there was one.
proof fn lemma_user_frame<'a, T: GemmScalar, E: Epilogue<Plain<T>>>(
    prod: Product<Plain<T>, E>,
    c: Seq<T>,
    swapped: bool,
    o: Operands<'a, T>,
    epi: E,
    total: spec_fn(int, int, T) -> T::Acc,
)
    requires
        prod.done(c),
        swapped ==> prod.lc == o.lc.transposed() && prod.m == o.n && prod.n == o.m && prod.epi
            == epi.flip_spec() && (forall|i: int, j: int, x: T| #[trigger]
            total(i, j, x) == prod.con().total(j, i, x)),
        !swapped ==> prod.lc == o.lc && prod.m == o.m && prod.n == o.n && prod.epi == epi && (
        forall|i: int, j: int, x: T| #[trigger] total(i, j, x) == prod.con().total(i, j, x)),
    ensures
        written(
            prod.c0,
            c,
            o.lc,
            o.m as int,
            o.n as int,
            |i: int, j: int, x: T, y: T| epi.stores(total(i, j, x), i, j, y),
        ),
{
    lemma_done_written(prod, c);
    let ok = |i: int, j: int, x: T, y: T| epi.stores(total(i, j, x), i, j, y);
    let engine = |i: int, j: int, x: T, y: T|
        prod.epi.stores(prod.con().total(i, j, x), i, j, y);
    if swapped {
        let ok_t = |i: int, j: int, x: T, y: T| ok(j, i, x, y);
        assert forall|i: int, j: int, x: T, y: T|
            0 <= i < prod.m && 0 <= j < prod.n && #[trigger] engine(i, j, x, y) implies ok_t(
            i,
            j,
            x,
            y,
        ) by {
            assert(total(j, i, x) == prod.con().total(i, j, x));
            epi.flip_transposes(prod.con().total(i, j, x), i, j, y);
        }
        lemma_written_ext(prod.c0, c, prod.lc, prod.m, prod.n, engine, ok_t);
        lemma_written_transposed(prod.c0, c, o.lc, o.m as int, o.n as int, ok);
    } else {
        assert forall|i: int, j: int, x: T, y: T|
            0 <= i < prod.m && 0 <= j < prod.n && #[trigger] engine(i, j, x, y) implies ok(
            i,
            j,
            x,
            y,
        ) by {
            assert(total(i, j, x) == prod.con().total(i, j, x));
        }
        lemma_written_ext(prod.c0, c, prod.lc, prod.m, prod.n, engine, ok);
    }
}

/// Run a product with an epilogue along its route. The deep route is not one of these: it
/// narrows in a sweep of its own.
pub fn run_typed_epi<'a, T: GemmScalar, E: Epilogue<Plain<T>>>(
    ctx: &Context,
    par: Parallelism,
    gemv: bool,
    alpha: T::Acc,
    o: Operands<'a, T>,
    beta: T::Acc,
    c: &mut [T],
    epi: E,
) -> (r: Result<(), GemmError>)
    requires
        ctx.kernels.valid(),
        0 < o.m,
        0 < o.k,
        0 < o.n,
        o.valid(old(c)@.len() as int),
        forall|v: T::Acc, i: int, j: int|
            0 <= i < o.m && 0 <= j < o.n ==> #[trigger] epi.accepts(v, i, j),
    ensures
        r is Ok <==> gemm_fits(*ctx, par, (Routes { gemv, deep: None }), o),
        r is Ok ==> written(
            old(c)@,
            final(c)@,
            o.lc,
            o.m as int,
            o.n as int,
            |i: int, j: int, x: T, y: T|
                epi.stores(
                    gemm_total(*ctx, (Routes { gemv, deep: None }), o, alpha, beta, i, j, x),
                    i,
                    j,
                    y,
                ),
        ),
        r matches Err(e) ==> e == GemmError::TooLarge && final(c)@ == old(c)@,
{
    let routes: Routes = Routes { gemv, deep: None };
    let ghost c0 = c@;
    let mut run_o: Operands<'a, T> = o;
    let (route, swapped): (Route, bool) = choose_route(ctx, routes, &mut run_o);
    proof {
        lemma_operands_transposed(o, c0.len() as int);
    }
    let run_epi: E = if swapped {
        epi.flip()
    } else {
        epi
    };
    let (mr, nr): (usize, usize) = T::rhs_tile(&ctx.kernels);
    let q: usize = T::rhs_depth_multiple(&ctx.kernels);
    proof {
        T::depth_multiple_is_sound(ctx.kernels);
    }
    let ghost kc = route_kc(*ctx, route, run_o);
    let ghost prod = strided_product::<Plain<T>, E>(
        run_o.m as int,
        run_o.k as int,
        run_o.n as int,
        kc,
        run_o.a@,
        run_o.la,
        run_o.b@,
        run_o.lb,
        alpha,
        beta,
        c0,
        run_o.lc,
        run_epi,
    );
    let ghost total = |i: int, j: int, x: T|
        gemm_total(*ctx, routes, o, alpha, beta, i, j, x);
    proof {
        assert(prod.con() == plain_contraction(run_o, kc, alpha, beta));
        assert forall|v: T::Acc, i: int, j: int|
            0 <= i < run_o.m && 0 <= j < run_o.n implies #[trigger] run_epi.accepts(v, i, j) by {
            if swapped {
                epi.flip_transposes(v, i, j, arbitrary());
                assert(epi.accepts(v, j, i));
            }
        }
    }
    let r: Result<(), GemmError> = match route {
        Route::Driver => run_epilogue::<Plain<T>, E>(
            ctx,
            par,
            mr,
            nr,
            q,
            run_o.m,
            run_o.k,
            run_o.n,
            alpha,
            run_o.a,
            run_o.la,
            run_o.b,
            run_o.lb,
            beta,
            c,
            run_o.lc,
            &run_epi,
        ),
        _ => {
            run_direct::<Plain<T>, E>(
                run_o.m,
                run_o.k,
                run_o.n,
                alpha,
                run_o.a,
                run_o.la,
                run_o.b,
                run_o.lb,
                beta,
                c,
                run_o.lc,
                &run_epi,
            );
            Ok(())
        },
    };
    proof {
        if r is Ok {
            lemma_user_frame(prod, c@, swapped, o, epi, total);
            lemma_written_ext(
                c0,
                c@,
                o.lc,
                o.m as int,
                o.n as int,
                |i: int, j: int, x: T, y: T| epi.stores(total(i, j, x), i, j, y),
                |i: int, j: int, x: T, y: T|
                    epi.stores(
                        gemm_total(*ctx, routes, o, alpha, beta, i, j, x),
                        i,
                        j,
                        y,
                    ),
            );
        }
    }
    r
}

/// The twin runs the same chain as the plain family.
proof fn lemma_twin_chain<T: GemmScalar>(
    init: T::Acc,
    x: spec_fn(int) -> T,
    y: spec_fn(int) -> T,
    lo: int,
    hi: int,
)
    ensures
        chain::<Twin<T>>(init, x, y, lo, hi) == chain::<Plain<T>>(init, x, y, lo, hi),
    decreases hi - lo,
{
    if lo < hi {
        lemma_twin_chain::<T>(init, x, y, lo, hi - 1);
    }
}

/// After `t` slices the twin holds the chain so far.
proof fn lemma_twin_partial<T: GemmScalar>(
    con: Contraction<Twin<T>>,
    i: int,
    j: int,
    t: int,
    old: T::Acc,
)
    requires
        con.k > 0,
        con.kc > 0,
        con.alpha.is_one_spec(),
        con.beta.is_zero_spec(),
        1 <= t <= con.slices(),
    ensures
        con.partial(i, j, t, old) == dot_range::<Twin<T>>(
            |p: int| (con.a)(i, p),
            |p: int| (con.b)(j, p),
            0,
            min_int(t * con.kc, con.k),
        ),
    decreases t,
{
    let x = |p: int| (con.a)(i, p);
    let y = |p: int| (con.b)(j, p);
    lemma_div_up(con.k, con.kc);
    lemma_mul_basics(con.kc);
    if t > 1 {
        lemma_twin_partial(con, i, j, t - 1, old);
        let lo = (t - 1) * con.kc;
        let hi = min_int(t * con.kc, con.k);
        let d = con.slices();
        assert(0 <= lo < con.k && t * con.kc == lo + con.kc) by (nonlinear_arith)
            requires
                lo == (t - 1) * con.kc,
                1 <= t <= d,
                (d - 1) * con.kc < con.k,
                con.kc > 0,
        ;
        lemma_chain_split::<Twin<T>>(T::Acc::zero_spec(), x, y, 0, lo, hi);
    }
}

/// Accumulating in slices with a twin that takes the chain up gives, bit for bit, the chain of
/// one undivided slice.
pub proof fn law_deep_k_equals_one_slice<T: GemmScalar>(
    con: Contraction<Twin<T>>,
    i: int,
    j: int,
    old: T::Acc,
)
    requires
        con.k > 0,
        con.kc > 0,
        con.alpha.is_one_spec(),
        con.beta.is_zero_spec(),
    ensures
        con.total(i, j, old) == dot_range::<Plain<T>>(
            |p: int| (con.a)(i, p),
            |p: int| (con.b)(j, p),
            0,
            con.k,
        ),
{
    let x = |p: int| (con.a)(i, p);
    let y = |p: int| (con.b)(j, p);
    let d = con.slices();
    lemma_div_up(con.k, con.kc);
    lemma_twin_partial(con, i, j, d, old);
    lemma_twin_chain::<T>(T::Acc::zero_spec(), x, y, 0, con.k);
    if d == 1 {
        assert(con.total(i, j, old) == con.partial(i, j, 1, old));
    } else {
        assert(con.total(i, j, old) == con.partial(i, j, d, old));
    }
}

/// The narrowing sweep: `narrow(alpha*scratch + beta*old)`.
struct NarrowSweep<'a, T: GemmScalar> {
    scratch: &'a [T::Acc],
    ls: Layout,
    alpha: T::Acc,
    beta: T::Acc,
    ash: AlphaStatus,
    bst: BetaStatus,
}

impl<'a, T: GemmScalar> Cell<T> for NarrowSweep<'a, T> {
    closed spec fn takes(&self, i: int, j: int) -> bool {
        &&& 0 <= self.ls.idx(i, j) < self.scratch@.len()
        &&& 0 <= self.ls.idx(i, 0) < self.scratch@.len()
        &&& 0 <= self.ls.idx(0, j) < self.scratch@.len()
        &&& self.ash is One <==> self.alpha.is_one_spec()
        &&& self.bst is Zero <==> self.beta.is_zero_spec()
        &&& self.bst is One <==> !self.beta.is_zero_spec() && self.beta.is_one_spec()
    }

    closed spec fn gives(&self, i: int, j: int, before: T, after: T) -> bool {
        after == T::narrow_spec(
            blend::<Plain<T>>(self.alpha, self.scratch@[self.ls.idx(i, j)], self.beta, before),
        )
    }

    fn update(&self, i: usize, j: usize, before: T) -> (after: T) {
        assert(self.scratch.len() == self.scratch@.len());
        let at: usize = self.ls.at(i, j);
        T::narrow(
            blend_status::<Plain<T>>(
                self.alpha,
                self.scratch[at],
                self.beta,
                before,
                self.ash,
                self.bst,
            ),
        )
    }
}

/// The column-major layout of an `m x n` scratch.
pub proof fn lemma_scratch_layout(m: usize, n: usize)
    requires
        0 < m,
        0 < n,
        m * n <= isize::MAX,
    ensures
        m <= isize::MAX,
        (Layout { off: 0, rs: 1, cs: m as isize }).fits(m as int, n as int, m * n),
        (Layout { off: 0, rs: 1, cs: m as isize }).distinct(m as int, n as int),
{
    assert(m <= m * n && n <= m * n) by (nonlinear_arith)
        requires
            m >= 1,
            n >= 1,
    ;
    assert(reach(n as int, m as int) == m * n - m) by (nonlinear_arith)
        requires
            reach(n as int, m as int) == (n - 1) * m,
    ;
    assert(reach(m as int, 1) == m - 1);
    assert(extent_spec(m, n, 1, m as isize) == Some(m * n));
    law_extent_is_tight(m, n, 1, m as isize);
    lemma_mul_basics(m as int);
    assert(abs_int(1) * m == m);
    law_no_self_alias_is_distinct(m, n, 1, m as isize, 0);
}

/// The deep route of a narrow type: accumulate `A*B` in slices into a scratch of accumulators,
/// then scale, add and narrow once.
pub fn run_deep_k_twin<'a, T: GemmScalar>(
    ctx: &Context,
    par: Parallelism,
    mr: usize,
    nr: usize,
    q: usize,
    alpha: T::Acc,
    o: &Operands<'a, T>,
    beta: T::Acc,
    c: &mut [T],
) -> (r: Result<(), GemmError>)
    requires
        0 < mr,
        0 < nr,
        0 < q,
        0 < o.m,
        0 < o.k,
        0 < o.n,
        o.valid(old(c)@.len() as int),
    ensures
        r is Ok <==> o.m * o.n <= isize::MAX && request_spec::<Twin<T>>(
            mr,
            nr,
            q,
            o.m,
            o.k,
            o.n,
            o.la,
            None,
        ).fits(*ctx, par),
        r is Ok ==> written(
            old(c)@,
            final(c)@,
            o.lc,
            o.m as int,
            o.n as int,
            |i: int, j: int, x: T, y: T|
                y == T::narrow_spec(
                    plain_contraction(*o, o.k as int, alpha, beta).total(i, j, x),
                ),
        ),
        r matches Err(e) ==> e == GemmError::TooLarge && final(c)@ == old(c)@,
{
    let len: usize = match o.m.checked_mul(o.n) {
        Some(v) => v,
        None => return Err(GemmError::TooLarge),
    };
    if len > isize::MAX as usize {
        return Err(GemmError::TooLarge);
    }
    let ghost c0 = c@;
    proof {
        lemma_scratch_layout(o.m, o.n);
        T::Acc::constants_compare();
    }
    let ls: Layout = Layout { off: 0, rs: 1, cs: o.m as isize };
    let mut scratch: Vec<T::Acc> = vec![T::Acc::zero(); len];
    let ghost s0 = scratch@;
    let done = run::<Twin<T>>(
        ctx,
        par,
        mr,
        nr,
        q,
        o.m,
        o.k,
        o.n,
        T::Acc::one(),
        o.a,
        o.la,
        o.b,
        o.lb,
        T::Acc::zero(),
        scratch.as_mut_slice(),
        ls,
    );
    if let Err(e) = done {
        return Err(e);
    }
    let sweep: NarrowSweep<'_, T> = NarrowSweep {
        scratch: scratch.as_slice(),
        ls,
        alpha,
        beta,
        ash: alpha_status(alpha),
        bst: beta_status(beta),
    };
    for_each_cell(c, o.lc, o.m, o.n, &sweep);
    proof {
        let kc = request_spec::<Twin<T>>(mr, nr, q, o.m, o.k, o.n, o.la, None).kc(*ctx);
        let prod = strided_product::<Twin<T>, Identity>(
            o.m as int,
            o.k as int,
            o.n as int,
            kc,
            o.a@,
            o.la,
            o.b@,
            o.lb,
            T::Acc::one_spec(),
            T::Acc::zero_spec(),
            s0,
            ls,
            Identity,
        );
        assert(prod.done(scratch@));
        let con = plain_contraction(*o, o.k as int, alpha, beta);
        lemma_single_slice(o.k as int);
        let swept = |i: int, j: int, x: T, y: T| sweep.gives(i, j, x, y);
        let want = |i: int, j: int, x: T, y: T| y == T::narrow_spec(con.total(i, j, x));
        assert forall|i: int, j: int, x: T, y: T|
            0 <= i < o.m && 0 <= j < o.n && #[trigger] swept(i, j, x, y) implies want(
            i,
            j,
            x,
            y,
        ) by {
            let at = ls.idx(i, j);
            law_deep_k_equals_one_slice(prod.con(), i, j, s0[at]);
            assert(scratch@[at] == prod.con().total(i, j, s0[at]));
            assert(prod.con().a == con.a);
            assert(prod.con().b == con.b);
            lemma_mul_basics(con.kc);
            assert(con.slice_dot(i, j, 0) == scratch@[at]);
        }
        lemma_written_ext(c0, c@, o.lc, o.m as int, o.n as int, swept, want);
    }
    Ok(())
}

/// The routes of a plain product: a narrow type has the deep route as well.
pub open spec fn plain_routes<T: GemmScalar>(ctx: Context) -> Routes {
    Routes {
        gemv: true,
        deep: if T::out_is_acc_spec() {
            None
        } else {
            Some(
                (T::rhs_tile_spec(ctx.kernels).1, vstd::layout::size_of::<T>() as usize),
            )
        },
    }
}

/// Run a plain product of a narrow type: the deep route where it engages, and otherwise the
/// route that the product would take anyway.
fn run_typed_mixed<'a, T: GemmScalar>(
    ctx: &Context,
    par: Parallelism,
    alpha: T::Acc,
    o: Operands<'a, T>,
    beta: T::Acc,
    c: &mut [T],
) -> (r: Result<(), GemmError>)
    requires
        ctx.kernels.valid(),
        !T::out_is_acc_spec(),
        0 < o.m,
        0 < o.k,
        0 < o.n,
        o.valid(old(c)@.len() as int),
    ensures
        r is Ok <==> gemm_fits(*ctx, par, plain_routes::<T>(*ctx), o),
        r is Ok ==> written(
            old(c)@,
            final(c)@,
            o.lc,
            o.m as int,
            o.n as int,
            |i: int, j: int, x: T, y: T|
                y == T::narrow_spec(
                    gemm_total(*ctx, plain_routes::<T>(*ctx), o, alpha, beta, i, j, x),
                ),
        ),
        r matches Err(e) ==> e == GemmError::TooLarge && final(c)@ == old(c)@,
{
    let ghost c0 = c@;
    let (mr, nr): (usize, usize) = T::rhs_tile(&ctx.kernels);
    let q: usize = T::rhs_depth_multiple(&ctx.kernels);
    proof {
        T::depth_multiple_is_sound(ctx.kernels);
    }
    let routes: Routes = Routes { gemv: true, deep: Some((nr, core::mem::size_of::<T>())) };
    let mut run_o: Operands<'a, T> = o;
    let (route, swapped): (Route, bool) = choose_route(ctx, routes, &mut run_o);
    let ghost want = |i: int, j: int, x: T, y: T|
        y == T::narrow_spec(gemm_total(*ctx, plain_routes::<T>(*ctx), o, alpha, beta, i, j, x));
    match route {
        Route::DeepK => {
            proof {
                lemma_operands_transposed(o, c0.len() as int);
            }
            let r = run_deep_k_twin(ctx, par, mr, nr, q, alpha, &run_o, beta, c);
            proof {
                if r is Ok {
                    let con = plain_contraction(run_o, run_o.k as int, alpha, beta);
                    let deep = |i: int, j: int, x: T, y: T|
                        y == T::narrow_spec(con.total(i, j, x));
                    if swapped {
                        let want_t = |i: int, j: int, x: T, y: T| want(j, i, x, y);
                        lemma_written_ext(
                            c0,
                            c@,
                            run_o.lc,
                            run_o.m as int,
                            run_o.n as int,
                            deep,
                            want_t,
                        );
                        lemma_written_transposed(
                            c0,
                            c@,
                            o.lc,
                            o.m as int,
                            o.n as int,
                            want,
                        );
                    } else {
                        lemma_written_ext(
                            c0,
                            c@,
                            o.lc,
                            o.m as int,
                            o.n as int,
                            deep,
                            want,
                        );
                    }
                }
            }
            r
        },
        _ => {
            let r = run_typed_epi::<T, Identity>(ctx, par, true, alpha, o, beta, c, Identity);
            proof {
                let plain = Routes { gemv: true, deep: None };
                assert(route_spec(*ctx, plain, o) == route_spec(*ctx, routes, o));
                if r is Ok {
                    let got = |i: int, j: int, x: T, y: T|
                        <Identity as Epilogue<Plain<T>>>::stores(
                            &Identity,
                            gemm_total(*ctx, plain, o, alpha, beta, i, j, x),
                            i,
                            j,
                            y,
                        );
                    lemma_written_ext(c0, c@, o.lc, o.m as int, o.n as int, got, want);
                }
            }
            r
        },
    }
}

/// Run a plain product along its route.
pub fn run_plain<'a, T: GemmScalar>(
    ctx: &Context,
    par: Parallelism,
    alpha: T::Acc,
    o: Operands<'a, T>,
    beta: T::Acc,
    c: &mut [T],
) -> (r: Result<(), GemmError>)
    requires
        ctx.kernels.valid(),
        0 < o.m,
        0 < o.k,
        0 < o.n,
        o.valid(old(c)@.len() as int),
    ensures
        r is Ok <==> gemm_fits(*ctx, par, plain_routes::<T>(*ctx), o),
        r is Ok ==> written(
            old(c)@,
            final(c)@,
            o.lc,
            o.m as int,
            o.n as int,
            |i: int, j: int, x: T, y: T|
                y == T::narrow_spec(
                    gemm_total(*ctx, plain_routes::<T>(*ctx), o, alpha, beta, i, j, x),
                ),
        ),
        r matches Err(e) ==> e == GemmError::TooLarge && final(c)@ == old(c)@,
{
    if T::out_is_acc() {
        let ghost c0 = c@;
        let r = run_typed_epi::<T, Identity>(ctx, par, true, alpha, o, beta, c, Identity);
        proof {
            if r is Ok {
                let plain = Routes { gemv: true, deep: None };
                let got = |i: int, j: int, x: T, y: T|
                    <Identity as Epilogue<Plain<T>>>::stores(
                        &Identity,
                        gemm_total(*ctx, plain, o, alpha, beta, i, j, x),
                        i,
                        j,
                        y,
                    );
                let want = |i: int, j: int, x: T, y: T|
                    y == T::narrow_spec(
                        gemm_total(*ctx, plain_routes::<T>(*ctx), o, alpha, beta, i, j, x),
                    );
                lemma_written_ext(c0, c@, o.lc, o.m as int, o.n as int, got, want);
            }
        }
        r
    } else {
        run_typed_mixed(ctx, par, alpha, o, beta, c)
    }
}

/// `beta * old` as the degenerate product computes it: a zero `beta` overwrites with zero, and
/// a unit `beta` changes nothing.
pub open spec fn scaled_element<T: GemmScalar>(beta: T, old: T) -> T {
    if beta.is_zero_spec() {
        T::zero_spec()
    } else if beta.is_one_spec() {
        old
    } else {
        T::narrow_spec(beta.widen_spec().times_spec(old.widen_spec()))
    }
}

struct ScaleCell<T> {
    beta: T,
}

impl<T: GemmScalar> Cell<T> for ScaleCell<T> {
    closed spec fn takes(&self, i: int, j: int) -> bool {
        true
    }

    closed spec fn gives(&self, i: int, j: int, before: T, after: T) -> bool {
        after == scaled_element(self.beta, before)
    }

    fn update(&self, i: usize, j: usize, before: T) -> (after: T) {
        if self.beta.is_zero() {
            T::zero()
        } else if self.beta.is_one() {
            before
        } else {
            T::narrow(self.beta.widen().times(before.widen()))
        }
    }
}

/// `C <- beta*C`, the whole of a product whose `A*B` term vanishes.
pub fn scale_c<T: GemmScalar>(beta: T, c: &mut [T], lc: Layout, m: usize, n: usize)
    requires
        lc.fits(m as int, n as int, old(c)@.len() as int),
        lc.distinct(m as int, n as int),
    ensures
        written(
            old(c)@,
            final(c)@,
            lc,
            m as int,
            n as int,
            |i: int, j: int, x: T, y: T| y == scaled_element(beta, x),
        ),
{
    let ghost c0 = c@;
    let g: ScaleCell<T> = ScaleCell { beta };
    for_each_cell(c, lc, m, n, &g);
    proof {
        lemma_written_ext(
            c0,
            c@,
            lc,
            m as int,
            n as int,
            |i: int, j: int, x: T, y: T| g.gives(i, j, x, y),
            |i: int, j: int, x: T, y: T| y == scaled_element(beta, x),
        );
    }
}

/// A fully described homogeneous product.
pub struct Task<'a, T> {
    pub alpha: T,
    pub beta: T,
    pub ops: Operands<'a, T>,
}

/// Bring a product into the orientation in which it is run. Returns whether it was transposed.
pub fn orient_transpose<'a, T>(t: &mut Task<'a, T>) -> (r: bool)
    ensures
        r == old(t).ops.row_major(),
        *final(t) == (Task { ops: old(t).ops.oriented(), ..*old(t) }),
{
    orient_swap(&mut t.ops)
}

/// The `A*B` term of a product vanishes.
pub open spec fn vanishes<T: Scalar>(k: usize, alpha: T) -> bool {
    k == 0 || alpha.is_zero_spec()
}

/// What element `(i, j)` of the output holds after `C <- alpha*A*B + beta*C`, from the value
/// `old` that it had.
pub open spec fn gemm_element<'a, T: GemmScalar>(
    ctx: Context,
    o: Operands<'a, T>,
    alpha: T,
    beta: T,
    i: int,
    j: int,
    old: T,
) -> T {
    if vanishes(o.k, alpha) {
        scaled_element(beta, old)
    } else {
        T::narrow_spec(
            gemm_total(
                ctx,
                plain_routes::<T>(ctx),
                o,
                alpha.widen_spec(),
                beta.widen_spec(),
                i,
                j,
                old,
            ),
        )
    }
}

/// Whether a product can be run: it is degenerate, or no size of its route overflows.
pub open spec fn gemm_runs<'a, T: GemmScalar>(
    ctx: Context,
    par: Parallelism,
    o: Operands<'a, T>,
    alpha: T,
) -> bool {
    o.m == 0 || o.n == 0 || vanishes(o.k, alpha) || gemm_fits(
        ctx,
        par,
        plain_routes::<T>(ctx),
        o,
    )
}

/// Run a product: the degenerate cases here, everything else along its route.
pub fn execute<'a, T: GemmScalar>(
    ctx: &Context,
    task: Task<'a, T>,
    par: Parallelism,
    c: &mut [T],
) -> (r: Result<(), GemmError>)
    requires
        ctx.kernels.valid(),
        task.ops.valid(old(c)@.len() as int),
    ensures
        r is Ok <==> gemm_runs(*ctx, par, task.ops, task.alpha),
        r is Ok ==> written(
            old(c)@,
            final(c)@,
            task.ops.lc,
            task.ops.m as int,
            task.ops.n as int,
            |i: int, j: int, x: T, y: T|
                y == gemm_element(*ctx, task.ops, task.alpha, task.beta, i, j, x),
        ),
        r matches Err(e) ==> e == GemmError::TooLarge && final(c)@ == old(c)@,
{
    let ghost c0 = c@;
    let ghost o = task.ops;
    let ghost want = |i: int, j: int, x: T, y: T|
        y == gemm_element(*ctx, o, task.alpha, task.beta, i, j, x);
    if task.ops.m == 0 || task.ops.n == 0 {
        return Ok(());
    }
    if task.ops.k == 0 || task.alpha.is_zero() {
        scale_c(task.beta, c, task.ops.lc, task.ops.m, task.ops.n);
        proof {
            lemma_written_ext(
                c0,
                c@,
                o.lc,
                o.m as int,
                o.n as int,
                |i: int, j: int, x: T, y: T| y == scaled_element(task.beta, x),
                want,
            );
        }
        return Ok(());
    }
    let alpha: T::Acc = task.alpha.widen();
    let beta: T::Acc = task.beta.widen();
    let r = run_plain(ctx, par, alpha, task.ops, beta, c);
    proof {
        if r is Ok {
            lemma_written_ext(
                c0,
                c@,
                o.lc,
                o.m as int,
                o.n as int,
                |i: int, j: int, x: T, y: T|
                    y == T::narrow_spec(
                        gemm_total(*ctx, plain_routes::<T>(*ctx), o, alpha, beta, i, j, x),
                    ),
                want,
            );
        }
    }
    r
}

} // verus!
