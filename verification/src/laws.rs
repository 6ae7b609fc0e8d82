//! What holds across the entries: what decides a result, what is never read, when a product is
//! sure to run, and how views relate to their slices.

use vstd::arithmetic::mul::*;
use vstd::prelude::*;

use crate::api::MatRef;
use crate::arith::{lemma_div_up, max_int, min_int, round_up};
use crate::complex::{
    cplx_contraction, cplx_element, cplx_kc, cplx_runs, ComplexGemm, ComplexScalar,
};
use crate::dispatch::{route_spec, written, Operands, Route, Routes};
use crate::driver::request_spec;
use crate::element::{GemmScalar, Plain, Twin};
use crate::fused::{epi_routes, epi_runs, pre_epilogue};
use crate::gemm_i8::{int_element, int_runs};
use crate::homog::{
    gemm_element, gemm_runs, gemm_total, plain_contraction, plain_routes, route_kc, vanishes,
};
use crate::integer::IntGemm;
use crate::isa::{Cpu, ForcedIsa, IsaError};
use crate::kernel::{chain, KernelFamily};
use crate::layout::{lemma_transposed_idx, Layout};
use crate::limits::{
    law_blocks_are_whole_tiles, law_ordinary_request_fits, law_rows_never_overflow,
    ordinary_cache, wide,
};
use crate::packed_gemm::{int_packed_runs, lemma_split_positive, plain_request, PackedConsume};
use crate::parallel::{default_context, detected_context, Context, Parallelism, Target};
use crate::prepack::{
    int_rhs_geometry, int_rhs_packs, packed_request, prepack_fits,
    prepack_geometry, prepack_shape, rhs_geometry, rhs_packs,
};
use crate::probes::{cpuid_probe, law_nothing_read_is_the_fallback, probed, Readings};
use crate::product::Contraction;
use crate::quantize::QuantOut;
use crate::requant::{requant_runs, IntGemmQ};
use crate::scalar::Scalar;
use crate::tuning::KNOB_MAX;
use crate::{sysctl, sysfs};

verus! {

/// A description that leaves one value for every element leaves one output. No contract of an
/// entry mentions the parallelism in what it says of the elements, so two calls that differ in
/// nothing but the parallelism, and both run, write the same output bit for bit.
pub proof fn law_output_is_determined<O>(
    before: Seq<O>,
    after1: Seq<O>,
    after2: Seq<O>,
    lc: Layout,
    m: int,
    n: int,
    value: spec_fn(int, int, O) -> O,
)
    requires
        written(before, after1, lc, m, n, |i: int, j: int, x: O, y: O| y == value(i, j, x)),
        written(before, after2, lc, m, n, |i: int, j: int, x: O, y: O| y == value(i, j, x)),
    ensures
        after1 == after2,
{
    assert forall|x: int| 0 <= x < before.len() implies after1[x] == after2[x] by {
        if lc.covers(m, n, x) {
            let (i, j) = choose|i: int, j: int|
                0 <= i < m && 0 <= j < n && #[trigger] lc.idx(i, j) == x;
            assert(after1[lc.idx(i, j)] == value(i, j, before[lc.idx(i, j)]));
            assert(after2[lc.idx(i, j)] == value(i, j, before[lc.idx(i, j)]));
        }
    }
    assert(after1 =~= after2);
}

/// With a zero `beta` every slice leaves the same, whatever C held.
proof fn lemma_beta_zero<F: KernelFamily>(
    con: Contraction<F>,
    i: int,
    j: int,
    t: int,
    x: F::Out,
    y: F::Out,
)
    requires
        con.beta.is_zero_spec(),
        t >= 0,
    ensures
        con.staged(i, j, t, x) == con.staged(i, j, t, y),
        con.partial(i, j, t + 1, x) == con.partial(i, j, t + 1, y),
    decreases t,
{
    if t > 0 {
        lemma_beta_zero(con, i, j, t - 1, x, y);
    }
}

/// With a zero `beta` the old contents of C do not enter the accumulator, however the depth is
/// split.
pub proof fn law_beta_zero_does_not_read_c<F: KernelFamily>(
    con: Contraction<F>,
    i: int,
    j: int,
    x: F::Out,
    y: F::Out,
)
    requires
        con.k > 0,
        con.kc > 0,
        con.beta.is_zero_spec(),
    ensures
        con.total(i, j, x) == con.total(i, j, y),
{
    lemma_div_up(con.k, con.kc);
    lemma_beta_zero(con, i, j, con.slices() - 1, x, y);
}

/// With a zero `beta` the plain product, and any product with an epilogue, does not depend on the
/// old contents of C.
pub proof fn law_gemm_beta_zero_does_not_read_c<'a, T: GemmScalar>(
    ctx: Context,
    o: Operands<'a, T>,
    alpha: T,
    beta: T,
    i: int,
    j: int,
    x: T,
    y: T,
)
    requires
        beta.is_zero_spec(),
    ensures
        gemm_element(ctx, o, alpha, beta, i, j, x) == gemm_element(
            ctx,
            o,
            alpha,
            beta,
            i,
            j,
            y,
        ),
        pre_epilogue(ctx, o, alpha, beta, i, j, x) == pre_epilogue(
            ctx,
            o,
            alpha,
            beta,
            i,
            j,
            y,
        ),
{
    T::zero_widens_to_zero(beta);
    if !vanishes(o.k, alpha) {
        lemma_total_beta_zero(ctx, plain_routes::<T>(ctx), o, alpha, beta, i, j, x, y);
        lemma_total_beta_zero(ctx, epi_routes::<T>(), o, alpha, beta, i, j, x, y);
    }
}

proof fn lemma_total_beta_zero<'a, T: GemmScalar>(
    ctx: Context,
    routes: Routes,
    o: Operands<'a, T>,
    alpha: T,
    beta: T,
    i: int,
    j: int,
    x: T,
    y: T,
)
    requires
        o.k > 0,
        beta.widen_spec().is_zero_spec(),
    ensures
        gemm_total(ctx, routes, o, alpha.widen_spec(), beta.widen_spec(), i, j, x) == gemm_total(
            ctx,
            routes,
            o,
            alpha.widen_spec(),
            beta.widen_spec(),
            i,
            j,
            y,
        ),
{
    let (a, b) = (alpha.widen_spec(), beta.widen_spec());
    let route = route_spec(ctx, routes, o);
    if route != Route::Gemv && o.row_major() {
        let t = o.transposed();
        law_beta_zero_does_not_read_c(
            plain_contraction(t, route_kc(ctx, route, t), a, b),
            j,
            i,
            x,
            y,
        );
    } else {
        law_beta_zero_does_not_read_c(
            plain_contraction(o, route_kc(ctx, route, o), a, b),
            i,
            j,
            x,
            y,
        );
    }
}

/// With a zero `beta` the integer product does not depend on the old contents of C.
pub proof fn law_int_beta_zero_does_not_read_c<'a>(
    o: Operands<'a, i8>,
    alpha: i32,
    i: int,
    j: int,
    x: i32,
    y: i32,
)
    ensures
        int_element(o, alpha, 0, i, j, x) == int_element(o, alpha, 0, i, j, y),
{
    lemma_mul_basics(x as int);
    lemma_mul_basics(y as int);
}

/// With a zero `beta` the complex product does not depend on the old contents of C.
pub proof fn law_complex_beta_zero_does_not_read_c<'a, T: ComplexScalar>(
    ctx: Context,
    o: Operands<'a, T>,
    conj_a: bool,
    conj_b: bool,
    alpha: T,
    beta: T,
    i: int,
    j: int,
    x: T,
    y: T,
)
    requires
        beta.is_zero_spec(),
    ensures
        cplx_element(ctx, o, conj_a, conj_b, alpha, beta, i, j, x) == cplx_element(
            ctx,
            o,
            conj_a,
            conj_b,
            alpha,
            beta,
            i,
            j,
            y,
        ),
{
    if !vanishes(o.k, alpha) {
        if o.row_major() {
            let t = o.transposed();
            law_beta_zero_does_not_read_c(
                cplx_contraction(t, cplx_kc(ctx, t), conj_b, conj_a, alpha, beta),
                j,
                i,
                x,
                y,
            );
        } else {
            law_beta_zero_does_not_read_c(
                cplx_contraction(o, cplx_kc(ctx, o), conj_a, conj_b, alpha, beta),
                i,
                j,
                x,
                y,
            );
        }
    }
}

/// With a zero `beta` a product with a prepacked operand does not depend on the old contents of C.
pub proof fn law_packed_beta_zero_does_not_read_c<'a, T: GemmScalar>(
    ctx: Context,
    req: PackedConsume<'a, T>,
    i: int,
    j: int,
    x: T,
    y: T,
)
    requires
        req.packed.geometry().kc > 0,
        req.beta.is_zero_spec(),
    ensures
        req.element(ctx, i, j, x) == req.element(ctx, i, j, y),
        req.pre_epilogue(ctx, i, j, x) == req.pre_epilogue(ctx, i, j, y),
{
    T::zero_widens_to_zero(req.beta);
    if !vanishes(req.packed.geometry().k, req.alpha) {
        lemma_split_positive::<T>(ctx, req.m, req.la, req.packed.geometry());
        law_beta_zero_does_not_read_c(req.con(ctx), i, j, x, y);
    }
}

/// A chain depends on the factors within its depth alone.
proof fn lemma_chain_ext<F: KernelFamily>(
    init: F::Acc,
    x: spec_fn(int) -> F::Lhs,
    y: spec_fn(int) -> F::Rhs,
    x2: spec_fn(int) -> F::Lhs,
    y2: spec_fn(int) -> F::Rhs,
    lo: int,
    hi: int,
)
    requires
        forall|p: int| lo <= p < hi ==> #[trigger] x(p) == x2(p),
        forall|p: int| lo <= p < hi ==> #[trigger] y(p) == y2(p),
    ensures
        chain::<F>(init, x, y, lo, hi) == chain::<F>(init, x2, y2, lo, hi),
    decreases hi - lo,
{
    if lo < hi {
        lemma_chain_ext::<F>(init, x, y, x2, y2, lo, hi - 1);
        assert(x(hi - 1) == x2(hi - 1));
        assert(y(hi - 1) == y2(hi - 1));
    }
}

/// The slices of two products with the same row and the same column are the same.
proof fn lemma_staged_ext<F: KernelFamily>(
    con: Contraction<F>,
    other: Contraction<F>,
    i: int,
    j: int,
    i2: int,
    j2: int,
    t: int,
    old: F::Out,
)
    requires
        con.k == other.k,
        con.kc == other.kc,
        con.kc > 0,
        con.alpha == other.alpha,
        con.beta == other.beta,
        t >= 0,
        forall|p: int| 0 <= p < con.k ==> #[trigger] (con.a)(i, p) == (other.a)(i2, p),
        forall|p: int| 0 <= p < con.k ==> #[trigger] (con.b)(j, p) == (other.b)(j2, p),
    ensures
        con.staged(i, j, t, old) == other.staged(i2, j2, t, old),
        con.partial(i, j, t + 1, old) == other.partial(i2, j2, t + 1, old),
    decreases t,
{
    let x = |p: int| (con.a)(i, p);
    let y = |p: int| (con.b)(j, p);
    let x2 = |p: int| (other.a)(i2, p);
    let y2 = |p: int| (other.b)(j2, p);
    let lo = t * con.kc;
    let hi = min_int((t + 1) * con.kc, con.k);
    assert(lo >= 0) by (nonlinear_arith)
        requires
            lo == t * con.kc,
            t >= 0,
            con.kc > 0,
    ;
    assert forall|p: int| lo <= p < hi implies #[trigger] x(p) == x2(p) by {
        assert((con.a)(i, p) == (other.a)(i2, p));
    }
    assert forall|p: int| lo <= p < hi implies #[trigger] y(p) == y2(p) by {
        assert((con.b)(j, p) == (other.b)(j2, p));
    }
    lemma_chain_ext::<F>(F::Acc::zero_spec(), x, y, x2, y2, lo, hi);
    assert(con.slice_dot(i, j, t) == other.slice_dot(i2, j2, t));
    if t > 0 {
        lemma_staged_ext(con, other, i, j, i2, j2, t - 1, old);
        let prev = F::widen_spec(con.partial(i, j, t, old));
        lemma_chain_ext::<F>(prev, x, y, x2, y2, lo, hi);
    }
}

/// An output depends on its row of A, its column of B, the scales, the depth split and what it
/// held, and on nothing else.
pub proof fn law_output_depends_on_its_row_and_column<F: KernelFamily>(
    con: Contraction<F>,
    other: Contraction<F>,
    i: int,
    j: int,
    i2: int,
    j2: int,
    old: F::Out,
)
    requires
        con.k == other.k,
        con.k > 0,
        con.kc == other.kc,
        con.kc > 0,
        con.alpha == other.alpha,
        con.beta == other.beta,
        forall|p: int| 0 <= p < con.k ==> #[trigger] (con.a)(i, p) == (other.a)(i2, p),
        forall|p: int| 0 <= p < con.k ==> #[trigger] (con.b)(j, p) == (other.b)(j2, p),
    ensures
        con.total(i, j, old) == other.total(i2, j2, old),
{
    lemma_div_up(con.k, con.kc);
    lemma_staged_ext(con, other, i, j, i2, j2, con.slices() - 1, old);
}

/// `q` is the product `o`, over slices that begin where the views of `o` begin.
pub open spec fn rebased<'a, 'b, T>(o: Operands<'a, T>, q: Operands<'b, T>) -> bool {
    &&& q.m == o.m
    &&& q.k == o.k
    &&& q.n == o.n
    &&& q.la == (Layout { off: 0, ..o.la })
    &&& q.lb == (Layout { off: 0, ..o.lb })
    &&& q.lc == (Layout { off: 0, ..o.lc })
    &&& o.la.off <= o.a@.len()
    &&& o.lb.off <= o.b@.len()
    &&& q.a@ == o.a@.skip(o.la.off as int)
    &&& q.b@ == o.b@.skip(o.lb.off as int)
}

/// A view that begins inside a slice, and the same view of the rest of the slice.
proof fn lemma_rebased_view<T>(s: Seq<T>, l: Layout, i: int, j: int)
    requires
        l.off <= s.len(),
        0 <= (Layout { off: 0, ..l }).idx(i, j) < s.len() - l.off,
    ensures
        s.skip(l.off as int)[(Layout { off: 0, ..l }).idx(i, j)] == s[l.idx(i, j)],
{
    reveal(Layout::idx);
}

/// Where a product lies does not show in its result. So an element of a batch holds what a
/// product of its own, over slices that begin at the element, would have stored.
pub proof fn law_position_does_not_show<'a, 'b, T: GemmScalar>(
    ctx: Context,
    o: Operands<'a, T>,
    q: Operands<'b, T>,
    alpha: T,
    beta: T,
    i: int,
    j: int,
    old: T,
)
    requires
        rebased(o, q),
        q.la.fits(q.m as int, q.k as int, q.a@.len() as int),
        q.lb.fits(q.k as int, q.n as int, q.b@.len() as int),
        0 <= i < o.m,
        0 <= j < o.n,
    ensures
        gemm_element(ctx, o, alpha, beta, i, j, old) == gemm_element(
            ctx,
            q,
            alpha,
            beta,
            i,
            j,
            old,
        ),
        forall|par: Parallelism|
            #[trigger] gemm_runs(ctx, par, o, alpha) == gemm_runs(ctx, par, q, alpha),
{
    assert(o.oriented().la.rs == q.oriented().la.rs);
    assert(o.oriented().la.cs == q.oriented().la.cs);
    if !vanishes(o.k, alpha) {
        let (a, b) = (alpha.widen_spec(), beta.widen_spec());
        let routes = plain_routes::<T>(ctx);
        let route = route_spec(ctx, routes, o);
        assert(route_spec(ctx, routes, q) == route);
        assert forall|p: int| 0 <= p < o.k implies #[trigger] q.a@[q.la.idx(i, p)]
            == o.a@[o.la.idx(i, p)] by {
            lemma_rebased_view(o.a@, o.la, i, p);
        }
        assert forall|p: int| 0 <= p < o.k implies #[trigger] q.b@[q.lb.idx(p, j)]
            == o.b@[o.lb.idx(p, j)] by {
            lemma_rebased_view(o.b@, o.lb, p, j);
        }
        if route != Route::Gemv && o.row_major() {
            let (t, u) = (o.transposed(), q.transposed());
            let con = plain_contraction(t, route_kc(ctx, route, t), a, b);
            let other = plain_contraction(u, route_kc(ctx, route, u), a, b);
            assert forall|p: int| 0 <= p < o.k implies #[trigger] (con.a)(j, p) == (other.a)(
                j,
                p,
            ) by {
                lemma_transposed_idx(o.lb, j, p);
                lemma_transposed_idx(q.lb, j, p);
                assert(q.b@[q.lb.idx(p, j)] == o.b@[o.lb.idx(p, j)]);
            }
            assert forall|p: int| 0 <= p < o.k implies #[trigger] (con.b)(i, p) == (other.b)(
                i,
                p,
            ) by {
                lemma_transposed_idx(o.la, p, i);
                lemma_transposed_idx(q.la, p, i);
                assert(q.a@[q.la.idx(i, p)] == o.a@[o.la.idx(i, p)]);
            }
            law_output_depends_on_its_row_and_column(con, other, j, i, j, i, old);
        } else {
            let con = plain_contraction(o, route_kc(ctx, route, o), a, b);
            let other = plain_contraction(q, route_kc(ctx, route, q), a, b);
            assert forall|p: int| 0 <= p < o.k implies #[trigger] (con.a)(i, p) == (other.a)(
                i,
                p,
            ) by {
                assert(q.a@[q.la.idx(i, p)] == o.a@[o.la.idx(i, p)]);
            }
            assert forall|p: int| 0 <= p < o.k implies #[trigger] (con.b)(j, p) == (other.b)(
                j,
                p,
            ) by {
                assert(q.b@[q.lb.idx(p, j)] == o.b@[o.lb.idx(p, j)]);
            }
            law_output_depends_on_its_row_and_column(con, other, i, j, i, j, old);
        }
    }
}

/// A transposed operand needs no copy: a view with its dimensions and strides exchanged holds
/// the transposed elements.
pub proof fn law_transposed_view<'a, T>(a: MatRef<'a, T>, i: int, j: int)
    ensures
        (MatRef { data: a.data, rows: a.cols, cols: a.rows, rs: a.cs, cs: a.rs }).at(j, i)
            == a.at(i, j),
{
    lemma_transposed_idx(a.layout_spec(), j, i);
}

/// A row-major view holds its rows one after another.
pub proof fn law_row_major_view<'a, T>(
    data: &'a [T],
    rows: usize,
    cols: usize,
    i: int,
    j: int,
)
    requires
        cols <= isize::MAX,
    ensures
        (MatRef { data, rows, cols, rs: cols as isize, cs: 1 }).at(i, j) == data@[i * cols + j],
{
    reveal(Layout::idx);
}

/// A column-major view holds its columns one after another.
pub proof fn law_col_major_view<'a, T>(
    data: &'a [T],
    rows: usize,
    cols: usize,
    i: int,
    j: int,
)
    requires
        rows <= isize::MAX,
    ensures
        (MatRef { data, rows, cols, rs: 1, cs: rows as isize }).at(i, j) == data@[i + j * rows],
{
    reveal(Layout::idx);
}

/// A column-major view is the transpose of the row-major view of the same slice with the dimensions
/// exchanged: nothing is copied, and element `(i, j)` of one is element `(j, i)` of the other.
pub proof fn law_col_major_is_transposed_row_major<'a, T>(
    data: &'a [T],
    rows: usize,
    cols: usize,
    i: int,
    j: int,
)
    requires
        rows * cols <= data@.len() <= usize::MAX,
        0 <= i < rows,
        0 <= j < cols,
    ensures
        (MatRef { data, rows, cols, rs: 1, cs: rows as isize }).at(i, j) == (MatRef {
            data,
            rows: cols,
            cols: rows,
            rs: rows as isize,
            cs: 1,
        }).at(j, i),
        (MatRef { data, rows, cols, rs: 1, cs: rows as isize }).at(i, j) == data@[i + j * rows],
{
    reveal(Layout::idx);
    if cols >= 2 {
        assert(rows <= isize::MAX) by (nonlinear_arith)
            requires
                rows * cols <= usize::MAX,
                cols >= 2,
                usize::MAX <= 2 * isize::MAX + 1,
                rows >= 0,
        ;
    } else {
        lemma_mul_basics(rows as int);
        lemma_mul_basics((rows as isize) as int);
    }
}

/// A product of an ordinary size: at most `2^24` in each dimension.
pub open spec fn ordinary_size<'a, T>(o: Operands<'a, T>) -> bool {
    &&& o.m <= 0x100_0000
    &&& o.k <= 0x100_0000
    &&& o.n <= 0x100_0000
}

/// A tile of an ordinary size.
pub open spec fn ordinary_tile(t: (usize, usize)) -> bool {
    &&& 1 <= t.0 <= 256
    &&& 1 <= t.1 <= 256
}

/// A plain product of an ordinary size, or one with an epilogue, is never refused as too large on
/// an ordinary machine, whatever the knobs and the parallelism are.
pub proof fn law_ordinary_gemm_runs<'a, T: GemmScalar>(
    ctx: Context,
    par: Parallelism,
    o: Operands<'a, T>,
    alpha: T,
)
    requires
        wide(),
        ordinary_cache(ctx.machine.cache),
        ctx.kernels.valid(),
        ordinary_tile(T::rhs_tile_spec(ctx.kernels)),
        ordinary_size(o),
        vstd::layout::size_of::<T>() as usize <= 256,
    ensures
        gemm_runs(ctx, par, o, alpha),
        epi_runs(ctx, par, o, alpha),
{
    if o.m > 0 && o.n > 0 && !vanishes(o.k, alpha) {
        let t = o.oriented();
        let (mr, nr) = T::rhs_tile_spec(ctx.kernels);
        let q = T::rhs_depth_multiple_spec(ctx.kernels);
        T::depth_multiple_is_sound(ctx.kernels);
        law_ordinary_request_fits(
            ctx,
            par,
            request_spec::<Plain<T>>(mr, nr, q, t.m, t.k, t.n, t.la, None),
        );
        law_ordinary_request_fits(
            ctx,
            par,
            request_spec::<Twin<T>>(mr, nr, q, t.m, t.k, t.n, t.la, None),
        );
        let (m, n) = (t.m as int, t.n as int);
        assert(m * n <= 0x100_0000 * 0x100_0000) by (nonlinear_arith)
            requires
                0 <= m <= 0x100_0000,
                0 <= n <= 0x100_0000,
        ;
    }
}

/// An integer product of an ordinary size, plain or requantized, is never refused as too large on
/// an ordinary machine.
pub proof fn law_ordinary_int_runs<'a, O: QuantOut>(
    ctx: Context,
    par: Parallelism,
    o: Operands<'a, i8>,
    alpha: i32,
)
    requires
        wide(),
        ordinary_cache(ctx.machine.cache),
        ordinary_tile((ctx.kernels.byte.mr, ctx.kernels.byte.nr)),
        ordinary_size(o),
    ensures
        int_runs(ctx, par, o, alpha),
        requant_runs::<O>(ctx, par, o),
{
    broadcast use vstd::layout::layout_of_primitives;

    if o.m > 0 && o.n > 0 && o.k > 0 {
        let t = o.oriented();
        let (mr, nr) = (ctx.kernels.byte.mr, ctx.kernels.byte.nr);
        assert(vstd::layout::size_of::<i8>() == 1);
        law_ordinary_request_fits(
            ctx,
            par,
            request_spec::<IntGemm<true>>(mr, nr, 4, t.m, t.k, t.n, t.la, None),
        );
        law_ordinary_request_fits(
            ctx,
            par,
            request_spec::<IntGemm<false>>(mr, nr, 1, t.m, t.k, t.n, t.la, None),
        );
        law_ordinary_request_fits(
            ctx,
            par,
            request_spec::<IntGemmQ<O, true>>(mr, nr, 4, t.m, t.k, t.n, t.la, None),
        );
        law_ordinary_request_fits(
            ctx,
            par,
            request_spec::<IntGemmQ<O, false>>(mr, nr, 1, t.m, t.k, t.n, t.la, None),
        );
    }
}

/// A complex product of an ordinary size is never refused as too large on an ordinary machine.
pub proof fn law_ordinary_complex_runs<'a, T: ComplexScalar>(
    ctx: Context,
    par: Parallelism,
    o: Operands<'a, T>,
    alpha: T,
)
    requires
        wide(),
        ordinary_cache(ctx.machine.cache),
        ordinary_tile(T::cplx_tile_spec(ctx.kernels)),
        ordinary_size(o),
        vstd::layout::size_of::<T>() as usize <= 256,
    ensures
        cplx_runs(ctx, par, o, alpha),
{
    if o.m > 0 && o.n > 0 && !vanishes(o.k, alpha) {
        let t = o.oriented();
        let (mr, nr) = T::cplx_tile_spec(ctx.kernels);
        law_ordinary_request_fits(
            ctx,
            par,
            request_spec::<ComplexGemm<T, false, false>>(mr, nr, 1, t.m, t.k, t.n, t.la, None),
        );
    }
}

/// What an operand of an ordinary size is packed into.
proof fn lemma_ordinary_packing(
    ctx: Context,
    mr: usize,
    nr: usize,
    sizeof: int,
    k: usize,
    n: usize,
    q: usize,
    single: bool,
)
    requires
        wide(),
        ordinary_cache(ctx.machine.cache),
        ordinary_tile((mr, nr)),
        1 <= sizeof <= 256,
        1 <= k <= 0x100_0000,
        1 <= n <= 0x100_0000,
        1 <= q <= 64,
        ctx.tuning.tiny_block_dim <= KNOB_MAX,
    ensures
        prepack_fits(ctx, mr, nr, sizeof, k, n, q),
        prepack_geometry(ctx, mr, nr, sizeof, k, n, q, single).kc <= 0x100_0000,
        prepack_geometry(ctx, mr, nr, sizeof, k, n, q, single).nc <= 0x200_0000,
{
    let s = prepack_shape(ctx, mr, nr, sizeof, k, n);
    let nc = ctx.machine.cache.blocking_spec(ctx.tuning, s).2;
    law_rows_never_overflow(ctx.machine.cache, ctx.tuning, s);
    law_blocks_are_whole_tiles(ctx.machine.cache, ctx.tuning, s);
    lemma_div_up(n as int, nr as int);
    lemma_div_up(k as int, q as int);
    lemma_div_up(nc, nr as int);
    let (cols, depth) = (round_up(n as int, nr as int), round_up(k as int, q as int));
    assert(cols * depth <= 0x200_0000 * 0x200_0000) by (nonlinear_arith)
        requires
            0 <= cols <= 0x200_0000,
            0 <= depth <= 0x200_0000,
    ;
}

/// An operand of an ordinary size is never refused by the packing, and a product with the packed
/// operand is never refused as too large, whatever the parallelism and the knobs are.
pub proof fn law_ordinary_packed_runs<'a, T: GemmScalar>(
    ctx: Context,
    par: Parallelism,
    req: PackedConsume<'a, T>,
)
    requires
        wide(),
        ordinary_cache(ctx.machine.cache),
        ctx.kernels.valid(),
        ordinary_tile(T::rhs_tile_spec(ctx.kernels)),
        ctx.tuning.tiny_block_dim <= KNOB_MAX,
        req.m <= 0x100_0000,
        req.packed.geometry().k <= 0x100_0000,
        req.packed.geometry().n <= 0x100_0000,
        req.packed.geometry() == rhs_geometry::<T>(
            ctx,
            req.packed.geometry().k,
            req.packed.geometry().n,
        ),
        vstd::layout::size_of::<T>() as usize <= 256,
    ensures
        rhs_packs::<T>(ctx, req.packed.geometry().k, req.packed.geometry().n),
        req.runs(ctx, par),
{
    let g = req.packed.geometry();
    if g.k > 0 && g.n > 0 {
        let (mr, nr) = T::rhs_tile_spec(ctx.kernels);
        let sizeof = max_int(vstd::layout::size_of::<T>() as usize as int, 1);
        let q = T::rhs_depth_multiple_spec(ctx.kernels);
        T::depth_multiple_is_sound(ctx.kernels);
        lemma_ordinary_packing(ctx, mr, nr, sizeof, g.k, g.n, q, !T::out_is_acc_spec());
        if req.m > 0 {
            law_ordinary_request_fits(
                ctx,
                par,
                packed_request::<Plain<T>>(mr, req.m, req.la, g),
            );
            law_ordinary_request_fits(
                ctx,
                par,
                plain_request::<T>(ctx, req.m, req.la, g),
            );
            let (k, n) = (g.k as int, g.n as int);
            assert(k * n <= 0x100_0000 * 0x100_0000) by (nonlinear_arith)
                requires
                    0 <= k <= 0x100_0000,
                    0 <= n <= 0x100_0000,
            ;
        }
    }
}

/// The same of an integer operand.
pub proof fn law_ordinary_int_packed_runs(
    ctx: Context,
    par: Parallelism,
    m: usize,
    la: Layout,
    k: usize,
    n: usize,
    alpha: i32,
)
    requires
        wide(),
        ordinary_cache(ctx.machine.cache),
        ctx.kernels.valid(),
        ordinary_tile((ctx.kernels.byte.mr, ctx.kernels.byte.nr)),
        ctx.tuning.tiny_block_dim <= KNOB_MAX,
        m <= 0x100_0000,
        k <= 0x100_0000,
        n <= 0x100_0000,
    ensures
        int_rhs_packs(ctx, k, n),
        int_packed_runs(ctx, par, m, la, int_rhs_geometry(ctx, k, n), alpha),
{
    broadcast use vstd::layout::layout_of_primitives;

    if k > 0 && n > 0 {
        let d = ctx.kernels.byte;
        let g = int_rhs_geometry(ctx, k, n);
        assert(vstd::layout::size_of::<i8>() == 1);
        lemma_ordinary_packing(
            ctx,
            d.mr,
            d.nr,
            1,
            k,
            n,
            d.depth_multiple,
            d.depth_multiple > 1,
        );
        if m > 0 {
            law_ordinary_request_fits(
                ctx,
                par,
                packed_request::<IntGemm<true>>(d.mr, m, la, g),
            );
            law_ordinary_request_fits(
                ctx,
                par,
                packed_request::<IntGemm<false>>(d.mr, m, la, g),
            );
        }
    }
}

/// The default context is the one that is detected where nothing can be read, on a target with
/// scalar code alone and one worker.
pub proof fn law_default_context_is_detected_of_nothing(r: Readings, cpu: Cpu)
    requires
        cpuid_probe(r.leaves) is None,
        sysfs::topology_of(r.entries@) is None,
        sysctl::topology_of(r.keys) is None,
        r.page_size == 4096,
        cpu.target == Target::Other,
    ensures
        detected_context(probed(r), ForcedIsa::Auto, cpu, 1) == Ok::<Context, IsaError>(
            default_context(),
        ),
{
    law_nothing_read_is_the_fallback(r);
}

/// The default context is an ordinary machine.
pub proof fn law_default_context_is_ordinary()
    ensures
        ordinary_cache(default_context().machine.cache),
        ordinary_tile(i32::rhs_tile_spec(default_context().kernels)),
        ordinary_tile(
            (default_context().kernels.byte.mr, default_context().kernels.byte.nr),
        ),
        default_context().kernels.valid(),
        default_context().tuning.tiny_block_dim <= KNOB_MAX,
{
}

} // verus!
