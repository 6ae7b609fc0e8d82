//! Exact arithmetic: over a ring, a product is `alpha*A*B + beta*C` in the ring, however it was
//! split, packed, oriented or routed.

use vstd::arithmetic::mul::*;
use vstd::prelude::*;

use crate::arith::{lemma_div_up, min_int};
use crate::complex::{
    cplx_contraction, cplx_element, cplx_kc, op, ComplexGemm, ComplexScalar, GaussI32,
};
use crate::dispatch::{route_spec, Operands, Route};
use crate::element::{GemmScalar, Plain};
use crate::homog::{gemm_element, plain_contraction, plain_routes, route_kc};
use crate::kernel::{blend, dot_range, scaled, KernelFamily};
use crate::layout::lemma_transposed_idx;
use crate::packed_gemm::{lemma_split_positive, PackedConsume};
use crate::parallel::Context;
use crate::product::Contraction;
use crate::scalar::{
    lemma_wrap_i32, lemma_wrap_i32_eq, lemma_wrap_i32_product, lemma_wrap_i32_sum, wrap_i32, Scalar,
};

verus! {

/// A scalar whose arithmetic is that of a commutative ring.
pub trait Ring: Scalar {
    /// The sum is associative and commutative, and zero is neutral.
    proof fn sums(x: Self, y: Self, z: Self)
        ensures
            x.plus_spec(y) == y.plus_spec(x),
            x.plus_spec(y).plus_spec(z) == x.plus_spec(y.plus_spec(z)),
            x.plus_spec(Self::zero_spec()) == x,
    ;

    /// The product is commutative and distributes over the sum. What passes as one is neutral,
    /// and what passes as zero annihilates.
    proof fn products(x: Self, y: Self, z: Self)
        ensures
            x.times_spec(y) == y.times_spec(x),
            x.times_spec(y.plus_spec(z)) == x.times_spec(y).plus_spec(x.times_spec(z)),
            x.is_one_spec() ==> x.times_spec(y) == y,
            x.is_zero_spec() ==> x.times_spec(y) == Self::zero_spec(),
            x.times_spec(Self::zero_spec()) == Self::zero_spec(),
    ;
}

impl Ring for i32 {
    proof fn sums(x: i32, y: i32, z: i32) {
        lemma_wrap_i32_sum(x + y, z as int);
        lemma_wrap_i32_sum(x as int, y + z);
        lemma_wrap_i32(x as int);
    }

    proof fn products(x: i32, y: i32, z: i32) {
        lemma_mul_is_commutative(x as int, y as int);
        lemma_wrap_i32_product(x as int, y + z);
        lemma_wrap_i32_sum(x * y, x * z);
        assert(x * (y + z) == x * y + x * z) by (nonlinear_arith);
        lemma_mul_basics(x as int);
        lemma_mul_basics(y as int);
        lemma_wrap_i32(y as int);
        lemma_wrap_i32(0);
    }
}

/// Two residues with the same integer behind them, written as a difference of products.
proof fn lemma_wrap_diff(a: int, b: int)
    ensures
        wrap_i32(wrap_i32(a) - wrap_i32(b)) == wrap_i32(a - b),
        wrap_i32(wrap_i32(a) + wrap_i32(b)) == wrap_i32(a + b),
{
    lemma_wrap_i32(a);
    lemma_wrap_i32(b);
    lemma_wrap_i32_eq(wrap_i32(a) - wrap_i32(b), a - b);
    lemma_wrap_i32_eq(wrap_i32(a) + wrap_i32(b), a + b);
}

impl Ring for GaussI32 {
    proof fn sums(x: GaussI32, y: GaussI32, z: GaussI32) {
        i32::sums(x.re, y.re, z.re);
        i32::sums(x.im, y.im, z.im);
    }

    proof fn products(x: GaussI32, y: GaussI32, z: GaussI32) {
        lemma_mul_is_commutative(x.re as int, y.re as int);
        lemma_mul_is_commutative(x.im as int, y.im as int);
        lemma_mul_is_commutative(x.re as int, y.im as int);
        lemma_mul_is_commutative(x.im as int, y.re as int);
        let (a, b) = (x.re as int, x.im as int);
        let (c, d) = (y.re as int, y.im as int);
        let (e, f) = (z.re as int, z.im as int);
        lemma_wrap_i32_product(a, c + e);
        lemma_wrap_i32_product(b, d + f);
        lemma_wrap_i32_product(a, d + f);
        lemma_wrap_i32_product(b, c + e);
        lemma_wrap_diff(a * (c + e), b * (d + f));
        lemma_wrap_diff(a * (d + f), b * (c + e));
        lemma_wrap_diff(a * c, b * d);
        lemma_wrap_diff(a * e, b * f);
        lemma_wrap_diff(a * d, b * c);
        lemma_wrap_diff(a * f, b * e);
        lemma_wrap_diff(a * c - b * d, a * e - b * f);
        lemma_wrap_diff(a * d + b * c, a * f + b * e);
        assert(a * (c + e) - b * (d + f) == (a * c - b * d) + (a * e - b * f)) by (nonlinear_arith);
        assert(a * (d + f) + b * (c + e) == (a * d + b * c) + (a * f + b * e)) by (nonlinear_arith);
        lemma_mul_basics(a);
        lemma_mul_basics(b);
        lemma_mul_basics(c);
        lemma_mul_basics(d);
        lemma_wrap_i32(c);
        lemma_wrap_i32(d);
        lemma_wrap_i32(0);
    }
}

/// The ring sum of the terms `f(lo), .., f(hi - 1)`.
pub open spec fn ring_sum<R: Ring>(f: spec_fn(int) -> R, lo: int, hi: int) -> R
    decreases hi - lo,
{
    if hi <= lo {
        R::zero_spec()
    } else {
        ring_sum(f, lo, hi - 1).plus_spec(f(hi - 1))
    }
}

/// A sum depends on its terms alone.
pub proof fn lemma_ring_sum_ext<R: Ring>(
    f: spec_fn(int) -> R,
    g: spec_fn(int) -> R,
    lo: int,
    hi: int,
)
    requires
        forall|p: int| lo <= p < hi ==> #[trigger] f(p) == g(p),
    ensures
        ring_sum(f, lo, hi) == ring_sum(g, lo, hi),
    decreases hi - lo,
{
    if lo < hi {
        lemma_ring_sum_ext(f, g, lo, hi - 1);
        assert(f(hi - 1) == g(hi - 1));
    }
}

/// A sum can be split anywhere.
proof fn lemma_ring_sum_split<R: Ring>(f: spec_fn(int) -> R, lo: int, mid: int, hi: int)
    requires
        lo <= mid <= hi,
    ensures
        ring_sum(f, lo, mid).plus_spec(ring_sum(f, mid, hi)) == ring_sum(f, lo, hi),
    decreases hi - mid,
{
    if mid < hi {
        lemma_ring_sum_split(f, lo, mid, hi - 1);
        R::sums(ring_sum(f, lo, mid), ring_sum(f, mid, hi - 1), f(hi - 1));
    } else {
        R::sums(ring_sum(f, lo, mid), R::zero_spec(), R::zero_spec());
    }
}

/// The terms of output `(i, j)`.
pub open spec fn terms<F: KernelFamily>(
    con: Contraction<F>,
    mul_terms: spec_fn(F::Lhs, F::Rhs) -> F::Acc,
    i: int,
    j: int,
) -> spec_fn(int) -> F::Acc {
    |p: int| mul_terms((con.a)(i, p), (con.b)(j, p))
}

/// The family adds the product of its operands, and stores what it accumulates.
pub open spec fn adds_products<F: KernelFamily>(
    mul_terms: spec_fn(F::Lhs, F::Rhs) -> F::Acc,
) -> bool {
    &&& forall|acc: F::Acc, l: F::Lhs, r: F::Rhs|
        #[trigger] F::madd_spec(acc, l, r) == acc.plus_spec(mul_terms(l, r))
    &&& forall|v: F::Acc| F::widen_spec(#[trigger] F::narrow_spec(v)) == v
    &&& !F::seeds_spec()
}

/// A chain is a ring sum.
proof fn lemma_ring_chain<F: KernelFamily>(
    mul_terms: spec_fn(F::Lhs, F::Rhs) -> F::Acc,
    x: spec_fn(int) -> F::Lhs,
    y: spec_fn(int) -> F::Rhs,
    f: spec_fn(int) -> F::Acc,
    lo: int,
    hi: int,
) where F::Acc: Ring
    requires
        adds_products::<F>(mul_terms),
        forall|p: int| #[trigger] f(p) == mul_terms(x(p), y(p)),
    ensures
        dot_range::<F>(x, y, lo, hi) == ring_sum(f, lo, hi),
    decreases hi - lo,
{
    if lo < hi {
        lemma_ring_chain::<F>(mul_terms, x, y, f, lo, hi - 1);
    }
}

/// Over a ring, leaving out a unit factor changes nothing.
proof fn lemma_ring_scaled<R: Ring>(alpha: R, x: R)
    ensures
        scaled(alpha, x) == alpha.times_spec(x),
{
    R::products(alpha, x, x);
}

/// After `t` slices an output holds the result of the depth so far.
proof fn lemma_ring_partial<F: KernelFamily>(
    con: Contraction<F>,
    mul_terms: spec_fn(F::Lhs, F::Rhs) -> F::Acc,
    i: int,
    j: int,
    t: int,
    old: F::Out,
) where F::Acc: Ring
    requires
        adds_products::<F>(mul_terms),
        con.kc > 0,
        con.k > 0,
        1 <= t <= con.slices(),
    ensures
        F::widen_spec(con.partial(i, j, t, old)) == con.alpha.times_spec(
            ring_sum(terms(con, mul_terms, i, j), 0, min_int(t * con.kc, con.k)),
        ).plus_spec(con.beta.times_spec(F::widen_spec(old))),
        con.staged(i, j, t - 1, old) == con.alpha.times_spec(
            ring_sum(terms(con, mul_terms, i, j), 0, min_int(t * con.kc, con.k)),
        ).plus_spec(con.beta.times_spec(F::widen_spec(old))),
    decreases t,
{
    let f = terms(con, mul_terms, i, j);
    let x = |p: int| (con.a)(i, p);
    let y = |p: int| (con.b)(j, p);
    let lo = (t - 1) * con.kc;
    let hi = min_int(t * con.kc, con.k);
    let d = con.slices();
    lemma_div_up(con.k, con.kc);
    assert(t * con.kc == lo + con.kc) by (nonlinear_arith)
        requires
            lo == (t - 1) * con.kc,
    ;
    assert(0 <= lo < con.k) by (nonlinear_arith)
        requires
            lo == (t - 1) * con.kc,
            1 <= t <= d,
            (d - 1) * con.kc < con.k,
            con.kc > 0,
    ;
    lemma_ring_chain::<F>(mul_terms, x, y, f, lo, hi);
    let w = F::widen_spec(old);
    let (alpha, beta) = (con.alpha, con.beta);
    if t == 1 {
        lemma_mul_basics(con.kc);
        assert(lo == 0);
        let s = ring_sum(f, 0, hi);
        assert(con.slice_dot(i, j, 0) == s);
        lemma_ring_scaled(alpha, s);
        F::Acc::products(beta, w, w);
        F::Acc::sums(alpha.times_spec(s), w, w);
        assert(blend::<F>(alpha, s, beta, old) == alpha.times_spec(s).plus_spec(
            beta.times_spec(w),
        ));
    } else {
        lemma_ring_partial(con, mul_terms, i, j, t - 1, old);
        assert(min_int((t - 1) * con.kc, con.k) == lo);
        let s0 = ring_sum(f, 0, lo);
        let s1 = ring_sum(f, lo, hi);
        assert(con.slice_dot(i, j, t - 1) == s1);
        lemma_ring_scaled(alpha, s1);
        lemma_ring_sum_split(f, 0, lo, hi);
        F::Acc::products(alpha, s0, s1);
        let (a0, a1, b) = (
            alpha.times_spec(s0),
            alpha.times_spec(s1),
            beta.times_spec(w),
        );
        F::Acc::sums(a1, a0.plus_spec(b), b);
        F::Acc::sums(a1, a0, b);
        F::Acc::sums(a0, a1, b);
        assert(a1.plus_spec(a0.plus_spec(b)) == a0.plus_spec(a1).plus_spec(b));
    }
}

/// Over a ring, the accumulator of output `(i, j)` ends as `alpha * sum + beta * old`, however
/// the depth is split.
pub proof fn law_contraction_is_exact<F: KernelFamily>(
    con: Contraction<F>,
    mul_terms: spec_fn(F::Lhs, F::Rhs) -> F::Acc,
    i: int,
    j: int,
    old: F::Out,
) where F::Acc: Ring
    requires
        adds_products::<F>(mul_terms),
        con.kc > 0,
        con.k > 0,
    ensures
        con.total(i, j, old) == con.alpha.times_spec(
            ring_sum(terms(con, mul_terms, i, j), 0, con.k),
        ).plus_spec(con.beta.times_spec(F::widen_spec(old))),
{
    let d = con.slices();
    lemma_div_up(con.k, con.kc);
    lemma_ring_partial(con, mul_terms, i, j, d, old);
}

/// An element type whose products are exact: it stores its accumulator, and accumulates ring
/// products.
pub trait ExactScalar: GemmScalar {
    proof fn exact_products(acc: Self::Acc, l: Self, r: Self)
        ensures
            Self::out_is_acc_spec(),
            Self::madd_spec(acc, l, r) == acc.plus_spec(
                l.widen_spec().times_spec(r.widen_spec()),
            ),
            l.is_zero_spec() == l.widen_spec().is_zero_spec(),
            l.is_one_spec() == l.widen_spec().is_one_spec(),
    ;
}

impl ExactScalar for i32 {
    proof fn exact_products(acc: i32, l: i32, r: i32) {
    }
}

/// The sum over the depth of `A(i, p) * B(p, j)`.
pub open spec fn product_sum<'a, T: GemmScalar>(o: Operands<'a, T>, i: int, j: int) -> T::Acc where
    T::Acc: Ring,
 {
    ring_sum(
        |p: int| o.a@[o.la.idx(i, p)].widen_spec().times_spec(o.b@[o.lb.idx(p, j)].widen_spec()),
        0,
        o.k as int,
    )
}

/// The plain family of an exact type adds ring products.
proof fn lemma_plain_adds<T: ExactScalar>() where T::Acc: Ring
    ensures
        adds_products::<Plain<T>>(|l: T, r: T| l.widen_spec().times_spec(r.widen_spec())),
{
    let m = |l: T, r: T| l.widen_spec().times_spec(r.widen_spec());
    assert forall|acc: T::Acc, l: T, r: T| #[trigger] Plain::<T>::madd_spec(acc, l, r)
        == acc.plus_spec(m(l, r)) by {
        T::exact_products(acc, l, r);
    }
    assert forall|v: T::Acc| Plain::<T>::widen_spec(#[trigger] Plain::<T>::narrow_spec(v))
        == v by {
        T::exact_products(v, T::zero_spec(), T::zero_spec());
        T::exact_is_lossless(v, T::zero_spec());
    }
}

/// The driver's depth of a slice is at least 1.
proof fn lemma_route_kc_positive<'a, T: GemmScalar>(ctx: Context, route: Route, o: Operands<'a, T>)
    requires
        o.k > 0,
    ensures
        route_kc(ctx, route, o) > 0,
{
}

/// For an exact type, `gemm` computes `alpha*A*B + beta*C` in the ring. The context, with its
/// kernels, its tuning and its machine, cannot change the result, nor can the route.
pub proof fn law_gemm_is_exact<'a, T: ExactScalar>(
    ctx: Context,
    o: Operands<'a, T>,
    alpha: T,
    beta: T,
    i: int,
    j: int,
    old: T,
) where T::Acc: Ring
    ensures
        gemm_element(ctx, o, alpha, beta, i, j, old).widen_spec() == alpha.widen_spec().times_spec(
            product_sum(o, i, j),
        ).plus_spec(beta.widen_spec().times_spec(old.widen_spec())),
{
    let (a, b) = (alpha.widen_spec(), beta.widen_spec());
    let w = old.widen_spec();
    let s = product_sum(o, i, j);
    T::exact_products(a, alpha, alpha);
    T::exact_products(b, beta, beta);
    if o.k == 0 || alpha.is_zero_spec() {
        T::Acc::products(a, s, s);
        T::Acc::products(b, w, w);
        T::Acc::sums(a.times_spec(s), b.times_spec(w), w);
        T::Acc::sums(b.times_spec(w), w, w);
        T::exact_is_lossless(b.times_spec(w), old);
    } else {
        let m = |l: T, r: T| l.widen_spec().times_spec(r.widen_spec());
        lemma_plain_adds::<T>();
        let route = route_spec(ctx, plain_routes::<T>(ctx), o);
        let f = |p: int|
            o.a@[o.la.idx(i, p)].widen_spec().times_spec(o.b@[o.lb.idx(p, j)].widen_spec());
        if route != Route::Gemv && o.row_major() {
            let t = o.transposed();
            lemma_route_kc_positive(ctx, route, t);
            let con = plain_contraction(t, route_kc(ctx, route, t), a, b);
            law_contraction_is_exact(con, m, j, i, old);
            let g = terms(con, m, j, i);
            assert forall|p: int| 0 <= p < o.k implies #[trigger] g(p) == f(p) by {
                lemma_transposed_idx(o.lb, j, p);
                lemma_transposed_idx(o.la, p, i);
                T::Acc::products(
                    o.a@[o.la.idx(i, p)].widen_spec(),
                    o.b@[o.lb.idx(p, j)].widen_spec(),
                    w,
                );
            }
            lemma_ring_sum_ext(g, f, 0, o.k as int);
            T::exact_is_lossless(con.total(j, i, old), old);
        } else {
            lemma_route_kc_positive(ctx, route, o);
            let con = plain_contraction(o, route_kc(ctx, route, o), a, b);
            law_contraction_is_exact(con, m, i, j, old);
            let g = terms(con, m, i, j);
            lemma_ring_sum_ext(g, f, 0, o.k as int);
            T::exact_is_lossless(con.total(i, j, old), old);
        }
    }
}

/// A complex type whose products are exact.
pub trait ExactComplex: ComplexScalar + Ring {
    proof fn exact_complex(acc: Self, l: Self, r: Self)
        ensures
            Self::cmadd_spec(acc, l, r) == acc.plus_spec(l.times_spec(r)),
    ;
}

impl ExactComplex for GaussI32 {
    proof fn exact_complex(acc: GaussI32, l: GaussI32, r: GaussI32) {
    }
}

/// The sum over the depth of `op(A(i, p)) * op(B(p, j))`.
pub open spec fn cplx_sum<'a, T: ExactComplex>(
    o: Operands<'a, T>,
    conj_a: bool,
    conj_b: bool,
    i: int,
    j: int,
) -> T {
    ring_sum(
        |p: int|
            op(conj_a, o.a@[o.la.idx(i, p)]).times_spec(op(conj_b, o.b@[o.lb.idx(p, j)])),
        0,
        o.k as int,
    )
}

/// For an exact complex type, the complex product is `alpha*op(A)*op(B) + beta*C` in the ring,
/// in either orientation and under every context.
pub proof fn law_complex_gemm_is_exact<'a, T: ExactComplex>(
    ctx: Context,
    o: Operands<'a, T>,
    conj_a: bool,
    conj_b: bool,
    alpha: T,
    beta: T,
    i: int,
    j: int,
    old: T,
)
    ensures
        cplx_element(ctx, o, conj_a, conj_b, alpha, beta, i, j, old) == alpha.times_spec(
            cplx_sum(o, conj_a, conj_b, i, j),
        ).plus_spec(beta.times_spec(old)),
{
    let s = cplx_sum(o, conj_a, conj_b, i, j);
    if o.k == 0 || alpha.is_zero_spec() {
        T::products(alpha, s, s);
        T::products(beta, old, old);
        T::sums(alpha.times_spec(s), beta.times_spec(old), old);
        T::sums(beta.times_spec(old), old, old);
    } else {
        let m = |l: T, r: T| l.times_spec(r);
        assert forall|acc: T, l: T, r: T| #[trigger] ComplexGemm::<T, false, false>::madd_spec(
            acc,
            l,
            r,
        ) == acc.plus_spec(m(l, r)) by {
            T::exact_complex(acc, l, r);
        }
        assert(adds_products::<ComplexGemm<T, false, false>>(m));
        let f = |p: int|
            op(conj_a, o.a@[o.la.idx(i, p)]).times_spec(op(conj_b, o.b@[o.lb.idx(p, j)]));
        if o.row_major() {
            let t = o.transposed();
            let con = cplx_contraction(t, cplx_kc(ctx, t), conj_b, conj_a, alpha, beta);
            law_contraction_is_exact(con, m, j, i, old);
            let g = terms(con, m, j, i);
            assert forall|p: int| 0 <= p < o.k implies #[trigger] g(p) == f(p) by {
                lemma_transposed_idx(o.lb, j, p);
                lemma_transposed_idx(o.la, p, i);
                T::products(
                    op(conj_a, o.a@[o.la.idx(i, p)]),
                    op(conj_b, o.b@[o.lb.idx(p, j)]),
                    old,
                );
            }
            lemma_ring_sum_ext(g, f, 0, o.k as int);
        } else {
            let con = cplx_contraction(o, cplx_kc(ctx, o), conj_a, conj_b, alpha, beta);
            law_contraction_is_exact(con, m, i, j, old);
            let g = terms(con, m, i, j);
            lemma_ring_sum_ext(g, f, 0, o.k as int);
        }
    }
}

/// For an exact type, a product with a prepacked operand is `alpha*A*B + beta*C` in the ring, and
/// so the same as the plain one.
pub proof fn law_prepacked_gemm_is_exact<'a, T: ExactScalar>(
    ctx: Context,
    req: PackedConsume<'a, T>,
    i: int,
    j: int,
    old: T,
) where T::Acc: Ring
    requires
        req.packed.geometry().kc > 0,
    ensures
        req.element(ctx, i, j, old).widen_spec() == req.alpha.widen_spec().times_spec(
            ring_sum(
                |p: int|
                    req.a@[req.la.idx(i, p)].widen_spec().times_spec(
                        (req.packed.element())(j, p).widen_spec(),
                    ),
                0,
                req.packed.geometry().k as int,
            ),
        ).plus_spec(req.beta.widen_spec().times_spec(old.widen_spec())),
{
    let k = req.packed.geometry().k as int;
    let (a, b) = (req.alpha.widen_spec(), req.beta.widen_spec());
    let w = old.widen_spec();
    let f = |p: int|
        req.a@[req.la.idx(i, p)].widen_spec().times_spec(
            (req.packed.element())(j, p).widen_spec(),
        );
    let s = ring_sum(f, 0, k);
    T::exact_products(a, req.alpha, req.alpha);
    T::exact_products(b, req.beta, req.beta);
    if k == 0 || req.alpha.is_zero_spec() {
        T::Acc::products(a, s, s);
        T::Acc::products(b, w, w);
        T::Acc::sums(a.times_spec(s), b.times_spec(w), w);
        T::Acc::sums(b.times_spec(w), w, w);
        T::exact_is_lossless(b.times_spec(w), old);
    } else {
        let m = |l: T, r: T| l.widen_spec().times_spec(r.widen_spec());
        lemma_plain_adds::<T>();
        let con = req.con(ctx);
        lemma_split_positive::<T>(ctx, req.m, req.la, req.packed.geometry());
        law_contraction_is_exact(con, m, i, j, old);
        let g = terms(con, m, i, j);
        lemma_ring_sum_ext(g, f, 0, k);
        T::exact_is_lossless(con.total(i, j, old), old);
    }
}

} // verus!
