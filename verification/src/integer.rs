//! The integer family: `i8` operands, exact wrapping `i32` accumulation and output.
//!
//! Wrapping sums are associative, so the result does not depend on how the depth is split: it
//! is `alpha * sum + beta * old` modulo `2^32`, however the product was run.

use vstd::prelude::*;

use crate::arith::{lemma_div_up, min_int};
use crate::kernel::{blend, dot_range, scaled, KernelFamily};
use crate::product::Contraction;
use crate::scalar::{lemma_wrap_i32, lemma_wrap_i32_product, lemma_wrap_i32_sum, wrap_i32};

verus! {

/// `i8 * i8 -> i32`. With `DOT` the panels hold groups of four depths, and both operands are
/// always packed.
#[derive(Clone, Copy, Debug)]
pub struct IntGemm<const DOT: bool>;

/// The family that reads plain panels, or the operands in place.
pub type IntGemmWiden = IntGemm<false>;

/// The family of the four-way dot kernel.
pub type IntGemmVnni = IntGemm<true>;

/// The steps of the depth that an integer kernel takes at a time.
pub open spec fn int_depth_spec(dot: bool) -> usize {
    if dot {
        4
    } else {
        1
    }
}

/// See [`int_depth_spec`].
pub fn int_depth(dot: bool) -> (r: usize)
    ensures
        r == int_depth_spec(dot),
{
    if dot {
        4
    } else {
        1
    }
}

impl<const DOT: bool> KernelFamily for IntGemm<DOT> {
    type Lhs = i8;

    type Rhs = i8;

    type Acc = i32;

    type Out = i32;

    open spec fn out_is_acc_spec() -> bool {
        true
    }

    open spec fn madd_spec(acc: i32, l: i8, r: i8) -> i32 {
        wrap_i32(acc + l * r)
    }

    open spec fn widen_spec(o: i32) -> i32 {
        o
    }

    open spec fn narrow_spec(v: i32) -> i32 {
        v
    }

    open spec fn force_pack_lhs_spec() -> bool {
        DOT
    }

    open spec fn force_pack_rhs_spec() -> bool {
        DOT
    }

    open spec fn seeds_spec() -> bool {
        false
    }

    open spec fn lhs_pad_spec() -> i8 {
        0
    }

    open spec fn rhs_pad_spec() -> i8 {
        0
    }

    fn out_is_acc() -> bool {
        true
    }

    fn force_pack_lhs() -> bool {
        DOT
    }

    fn force_pack_rhs() -> bool {
        DOT
    }

    fn seeds() -> bool {
        false
    }

    fn madd(acc: i32, l: i8, r: i8) -> i32 {
        proof {
            assert(-16384 <= l * r <= 16384) by (nonlinear_arith)
                requires
                    -128 <= l <= 127,
                    -128 <= r <= 127,
            ;
        }
        acc.wrapping_add(l as i32 * r as i32)
    }

    fn widen(o: i32) -> i32 {
        o
    }

    fn narrow(v: i32) -> i32 {
        v
    }

    fn lhs_pad() -> i8 {
        0
    }

    fn rhs_pad() -> i8 {
        0
    }
}

/// The exact sum of the products `x(p) * y(p)` over the depth `lo..hi`.
pub open spec fn int_sum(x: spec_fn(int) -> i8, y: spec_fn(int) -> i8, lo: int, hi: int) -> int
    decreases hi - lo,
{
    if hi <= lo {
        0
    } else {
        int_sum(x, y, lo, hi - 1) + x(hi - 1) * y(hi - 1)
    }
}

/// A sum can be split at any depth.
pub proof fn lemma_int_sum_split(
    x: spec_fn(int) -> i8,
    y: spec_fn(int) -> i8,
    lo: int,
    mid: int,
    hi: int,
)
    requires
        lo <= mid <= hi,
    ensures
        int_sum(x, y, lo, hi) == int_sum(x, y, lo, mid) + int_sum(x, y, mid, hi),
    decreases hi - mid,
{
    if mid < hi {
        lemma_int_sum_split(x, y, lo, mid, hi - 1);
    }
}

/// The order of the two factors does not matter.
pub proof fn lemma_int_sum_commutes(
    x: spec_fn(int) -> i8,
    y: spec_fn(int) -> i8,
    lo: int,
    hi: int,
)
    ensures
        int_sum(x, y, lo, hi) == int_sum(y, x, lo, hi),
    decreases hi - lo,
{
    if lo < hi {
        lemma_int_sum_commutes(x, y, lo, hi - 1);
        assert(x(hi - 1) * y(hi - 1) == y(hi - 1) * x(hi - 1)) by (nonlinear_arith);
    }
}

/// A sum depends on the factors within its depth alone.
pub proof fn lemma_int_sum_ext(
    x: spec_fn(int) -> i8,
    y: spec_fn(int) -> i8,
    x2: spec_fn(int) -> i8,
    y2: spec_fn(int) -> i8,
    lo: int,
    hi: int,
)
    requires
        forall|p: int| lo <= p < hi ==> #[trigger] x(p) == x2(p),
        forall|p: int| lo <= p < hi ==> #[trigger] y(p) == y2(p),
    ensures
        int_sum(x, y, lo, hi) == int_sum(x2, y2, lo, hi),
    decreases hi - lo,
{
    if lo < hi {
        lemma_int_sum_ext(x, y, x2, y2, lo, hi - 1);
        assert(x(hi - 1) == x2(hi - 1));
        assert(y(hi - 1) == y2(hi - 1));
    }
}

/// The accumulator holds the exact sum modulo `2^32`.
pub proof fn lemma_int_dot<const DOT: bool>(
    x: spec_fn(int) -> i8,
    y: spec_fn(int) -> i8,
    lo: int,
    hi: int,
)
    ensures
        dot_range::<IntGemm<DOT>>(x, y, lo, hi) == wrap_i32(int_sum(x, y, lo, hi)),
    decreases hi - lo,
{
    if lo < hi {
        lemma_int_dot::<DOT>(x, y, lo, hi - 1);
        lemma_wrap_i32_sum(int_sum(x, y, lo, hi - 1), x(hi - 1) * y(hi - 1));
    } else {
        lemma_wrap_i32(0);
    }
}

/// Scaling the accumulator.
proof fn lemma_int_scaled(alpha: i32, s: int)
    ensures
        scaled(alpha, wrap_i32(s)) == wrap_i32(alpha * s),
{
    lemma_wrap_i32_product(alpha as int, s);
    if alpha == 1 {
        assert(alpha * s == s);
    }
}

/// The first slice.
proof fn lemma_int_blend<const DOT: bool>(alpha: i32, s: int, beta: i32, old: i32)
    ensures
        blend::<IntGemm<DOT>>(alpha, wrap_i32(s), beta, old) == wrap_i32(alpha * s + beta * old),
{
    lemma_int_scaled(alpha, s);
    if beta == 0 {
        assert(beta * old == 0) by (nonlinear_arith)
            requires
                beta == 0,
        ;
    } else if beta == 1 {
        assert(beta * old == old) by (nonlinear_arith)
            requires
                beta == 1,
        ;
        lemma_wrap_i32_sum(alpha * s, old as int);
    } else {
        lemma_wrap_i32_sum(alpha * s, beta * old);
    }
}

/// The exact result of an integer product at `(i, j)`: `alpha * sum + beta * old`, wrapped.
pub open spec fn int_result(
    a: spec_fn(int, int) -> i8,
    b: spec_fn(int, int) -> i8,
    k: int,
    alpha: i32,
    beta: i32,
    i: int,
    j: int,
    old: i32,
) -> i32 {
    wrap_i32(alpha * int_sum(|p: int| a(i, p), |p: int| b(j, p), 0, k) + beta * old)
}

/// After `t` slices an output holds the result of the depth so far.
proof fn lemma_int_partial<const DOT: bool>(
    prod: Contraction<IntGemm<DOT>>,
    i: int,
    j: int,
    t: int,
    old: i32,
)
    requires
        prod.kc > 0,
        prod.k > 0,
        1 <= t <= prod.slices(),
    ensures
        prod.partial(i, j, t, old) == int_result(
            prod.a,
            prod.b,
            min_int(t * prod.kc, prod.k),
            prod.alpha,
            prod.beta,
            i,
            j,
            old,
        ),
    decreases t,
{
    let x = |p: int| (prod.a)(i, p);
    let y = |p: int| (prod.b)(j, p);
    let lo = (t - 1) * prod.kc;
    let hi = min_int(t * prod.kc, prod.k);
    lemma_div_up(prod.k, prod.kc);
    let d = prod.slices();
    assert(t * prod.kc == lo + prod.kc) by (nonlinear_arith)
        requires
            lo == (t - 1) * prod.kc,
    ;
    assert(0 <= lo < prod.k) by (nonlinear_arith)
        requires
            lo == (t - 1) * prod.kc,
            1 <= t <= d,
            (d - 1) * prod.kc < prod.k,
            prod.kc > 0,
    ;
    lemma_int_dot::<DOT>(x, y, lo, hi);
    if t == 1 {
        assert(lo == 0) by (nonlinear_arith)
            requires
                lo == (t - 1) * prod.kc,
                t == 1,
        ;
        lemma_int_blend::<DOT>(prod.alpha, int_sum(x, y, 0, hi), prod.beta, old);
    } else {
        lemma_int_partial(prod, i, j, t - 1, old);
        lemma_int_sum_split(x, y, 0, lo, hi);
        let s0 = int_sum(x, y, 0, lo);
        let s1 = int_sum(x, y, lo, hi);
        lemma_int_scaled(prod.alpha, s1);
        let alpha = prod.alpha as int;
        lemma_wrap_i32_sum(alpha * s1, alpha * s0 + prod.beta * old);
        assert(alpha * s1 + (alpha * s0 + prod.beta * old) == alpha * (s0 + s1) + prod.beta * old)
            by (nonlinear_arith);
        assert(min_int((t - 1) * prod.kc, prod.k) == lo);
    }
}

/// However the depth is split into slices, the accumulator ends with the exact result modulo
/// `2^32`. Block sizes, packing and parallelism cannot change an integer product.
pub proof fn law_int_product_is_exact<const DOT: bool>(
    prod: Contraction<IntGemm<DOT>>,
    i: int,
    j: int,
    old: i32,
)
    requires
        prod.kc > 0,
        prod.k > 0,
    ensures
        prod.total(i, j, old) == int_result(
            prod.a,
            prod.b,
            prod.k,
            prod.alpha,
            prod.beta,
            i,
            j,
            old,
        ),
{
    let d = prod.slices();
    lemma_div_up(prod.k, prod.kc);
    lemma_int_partial(prod, i, j, d, old);
    assert(d * prod.kc >= prod.k);
    if d == 1 {
        assert(prod.total(i, j, old) == prod.partial(i, j, 1, old));
    } else {
        assert(prod.total(i, j, old) == prod.partial(i, j, d, old));
    }
}

} // verus!
