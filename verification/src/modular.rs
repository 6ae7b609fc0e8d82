//! Congruence of whole numbers modulo `2^32`, and what 32-bit words with wrapping arithmetic
//! compute in those terms.

use vstd::arithmetic::div_mod::*;
use vstd::prelude::*;

use crate::dispatch::Operands;
use crate::element::GemmScalar;
use crate::exact::{law_gemm_is_exact, law_prepacked_gemm_is_exact, product_sum, ring_sum};
use crate::fused::{fused_element, Activation, Bias, FusedScalar};
use crate::homog::gemm_element;
use crate::integer::IntGemm;
use crate::kernel::KernelFamily;
use crate::layout::Layout;
use crate::outcomes::{law_exact_epilogue_sees_the_product, law_fused_element};
use crate::packed_gemm::PackedConsume;
use crate::parallel::Context;
use crate::requant::IntGemmQ;
use crate::scalar::{lemma_wrap_i32, wrap_i32, Scalar};
use crate::sums::adds_up;

verus! {

/// `x` and `y` differ by a multiple of `2^32`.
#[verifier::opaque]
pub open spec fn congruent(x: int, y: int) -> bool {
    (x - y) % 0x1_0000_0000 == 0
}

/// Sums and differences of congruent numbers are congruent, and so is what is congruent to one of
/// two congruent numbers to the other.
pub proof fn lemma_congruent_sums(a: int, b: int, c: int, d: int)
    requires
        congruent(a, b),
        congruent(c, d),
    ensures
        congruent(a + c, b + d),
        congruent(a - c, b - d),
        congruent(-a, -b),
        congruent(b, a),
        congruent(a, a),
{
    reveal(congruent);
}

/// Congruence passes on.
pub proof fn lemma_congruent_trans(a: int, b: int, c: int)
    requires
        congruent(a, b),
        congruent(b, c),
    ensures
        congruent(a, c),
{
    reveal(congruent);
}

/// Two words that are congruent are the same.
pub proof fn lemma_congruent_words(x: i32, y: i32)
    requires
        congruent(x as int, y as int),
    ensures
        x == y,
{
    reveal(congruent);
}

/// Two words that are congruent to one number are the same.
pub proof fn lemma_meet(x: i32, y: i32, v: int)
    requires
        congruent(x as int, v),
        congruent(y as int, v),
    ensures
        x == y,
{
    lemma_congruent_sums(y as int, v, y as int, v);
    lemma_congruent_trans(x as int, v, y as int);
    lemma_congruent_words(x, y);
}

/// A word is congruent to what it was wrapped from.
pub proof fn lemma_congruent_wrap(x: int)
    ensures
        congruent(wrap_i32(x) as int, x),
        congruent(x, x),
{
    reveal(congruent);
    lemma_wrap_i32(x);
}

/// Products of congruent numbers are congruent.
pub proof fn lemma_congruent_mul(a: int, b: int, c: int, d: int)
    requires
        congruent(a, b),
        congruent(c, d),
    ensures
        congruent(a * c, b * d),
{
    reveal(congruent);
    let m = 0x1_0000_0000int;
    let u = (a - b) / m;
    let w = (c - d) / m;
    lemma_fundamental_div_mod(a - b, m);
    lemma_fundamental_div_mod(c - d, m);
    assert(a * c - b * d == (u * c + b * w) * m) by (nonlinear_arith)
        requires
            a - b == m * u,
            c - d == m * w,
    ;
    lemma_mod_multiples_basic(u * c + b * w, m);
}

/// The arithmetic of words: sums and products modulo `2^32`, kept as they are by accumulating,
/// widening and narrowing.
pub proof fn law_word_arithmetic(x: i32, y: i32, acc: i32)
    ensures
        congruent(x.plus_spec(y) as int, x + y),
        congruent(x.times_spec(y) as int, x * y),
        congruent(<i32 as GemmScalar>::madd_spec(acc, x, y) as int, acc + x * y),
        x.widen_spec() == x,
        <i32 as GemmScalar>::narrow_spec(x) == x,
        <i32 as GemmScalar>::out_is_acc_spec(),
        x.is_zero_spec() <==> x == 0,
        x.is_one_spec() <==> x == 1,
        i32::zero_spec() == 0,
        i32::one_spec() == 1,
{
    lemma_congruent_wrap(x + y);
    lemma_congruent_wrap(x * y);
    lemma_congruent_wrap(acc as int);
    lemma_congruent_sums(acc as int, acc as int, wrap_i32(x * y) as int, x * y);
    lemma_congruent_wrap(acc + wrap_i32(x * y));
    lemma_congruent_trans(
        wrap_i32(acc + wrap_i32(x * y)) as int,
        acc + wrap_i32(x * y),
        acc + x * y,
    );
}

/// The activations of words. Neither changes what is not negative. Elsewhere the rectifier gives
/// zero, and the leaky one the product with the slope, so that a slope of zero makes it the
/// rectifier and a slope of one leaves every value as it is.
pub proof fn law_word_activations(slope: i32, v: i32)
    ensures
        v >= 0 ==> i32::relu_spec(v) == v && i32::leaky_relu_spec(slope, v) == v,
        v < 0 ==> i32::relu_spec(v) == 0 && congruent(
            i32::leaky_relu_spec(slope, v) as int,
            slope * v,
        ),
        i32::leaky_relu_spec(0, v) == i32::relu_spec(v),
        i32::leaky_relu_spec(1, v) == v,
        slope.finite_spec(),
{
    lemma_congruent_wrap(slope * v);
    lemma_wrap_i32(0);
    lemma_wrap_i32(v as int);
    assert(slope * 0 == 0 && 0 * v == 0 && 1 * v == v) by (nonlinear_arith);
}

/// A running sum of products in whole numbers is congruent to the sum of the wrapped products.
proof fn lemma_word_sum(f: spec_fn(int) -> i32, s: Seq<int>, n: int, m: int)
    requires
        0 <= m <= n,
        s.len() == n + 1,
        s[0] == 0,
        forall|p: int| 0 <= p < n ==> congruent(#[trigger] s[p + 1], s[p] + f(p)),
    ensures
        congruent(ring_sum(f, 0, m) as int, s[m]),
    decreases m,
{
    if m > 0 {
        lemma_word_sum(f, s, n, m - 1);
        let (r, g) = (ring_sum(f, 0, m - 1), f(m - 1));
        assert(congruent(s[(m - 1) + 1], s[m - 1] + g));
        law_word_arithmetic(r, g, 0);
        lemma_congruent_wrap(g as int);
        lemma_congruent_sums(r as int, s[m - 1], g as int, g as int);
        lemma_congruent_sums(s[m], s[m - 1] + g, s[m], s[m - 1] + g);
        lemma_congruent_trans(r.plus_spec(g) as int, r + g, s[m - 1] + g);
        lemma_congruent_trans(r.plus_spec(g) as int, s[m - 1] + g, s[m]);
    } else {
        lemma_congruent_wrap(0);
    }
}

/// A step of the running sum.
proof fn lemma_word_step(x: i32, y: i32, before: int, after: int)
    requires
        after == before + x * y,
    ensures
        congruent(after, before + x.times_spec(y)),
{
    law_word_arithmetic(x, y, 0);
    lemma_congruent_wrap(before);
    lemma_congruent_sums(x.times_spec(y) as int, x * y, before, before);
    lemma_congruent_sums(x.times_spec(y) + before, x * y + before, before, before);
}

/// `alpha*s + beta*old` in words.
proof fn lemma_word_blend(alpha: i32, s: i32, beta: i32, old: i32, v: int)
    requires
        congruent(s as int, v),
    ensures
        congruent(
            alpha.times_spec(s).plus_spec(beta.times_spec(old)) as int,
            alpha * v + beta * old,
        ),
{
    let (x, y) = (alpha.times_spec(s), beta.times_spec(old));
    law_word_arithmetic(alpha, s, 0);
    law_word_arithmetic(beta, old, 0);
    law_word_arithmetic(x, y, 0);
    lemma_congruent_wrap(alpha as int);
    lemma_congruent_mul(alpha as int, alpha as int, s as int, v);
    lemma_congruent_trans(x as int, alpha * s, alpha * v);
    lemma_congruent_sums(x as int, alpha * v, y as int, beta * old);
    lemma_congruent_trans(x.plus_spec(y) as int, x + y, alpha * v + beta * old);
}

/// A product of words is `alpha*s + beta*C` modulo `2^32`, `s` being the running sum in whole
/// numbers of the products of row `i` and column `j`. Neither the context nor the layouts show.
pub proof fn law_word_gemm_is_modular<'a>(
    ctx: Context,
    o: Operands<'a, i32>,
    alpha: i32,
    beta: i32,
    i: int,
    j: int,
    old: i32,
    s: Seq<int>,
)
    requires
        adds_up(
            s,
            0,
            |acc: int, p: int|
                acc + o.a@[o.la.off + i * o.la.rs + p * o.la.cs] * o.b@[o.lb.off + p * o.lb.rs + j
                    * o.lb.cs],
            o.k as int,
        ),
    ensures
        (gemm_element(ctx, o, alpha, beta, i, j, old) - (alpha * s[o.k as int] + beta * old))
            % 0x1_0000_0000 == 0,
        congruent(
            gemm_element(ctx, o, alpha, beta, i, j, old) as int,
            alpha * s[o.k as int] + beta * old,
        ),
{
    reveal(Layout::idx);
    let k = o.k as int;
    let f = |p: int|
        o.a@[o.la.idx(i, p)].widen_spec().times_spec(o.b@[o.lb.idx(p, j)].widen_spec());
    assert forall|p: int| 0 <= p < k implies congruent(#[trigger] s[p + 1], s[p] + f(p)) by {
        lemma_word_step(o.a@[o.la.idx(i, p)], o.b@[o.lb.idx(p, j)], s[p], s[p + 1]);
    }
    lemma_word_sum(f, s, k, k);
    law_gemm_is_exact(ctx, o, alpha, beta, i, j, old);
    assert(product_sum(o, i, j) == ring_sum(f, 0, k));
    lemma_word_blend(alpha, product_sum(o, i, j), beta, old, s[k]);
    reveal(congruent);
}

/// The same of a product with a prepacked operand.
pub proof fn law_word_packed_gemm_is_modular<'a>(
    ctx: Context,
    req: PackedConsume<'a, i32>,
    i: int,
    j: int,
    old: i32,
    s: Seq<int>,
)
    requires
        req.packed.geometry().kc > 0,
        adds_up(
            s,
            0,
            |acc: int, p: int|
                acc + req.a@[req.la.off + i * req.la.rs + p * req.la.cs] * (req.packed.element())(
                    j,
                    p,
                ),
            req.packed.geometry().k as int,
        ),
    ensures
        (req.element(ctx, i, j, old) - (req.alpha * s[req.packed.geometry().k as int] + req.beta
            * old)) % 0x1_0000_0000 == 0,
{
    reveal(Layout::idx);
    let k = req.packed.geometry().k as int;
    let f = |p: int|
        req.a@[req.la.idx(i, p)].widen_spec().times_spec(
            (req.packed.element())(j, p).widen_spec(),
        );
    assert forall|p: int| 0 <= p < k implies congruent(#[trigger] s[p + 1], s[p] + f(p)) by {
        lemma_word_step(req.a@[req.la.idx(i, p)], (req.packed.element())(j, p), s[p], s[p + 1]);
    }
    lemma_word_sum(f, s, k, k);
    law_prepacked_gemm_is_exact(ctx, req, i, j, old);
    lemma_word_blend(req.alpha, ring_sum(f, 0, k), req.beta, old, s[k]);
    reveal(congruent);
}

/// A fused product of words, in whole numbers: `alpha*s + beta*C` and the bias of the row or the
/// column, modulo `2^32`, and then the activation.
pub proof fn law_word_fused_is_modular<'a>(
    ctx: Context,
    o: Operands<'a, i32>,
    alpha: i32,
    beta: i32,
    bias: Option<Bias<'a, i32>>,
    act: Option<Activation<i32>>,
    i: int,
    j: int,
    old: i32,
    s: Seq<int>,
    v: i32,
)
    requires
        adds_up(
            s,
            0,
            |acc: int, p: int|
                acc + o.a@[o.la.off + i * o.la.rs + p * o.la.cs] * o.b@[o.lb.off + p * o.lb.rs + j
                    * o.lb.cs],
            o.k as int,
        ),
        congruent(
            v as int,
            alpha * s[o.k as int] + beta * old + (match bias {
                None => 0,
                Some(Bias::PerRow(x)) => x@[i] as int,
                Some(Bias::PerCol(x)) => x@[j] as int,
            }),
        ),
    ensures
        ({
            let out = fused_element(ctx, o, alpha, beta, bias, act, i, j, old);
            &&& v >= 0 ==> out == v
            &&& v < 0 ==> match act {
                None => out == v,
                Some(Activation::Relu) => out == 0,
                Some(Activation::LeakyRelu(slope)) => congruent(out as int, slope * v),
            }
        }),
{
    let g = gemm_element(ctx, o, alpha, beta, i, j, old);
    let w = alpha * s[o.k as int] + beta * old;
    law_word_gemm_is_modular(ctx, o, alpha, beta, i, j, old, s);
    law_exact_epilogue_sees_the_product(ctx, o, alpha, beta, i, j, old);
    law_fused_element(ctx, o, alpha, beta, bias, act, i, j, old);
    if let Some(b) = bias {
        let x = match b {
            Bias::PerRow(x) => x@[i],
            Bias::PerCol(x) => x@[j],
        };
        law_word_arithmetic(g, x, 0);
        lemma_congruent_wrap(x as int);
        lemma_congruent_sums(g as int, w, x as int, x as int);
        lemma_congruent_trans(g.plus_spec(x) as int, g + x, w + x);
        lemma_meet(g.plus_spec(x), v, w + x);
    } else {
        lemma_meet(g, v, w);
    }
    match act {
        Some(Activation::LeakyRelu(slope)) => law_word_activations(slope, v),
        _ => law_word_activations(0, v),
    }
}

/// The integer kernels, of either panel form: they add products of bytes modulo `2^32`, pad with
/// zeros, and store a word as it is. The requantizing ones store a byte, the nearest in its range.
pub proof fn law_integer_families<const DOT: bool>(acc: i32, l: i8, r: i8, x: i8, y: u8)
    ensures
        congruent(<IntGemm<DOT> as KernelFamily>::madd_spec(acc, l, r) as int, acc + l * r),
        congruent(<IntGemmQ<i8, DOT> as KernelFamily>::madd_spec(acc, l, r) as int, acc + l * r),
        congruent(<IntGemmQ<u8, DOT> as KernelFamily>::madd_spec(acc, l, r) as int, acc + l * r),
        <IntGemm<DOT> as KernelFamily>::narrow_spec(acc) == acc,
        <IntGemm<DOT> as KernelFamily>::widen_spec(acc) == acc,
        <IntGemm<DOT> as KernelFamily>::lhs_pad_spec() == 0,
        <IntGemm<DOT> as KernelFamily>::rhs_pad_spec() == 0,
        <IntGemmQ<i8, DOT> as KernelFamily>::widen_spec(x) == x,
        <IntGemmQ<u8, DOT> as KernelFamily>::widen_spec(y) == y,
        <IntGemmQ<i8, DOT> as KernelFamily>::narrow_spec(acc) == (if acc < -128 {
            -128
        } else if acc > 127 {
            127
        } else {
            acc as int
        }),
        <IntGemmQ<u8, DOT> as KernelFamily>::narrow_spec(acc) == (if acc < 0 {
            0
        } else if acc > 255 {
            255
        } else {
            acc as int
        }),
        <IntGemm<DOT> as KernelFamily>::out_is_acc_spec(),
        !<IntGemmQ<i8, DOT> as KernelFamily>::out_is_acc_spec(),
        !<IntGemmQ<u8, DOT> as KernelFamily>::out_is_acc_spec(),
{
    lemma_congruent_wrap(acc + l * r);
}

} // verus!
