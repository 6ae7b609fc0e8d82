//! What the complex entries compute, in the operations of the element type and, for the complex
//! numbers with wrapping parts, in whole numbers.

use vstd::arithmetic::mul::*;
use vstd::prelude::*;

use crate::arith::{abs_int, div_up, lemma_div_up, min_int};
use crate::complex::{
    cplx_bias, cplx_contraction, cplx_element, cplx_kc, op, ComplexGemm, ComplexScalar, GaussI32,
};
use crate::dispatch::Operands;
use crate::exact::{cplx_sum, law_complex_gemm_is_exact, ring_sum};
use crate::fused::Bias;
use crate::kernel::KernelFamily;
use crate::layout::{lemma_transposed_idx, Layout};
use crate::modular::{
    congruent, lemma_congruent_mul, lemma_congruent_sums, lemma_congruent_trans,
    lemma_congruent_words, lemma_congruent_wrap, lemma_meet,
};
use crate::parallel::Context;
use crate::scalar::{wrap_i32, Scalar};
use crate::sums::{adds_up, lemma_by_slices};

verus! {

/// Where the `A*B` term does not vanish, a complex product of any type is computed slice by slice:
/// `d(t)` adds up the products of slice `t` of row `i` and column `j`, an operand whose flag is set
/// being conjugated element by element, and `v[t]` is `alpha*d(t)` plus `beta` times the old C in
/// the first slice and plus `v[t - 1]` in the others. The factors are exchanged where C is laid out
/// by rows.
pub proof fn law_complex_slice_by_slice<'a, T: ComplexScalar>(
    ctx: Context,
    o: Operands<'a, T>,
    conj_a: bool,
    conj_b: bool,
    alpha: T,
    beta: T,
    i: int,
    j: int,
    old: T,
    turned: bool,
    kc: int,
    n: int,
    d: spec_fn(int) -> Seq<T>,
    v: Seq<T>,
)
    requires
        o.k > 0,
        !alpha.is_zero_spec(),
        turned == (abs_int(o.lc.cs as int) < abs_int(o.lc.rs as int)),
        kc == cplx_kc(
            ctx,
            if turned {
                o.transposed()
            } else {
                o
            },
        ),
        n == div_up(o.k as int, kc),
        v.len() == n,
        forall|t: int|
            0 <= t < n ==> adds_up(
                #[trigger] d(t),
                T::zero_spec(),
                |acc: T, p: int|
                    {
                        let x = o.a@[o.la.off + i * o.la.rs + (t * kc + p) * o.la.cs];
                        let y = o.b@[o.lb.off + (t * kc + p) * o.lb.rs + j * o.lb.cs];
                        let l = if conj_a {
                            x.conj_spec()
                        } else {
                            x
                        };
                        let r = if conj_b {
                            y.conj_spec()
                        } else {
                            y
                        };
                        if turned {
                            T::cmadd_spec(acc, r, l)
                        } else {
                            T::cmadd_spec(acc, l, r)
                        }
                    },
                min_int(kc, o.k - t * kc),
            ),
        ({
            let x = d(0)[min_int(kc, o.k as int)];
            let y = if alpha.is_one_spec() {
                x
            } else {
                alpha.times_spec(x)
            };
            v[0] == if beta.is_zero_spec() {
                y
            } else if beta.is_one_spec() {
                y.plus_spec(old)
            } else {
                y.plus_spec(beta.times_spec(old))
            }
        }),
        forall|t: int|
            1 <= t < n ==> #[trigger] v[t] == (if alpha.is_one_spec() {
                d(t)[min_int(kc, o.k - t * kc)]
            } else {
                alpha.times_spec(d(t)[min_int(kc, o.k - t * kc)])
            }).plus_spec(v[t - 1]),
    ensures
        n > 0,
        cplx_element(ctx, o, conj_a, conj_b, alpha, beta, i, j, old) == v[n - 1],
{
    reveal(Layout::idx);
    let (con, x, y) = if turned {
        (
            cplx_contraction(
                o.transposed(),
                cplx_kc(ctx, o.transposed()),
                conj_b,
                conj_a,
                alpha,
                beta,
            ),
            j,
            i,
        )
    } else {
        (cplx_contraction(o, cplx_kc(ctx, o), conj_a, conj_b, alpha, beta), i, j)
    };
    lemma_div_up(con.k, con.kc);
    let c = Seq::new(
        n as nat,
        |t: int|
            if t == 0 {
                old
            } else {
                v[t - 1]
            },
    );
    assert forall|t: int| 0 <= t < n implies adds_up(
        #[trigger] d(t),
        T::zero_spec(),
        |acc: T, p: int|
            <ComplexGemm<T, false, false> as KernelFamily>::madd_spec(
                acc,
                (con.a)(x, t * con.kc + p),
                (con.b)(y, t * con.kc + p),
            ),
        min_int(con.kc, con.k - t * con.kc),
    ) by {
        let s = d(t);
        let m = min_int(kc, o.k - t * kc);
        assert forall|p: int| 0 <= p < m implies #[trigger] s[p + 1] == <ComplexGemm<
            T,
            false,
            false,
        > as KernelFamily>::madd_spec(
            s[p],
            (con.a)(x, t * con.kc + p),
            (con.b)(y, t * con.kc + p),
        ) by {
            lemma_transposed_idx(o.lb, j, t * kc + p);
            lemma_transposed_idx(o.la, t * kc + p, i);
        }
    }
    lemma_mul_basics(kc);
    lemma_by_slices(con, x, y, old, d, v, c, n - 1);
}

/// Where the `A*B` term vanishes, C is scaled: cleared by a zero `beta`, left by a unit one.
pub proof fn law_vanishing_complex_product_scales_c<'a, T: ComplexScalar>(
    ctx: Context,
    o: Operands<'a, T>,
    conj_a: bool,
    conj_b: bool,
    alpha: T,
    beta: T,
    i: int,
    j: int,
    old: T,
)
    requires
        o.k == 0 || alpha.is_zero_spec(),
    ensures
        cplx_element(ctx, o, conj_a, conj_b, alpha, beta, i, j, old) == (if beta.is_zero_spec() {
            T::zero_spec()
        } else if beta.is_one_spec() {
            old
        } else {
            beta.times_spec(old)
        }),
{
}

/// The bias of a complex product is added at the caller's row or column, and never conjugated.
pub proof fn law_complex_bias<'a, T: ComplexScalar>(
    bias: Option<Bias<'a, T>>,
    v: T,
    i: int,
    j: int,
)
    ensures
        cplx_bias(bias).value(v, i, j) == (match bias {
            None => v,
            Some(Bias::PerRow(s)) => v.plus_spec(s@[i]),
            Some(Bias::PerCol(s)) => v.plus_spec(s@[j]),
        }),
{
}

/// The parts of a conjugate: the real one is kept and the imaginary one negated.
pub proof fn law_conjugation_negates_the_imaginary_part(x: GaussI32)
    ensures
        x.conj_spec().re == x.re,
        congruent(x.conj_spec().im as int, -x.im),
        op(true, x) == x.conj_spec(),
        op(false, x) == x,
{
    lemma_congruent_wrap(-x.im);
}

/// The sum and the product of complex numbers, by parts.
pub proof fn law_complex_arithmetic_by_parts(x: GaussI32, y: GaussI32)
    ensures
        congruent(x.plus_spec(y).re as int, x.re + y.re),
        congruent(x.plus_spec(y).im as int, x.im + y.im),
        congruent(x.times_spec(y).re as int, x.re * y.re - x.im * y.im),
        congruent(x.times_spec(y).im as int, x.re * y.im + x.im * y.re),
        x.is_zero_spec() <==> x.re == 0 && x.im == 0,
        x.is_one_spec() <==> x.re == 1 && x.im == 0,
        GaussI32::zero_spec() == (GaussI32 { re: 0, im: 0 }),
        GaussI32::one_spec() == (GaussI32 { re: 1, im: 0 }),
{
    lemma_congruent_wrap(x.re + y.re);
    lemma_congruent_wrap(x.im + y.im);
    let (p, q) = (x.re * y.re, x.im * y.im);
    let (u, w) = (x.re * y.im, x.im * y.re);
    lemma_congruent_wrap(p);
    lemma_congruent_wrap(q);
    lemma_congruent_wrap(u);
    lemma_congruent_wrap(w);
    lemma_congruent_wrap(wrap_i32(p) - wrap_i32(q));
    lemma_congruent_wrap(wrap_i32(u) + wrap_i32(w));
    lemma_congruent_sums(wrap_i32(p) as int, p, wrap_i32(q) as int, q);
    lemma_congruent_sums(wrap_i32(u) as int, u, wrap_i32(w) as int, w);
    lemma_congruent_trans(x.times_spec(y).re as int, wrap_i32(p) - wrap_i32(q), p - q);
    lemma_congruent_trans(x.times_spec(y).im as int, wrap_i32(u) + wrap_i32(w), u + w);
}

/// A number times its conjugate is real: the sum of the squares of its parts. Conjugation is its
/// own inverse, and keeps sums and products.
pub proof fn law_conjugation_is_an_involution(x: GaussI32, y: GaussI32)
    ensures
        x.conj_spec().conj_spec() == x,
        x.times_spec(x.conj_spec()).im == 0,
        congruent(x.times_spec(x.conj_spec()).re as int, x.re * x.re + x.im * x.im),
        x.plus_spec(y).conj_spec() == x.conj_spec().plus_spec(y.conj_spec()),
        x.times_spec(y).conj_spec() == x.conj_spec().times_spec(y.conj_spec()),
{
    let (cx, cy) = (x.conj_spec(), y.conj_spec());
    let (a, b, c, d) = (x.re as int, x.im as int, y.re as int, y.im as int);
    let (cb, cd) = (cx.im as int, cy.im as int);
    law_conjugation_negates_the_imaginary_part(x);
    law_conjugation_negates_the_imaginary_part(y);
    // Twice.
    law_conjugation_negates_the_imaginary_part(cx);
    lemma_congruent_sums(cb, -b, cb, -b);
    lemma_congruent_trans(cx.conj_spec().im as int, -cb, b);
    lemma_congruent_words(cx.conj_spec().im, x.im);
    // With itself.
    law_complex_arithmetic_by_parts(x, cx);
    lemma_congruent_wrap(a);
    lemma_congruent_wrap(b);
    lemma_congruent_wrap(c);
    lemma_congruent_wrap(a * a);
    lemma_congruent_wrap(a * c);
    lemma_congruent_mul(b, b, cb, -b);
    lemma_congruent_mul(a, a, cb, -b);
    assert(b * (-b) == -(b * b) && a * (-b) == -(a * b) && b * a == a * b) by (nonlinear_arith);
    lemma_congruent_sums(a * a, a * a, b * cb, -(b * b));
    lemma_congruent_trans(x.times_spec(cx).re as int, a * a - b * cb, a * a + b * b);
    lemma_congruent_wrap(a * b);
    lemma_congruent_sums(a * cb, -(a * b), a * b, a * b);
    lemma_congruent_trans(x.times_spec(cx).im as int, a * cb + b * a, 0);
    lemma_congruent_words(x.times_spec(cx).im, 0);
    // A sum.
    let sum = x.plus_spec(y);
    law_complex_arithmetic_by_parts(x, y);
    law_complex_arithmetic_by_parts(cx, cy);
    law_conjugation_negates_the_imaginary_part(sum);
    lemma_congruent_sums(sum.im as int, b + d, sum.im as int, b + d);
    lemma_congruent_trans(sum.conj_spec().im as int, -sum.im, -(b + d));
    lemma_congruent_sums(cb, -b, cd, -d);
    lemma_congruent_trans(cx.plus_spec(cy).im as int, cb + cd, -b - d);
    lemma_meet(sum.conj_spec().im, cx.plus_spec(cy).im, -(b + d));
    // A product.
    let prod = x.times_spec(y);
    law_conjugation_negates_the_imaginary_part(prod);
    lemma_congruent_mul(cb, -b, cd, -d);
    lemma_congruent_mul(a, a, cd, -d);
    lemma_congruent_mul(cb, -b, c, c);
    assert((-b) * (-d) == b * d && a * (-d) == -(a * d) && (-b) * c == -(b * c))
        by (nonlinear_arith);
    lemma_congruent_sums(a * c, a * c, cb * cd, b * d);
    lemma_congruent_trans(cx.times_spec(cy).re as int, a * c - cb * cd, a * c - b * d);
    lemma_meet(prod.conj_spec().re, cx.times_spec(cy).re, a * c - b * d);
    lemma_congruent_sums(a * cd, -(a * d), cb * c, -(b * c));
    lemma_congruent_trans(cx.times_spec(cy).im as int, a * cd + cb * c, -(a * d + b * c));
    lemma_congruent_sums(prod.im as int, a * d + b * c, prod.im as int, a * d + b * c);
    lemma_congruent_trans(prod.conj_spec().im as int, -prod.im, -(a * d + b * c));
    lemma_meet(prod.conj_spec().im, cx.times_spec(cy).im, -(a * d + b * c));
}

/// The parts of an element of a sum of complex products.
proof fn lemma_complex_sum_by_parts(
    f: spec_fn(int) -> GaussI32,
    re: Seq<int>,
    im: Seq<int>,
    n: int,
    m: int,
)
    requires
        0 <= m <= n,
        re.len() == n + 1,
        im.len() == n + 1,
        re[0] == 0,
        im[0] == 0,
        forall|p: int| 0 <= p < n ==> congruent(#[trigger] re[p + 1], re[p] + f(p).re),
        forall|p: int| 0 <= p < n ==> congruent(#[trigger] im[p + 1], im[p] + f(p).im),
    ensures
        congruent(ring_sum(f, 0, m).re as int, re[m]),
        congruent(ring_sum(f, 0, m).im as int, im[m]),
    decreases m,
{
    if m > 0 {
        lemma_complex_sum_by_parts(f, re, im, n, m - 1);
        law_complex_arithmetic_by_parts(ring_sum(f, 0, m - 1), f(m - 1));
        let (s, g) = (ring_sum(f, 0, m - 1), f(m - 1));
        assert(congruent(re[(m - 1) + 1], re[m - 1] + g.re));
        assert(congruent(im[(m - 1) + 1], im[m - 1] + g.im));
        lemma_congruent_wrap(g.re as int);
        lemma_congruent_wrap(g.im as int);
        lemma_congruent_sums(s.re as int, re[m - 1], g.re as int, g.re as int);
        lemma_congruent_sums(s.im as int, im[m - 1], g.im as int, g.im as int);
        lemma_congruent_trans(s.plus_spec(g).re as int, s.re + g.re, re[m - 1] + g.re);
        lemma_congruent_trans(s.plus_spec(g).im as int, s.im + g.im, im[m - 1] + g.im);
        lemma_congruent_sums(re[m], re[m - 1] + g.re, re[m], re[m - 1] + g.re);
        lemma_congruent_sums(im[m], im[m - 1] + g.im, im[m], im[m - 1] + g.im);
        lemma_congruent_trans(s.plus_spec(g).re as int, re[m - 1] + g.re, re[m]);
        lemma_congruent_trans(s.plus_spec(g).im as int, im[m - 1] + g.im, im[m]);
    } else {
        lemma_congruent_wrap(0);
    }
}

/// The parts of the product of two operands that may be conjugated.
proof fn lemma_op_product(conj_a: bool, conj_b: bool, x: GaussI32, y: GaussI32)
    ensures
        congruent(
            op(conj_a, x).times_spec(op(conj_b, y)).re as int,
            if conj_a == conj_b {
                x.re * y.re - x.im * y.im
            } else {
                x.re * y.re + x.im * y.im
            },
        ),
        congruent(
            op(conj_a, x).times_spec(op(conj_b, y)).im as int,
            (if conj_b {
                -(x.re * y.im)
            } else {
                x.re * y.im
            }) + (if conj_a {
                -(x.im * y.re)
            } else {
                x.im * y.re
            }),
        ),
{
    let (l, r) = (op(conj_a, x), op(conj_b, y));
    law_conjugation_negates_the_imaginary_part(x);
    law_conjugation_negates_the_imaginary_part(y);
    law_complex_arithmetic_by_parts(l, r);
    let (a, b, c, d) = (x.re as int, x.im as int, y.re as int, y.im as int);
    lemma_congruent_wrap(a);
    lemma_congruent_wrap(b);
    lemma_congruent_wrap(c);
    lemma_congruent_wrap(d);
    lemma_congruent_wrap(a * c);
    let li = if conj_a {
        -b
    } else {
        b
    };
    let ri = if conj_b {
        -d
    } else {
        d
    };
    lemma_congruent_mul(l.im as int, li, r.im as int, ri);
    lemma_congruent_mul(a, a, r.im as int, ri);
    lemma_congruent_mul(l.im as int, li, c, c);
    lemma_congruent_sums(a * c, a * c, l.im * r.im, li * ri);
    lemma_congruent_sums(a * r.im, a * ri, l.im * c, li * c);
    lemma_congruent_trans(l.times_spec(r).re as int, a * c - l.im * r.im, a * c - li * ri);
    lemma_congruent_trans(l.times_spec(r).im as int, a * r.im + l.im * c, a * ri + li * c);
    assert((-b) * (-d) == b * d && (-b) * d == -(b * d) && b * (-d) == -(b * d) && a * (-d) == -(a
        * d) && (-b) * c == -(b * c)) by (nonlinear_arith);
}

/// The parts of `alpha*s + beta*old`.
proof fn lemma_blend_by_parts(
    alpha: GaussI32,
    s: GaussI32,
    beta: GaussI32,
    old: GaussI32,
    re: int,
    im: int,
)
    requires
        congruent(s.re as int, re),
        congruent(s.im as int, im),
    ensures
        congruent(
            alpha.times_spec(s).plus_spec(beta.times_spec(old)).re as int,
            alpha.re * re - alpha.im * im + beta.re * old.re - beta.im * old.im,
        ),
        congruent(
            alpha.times_spec(s).plus_spec(beta.times_spec(old)).im as int,
            alpha.re * im + alpha.im * re + beta.re * old.im + beta.im * old.re,
        ),
{
    let (x, y) = (alpha.times_spec(s), beta.times_spec(old));
    law_complex_arithmetic_by_parts(alpha, s);
    law_complex_arithmetic_by_parts(beta, old);
    law_complex_arithmetic_by_parts(x, y);
    let (a, b) = (alpha.re as int, alpha.im as int);
    lemma_congruent_wrap(a);
    lemma_congruent_wrap(b);
    lemma_congruent_mul(a, a, s.re as int, re);
    lemma_congruent_mul(b, b, s.im as int, im);
    lemma_congruent_mul(a, a, s.im as int, im);
    lemma_congruent_mul(b, b, s.re as int, re);
    lemma_congruent_sums(a * s.re, a * re, b * s.im, b * im);
    lemma_congruent_sums(a * s.im, a * im, b * s.re, b * re);
    lemma_congruent_trans(x.re as int, a * s.re - b * s.im, a * re - b * im);
    lemma_congruent_trans(x.im as int, a * s.im + b * s.re, a * im + b * re);
    let (u, w) = (
        beta.re * old.re - beta.im * old.im,
        beta.re * old.im + beta.im * old.re,
    );
    lemma_congruent_sums(x.re as int, a * re - b * im, y.re as int, u);
    lemma_congruent_sums(x.im as int, a * im + b * re, y.im as int, w);
    lemma_congruent_trans(x.plus_spec(y).re as int, x.re + y.re, a * re - b * im + u);
    lemma_congruent_trans(x.plus_spec(y).im as int, x.im + y.im, a * im + b * re + w);
}

/// A complex product with wrapping parts is `alpha*op(A)*op(B) + beta*C` modulo `2^32`, written out
/// in real and imaginary parts: `re` and `im` add up the parts of the products of row `i` and
/// column `j`, and the imaginary part of an operand that is conjugated enters with its sign
/// changed.
pub proof fn law_complex_gemm_by_parts<'a>(
    ctx: Context,
    o: Operands<'a, GaussI32>,
    conj_a: bool,
    conj_b: bool,
    alpha: GaussI32,
    beta: GaussI32,
    i: int,
    j: int,
    old: GaussI32,
    re: Seq<int>,
    im: Seq<int>,
)
    requires
        adds_up(
            re,
            0,
            |acc: int, p: int|
                {
                    let x = o.a@[o.la.off + i * o.la.rs + p * o.la.cs];
                    let y = o.b@[o.lb.off + p * o.lb.rs + j * o.lb.cs];
                    if conj_a == conj_b {
                        acc + x.re * y.re - x.im * y.im
                    } else {
                        acc + x.re * y.re + x.im * y.im
                    }
                },
            o.k as int,
        ),
        adds_up(
            im,
            0,
            |acc: int, p: int|
                {
                    let x = o.a@[o.la.off + i * o.la.rs + p * o.la.cs];
                    let y = o.b@[o.lb.off + p * o.lb.rs + j * o.lb.cs];
                    acc + (if conj_b {
                        -(x.re * y.im)
                    } else {
                        x.re * y.im
                    }) + (if conj_a {
                        -(x.im * y.re)
                    } else {
                        x.im * y.re
                    })
                },
            o.k as int,
        ),
    ensures
        ({
            let out = cplx_element(ctx, o, conj_a, conj_b, alpha, beta, i, j, old);
            let (sr, si) = (re[o.k as int], im[o.k as int]);
            &&& (out.re - (alpha.re * sr - alpha.im * si + beta.re * old.re - beta.im * old.im))
                % 0x1_0000_0000 == 0
            &&& (out.im - (alpha.re * si + alpha.im * sr + beta.re * old.im + beta.im * old.re))
                % 0x1_0000_0000 == 0
        }),
{
    reveal(Layout::idx);
    let k = o.k as int;
    let f = |p: int|
        op(conj_a, o.a@[o.la.idx(i, p)]).times_spec(op(conj_b, o.b@[o.lb.idx(p, j)]));
    assert forall|p: int| 0 <= p < k implies congruent(
        #[trigger] re[p + 1],
        re[p] + f(p).re,
    ) by {
        let x = o.a@[o.la.off + i * o.la.rs + p * o.la.cs];
        let y = o.b@[o.lb.off + p * o.lb.rs + j * o.lb.cs];
        lemma_op_product(conj_a, conj_b, x, y);
        lemma_congruent_wrap(re[p]);
        let g = re[p + 1] - re[p];
        lemma_congruent_sums(f(p).re as int, g, re[p], re[p]);
        lemma_congruent_sums(f(p).re + re[p], g + re[p], re[p], re[p]);
    }
    assert forall|p: int| 0 <= p < k implies congruent(
        #[trigger] im[p + 1],
        im[p] + f(p).im,
    ) by {
        let x = o.a@[o.la.off + i * o.la.rs + p * o.la.cs];
        let y = o.b@[o.lb.off + p * o.lb.rs + j * o.lb.cs];
        lemma_op_product(conj_a, conj_b, x, y);
        lemma_congruent_wrap(im[p]);
        let g = im[p + 1] - im[p];
        lemma_congruent_sums(f(p).im as int, g, im[p], im[p]);
        lemma_congruent_sums(f(p).im + im[p], g + im[p], im[p], im[p]);
    }
    lemma_complex_sum_by_parts(f, re, im, k, k);
    law_complex_gemm_is_exact(ctx, o, conj_a, conj_b, alpha, beta, i, j, old);
    let s = cplx_sum(o, conj_a, conj_b, i, j);
    assert(s == ring_sum(f, 0, k));
    lemma_blend_by_parts(alpha, s, beta, old, re[k], im[k]);
    reveal(congruent);
}

} // verus!
