//! What the integer and the requantizing entries compute, in whole numbers.

use vstd::arithmetic::power2::*;
use vstd::prelude::*;

use crate::dispatch::Operands;
use crate::fused::BiasSpec;
use crate::gemm_i8::int_element;
use crate::integer::int_sum;
use crate::layout::Layout;
use crate::packed_gemm::int_packed_element;
use crate::prepack::PackedRhs;
use crate::quantize::{
    clamp, law_round_is_nearest, lemma_round_unique, round_ne, QuantOut, Scale,
};
use crate::requant::{
    int_acc, requant_epi, KRequantize, RequantScale, Requantize, ScaleSpec,
};
use crate::scalar::{lemma_wrap_i32, wrap_i32};
use crate::sums::{adds_up, lemma_adds_up_exists};

verus! {

/// A sum of products is the end of its running sum.
proof fn lemma_int_sum_adds_up(
    x: spec_fn(int) -> i8,
    y: spec_fn(int) -> i8,
    s: Seq<int>,
    n: int,
    m: int,
)
    requires
        0 <= m <= n,
        s.len() == n + 1,
        s[0] == 0,
        forall|p: int| 0 <= p < n ==> #[trigger] s[p + 1] == s[p] + x(p) * y(p),
    ensures
        int_sum(x, y, 0, m) == s[m],
    decreases m,
{
    if m > 0 {
        lemma_int_sum_adds_up(x, y, s, n, m - 1);
        assert(s[(m - 1) + 1] == s[m - 1] + x(m - 1) * y(m - 1));
    }
}

/// Two words that differ by a multiple of `2^32` are the same.
proof fn lemma_same_word(x: i32, y: i32, v: int)
    requires
        (x - v) % 0x1_0000_0000 == 0,
        (y - v) % 0x1_0000_0000 == 0,
    ensures
        x == y,
{
}

/// An integer product is `alpha*s + beta*C` modulo `2^32`, `s` being the running sum in whole
/// numbers of the products of row `i` and column `j`.
pub proof fn law_int_gemm_is_modular<'a>(
    o: Operands<'a, i8>,
    alpha: i32,
    beta: i32,
    i: int,
    j: int,
    old: i32,
    s: Seq<int>,
)
    requires
        adds_up(
            s,
            0,
            |acc: int, p: int|
                acc + o.a@[o.la.off + i * o.la.rs + p * o.la.cs] * o.b@[o.lb.off + p * o.lb.rs + j
                    * o.lb.cs],
            o.k as int,
        ),
    ensures
        (int_element(o, alpha, beta, i, j, old) - (alpha * s[o.k as int] + beta * old))
            % 0x1_0000_0000 == 0,
{
    reveal(Layout::idx);
    let x = |p: int| o.a@[o.la.idx(i, p)];
    let y = |p: int| o.b@[o.lb.idx(p, j)];
    assert forall|p: int| 0 <= p < o.k implies #[trigger] s[p + 1] == s[p] + x(p) * y(p) by {}
    lemma_int_sum_adds_up(x, y, s, o.k as int, o.k as int);
    let a = |i: int, p: int| o.a@[o.la.idx(i, p)];
    let b = |j: int, p: int| o.b@[o.lb.idx(p, j)];
    assert((|p: int| a(i, p)) =~= x);
    assert((|p: int| b(j, p)) =~= y);
    lemma_wrap_i32(alpha * s[o.k as int] + beta * old);
}

/// The same of a product with a prepacked `B`.
pub proof fn law_int_packed_gemm_is_modular(
    a: Seq<i8>,
    la: Layout,
    packed: PackedRhs<i8>,
    alpha: i32,
    beta: i32,
    i: int,
    j: int,
    old: i32,
    s: Seq<int>,
)
    requires
        adds_up(
            s,
            0,
            |acc: int, p: int|
                acc + a[la.off + i * la.rs + p * la.cs] * (packed.element())(j, p),
            packed.geometry().k as int,
        ),
    ensures
        (int_packed_element(a, la, packed, alpha, beta, i, j, old) - (alpha
            * s[packed.geometry().k as int] + beta * old)) % 0x1_0000_0000 == 0,
{
    reveal(Layout::idx);
    let k = packed.geometry().k as int;
    let x = |p: int| a[la.idx(i, p)];
    let y = |p: int| (packed.element())(j, p);
    assert forall|p: int| 0 <= p < k implies #[trigger] s[p + 1] == s[p] + x(p) * y(p) by {}
    lemma_int_sum_adds_up(x, y, s, k, k);
    let f = |i: int, p: int| a[la.idx(i, p)];
    assert((|p: int| f(i, p)) =~= x);
    lemma_wrap_i32(alpha * s[k] + beta * old);
}

/// `y` is `scale * x` to the nearest integer, ties to even, for the exact value of the scale: a
/// single with exponent field `e` and fraction field `f` is `f * 2^-149` where `e` is zero, and
/// `(f + 2^23) * 2^(e - 150)` elsewhere.
pub open spec fn is_rescaled(scale: Scale, x: int, y: int) -> bool {
    let e = scale.bits as int / 0x80_0000 % 0x100;
    let f = scale.bits as int % 0x80_0000;
    let num = (if e == 0 {
        f
    } else {
        f + 0x80_0000
    }) * x;
    if e >= 150 {
        y == num * pow2((e - 150) as nat)
    } else {
        let den = pow2(
            (if e == 0 {
                149int
            } else {
                150 - e
            }) as nat,
        );
        &&& -den <= 2 * (y * den - num) <= den
        &&& 2 * (y * den - num) == den || 2 * (y * den - num) == -den ==> y % 2 == 0
    }
}

/// The nearest integer is the only one.
proof fn lemma_nearest_is_round(num: int, den: int, y: int)
    requires
        den > 0,
        -den <= 2 * (y * den - num) <= den,
        2 * (y * den - num) == den || 2 * (y * den - num) == -den ==> y % 2 == 0,
    ensures
        round_ne(num, den) == y,
{
    law_round_is_nearest(num, den);
    let z = round_ne(num, den);
    if -den < 2 * (y * den - num) < den {
        lemma_round_unique(num, den, y);
    } else if -den < 2 * (z * den - num) < den {
        assert(z == y) by (nonlinear_arith)
            requires
                den > 0,
                -den <= 2 * (y * den - num) <= den,
                -den < 2 * (z * den - num) < den,
        ;
    } else {
        assert(-1 <= z - y <= 1) by (nonlinear_arith)
            requires
                den > 0,
                -den <= 2 * (y * den - num) <= den,
                -den <= 2 * (z * den - num) <= den,
        ;
    }
}

/// A scale is taken at its exact value, and what it scales is rounded once, to the nearest integer
/// with ties to even.
pub proof fn law_rescaling_is_exact(scale: Scale, x: int, y: int)
    requires
        is_rescaled(scale, x, y),
    ensures
        scale.rescaled(x) == y,
{
    let e = scale.bits as int / 0x80_0000 % 0x100;
    let f = scale.bits as int % 0x80_0000;
    let num = scale.mantissa() * x;
    lemma2_to64();
    if e >= 150 {
        assert(scale.rescaled(x) == round_ne(num * pow2((e - 150) as nat), 1));
        lemma_nearest_is_round(num * pow2((e - 150) as nat), 1, y);
    } else {
        let p = (-scale.power()) as nat;
        lemma_pow2_pos(p);
        assert(num * pow2(0) == num);
        lemma_nearest_is_round(num, pow2(p) as int, y);
    }
}

/// A scale can be used exactly where it is finite and greater than zero: its bit pattern is one of
/// those between that of the least positive single and that of the largest finite one.
pub proof fn law_usable_scales(scale: Scale)
    ensures
        scale.usable() <==> 1 <= scale.bits <= 0x7f7f_ffff,
{
}

/// Clamping keeps what lies in the range and moves the rest to the nearer end.
pub proof fn law_clamping(v: int, lo: int, hi: int)
    requires
        lo <= hi,
    ensures
        lo <= v <= hi ==> clamp(v, lo, hi) == v,
        v < lo ==> clamp(v, lo, hi) == lo,
        v > hi ==> clamp(v, lo, hi) == hi,
{
}

/// A byte stands for itself, and its range is that of its type.
pub proof fn law_bytes_stand_for_themselves(x: i8, y: u8)
    ensures
        QuantOut::value(x) == x,
        QuantOut::value(y) == y,
        <i8 as QuantOut>::lo_spec() == -128,
        <i8 as QuantOut>::hi_spec() == 127,
        <u8 as QuantOut>::lo_spec() == 0,
        <u8 as QuantOut>::hi_spec() == 255,
        forall|v: int|
            -128 <= v <= 127 ==> QuantOut::value(#[trigger] <i8 as QuantOut>::byte(v)) == v,
        forall|v: int| 0 <= v <= 255 ==> QuantOut::value(#[trigger] <u8 as QuantOut>::byte(v)) == v,
{
}

/// An element of a requantizing product, whatever kind the scale is: `x` is the sum `s` of the
/// products of row `i` and column `j` plus the bias of row `i`, modulo `2^32`; `y` is that times
/// the scale of the tensor or of row `i`, rounded to nearest; and the output is the zero point plus
/// `y`, moved into the range of the byte.
pub proof fn law_requantized_element<'a>(
    o: Operands<'a, i8>,
    req: Requantize<'a>,
    i: int,
    j: int,
    s: Seq<int>,
    x: i32,
    y: int,
)
    requires
        adds_up(
            s,
            0,
            |acc: int, p: int|
                acc + o.a@[o.la.off + i * o.la.rs + p * o.la.cs] * o.b@[o.lb.off + p * o.lb.rs + j
                    * o.lb.cs],
            o.k as int,
        ),
        (x - (s[o.k as int] + match req.bias {
            Some(b) => b@[i] as int,
            None => 0,
        })) % 0x1_0000_0000 == 0,
        is_rescaled(
            match req.scale {
                RequantScale::PerTensor(t) => t,
                RequantScale::PerRow(t) => t@[i],
            },
            x as int,
            y,
        ),
    ensures
        requant_epi(req).value::<i8>(int_acc(o, i, j), i, j) == (if req.zero_point + y < -128 {
            -128
        } else if req.zero_point + y > 127 {
            127
        } else {
            req.zero_point + y
        }),
        requant_epi(req).value::<u8>(int_acc(o, i, j), i, j) == (if req.zero_point + y < 0 {
            0
        } else if req.zero_point + y > 255 {
            255
        } else {
            req.zero_point + y
        }),
{
    law_int_gemm_is_modular(o, 1, 0, i, j, 0, s);
    let acc = int_acc(o, i, j);
    let b = match req.bias {
        Some(b) => b@[i] as int,
        None => 0,
    };
    lemma_wrap_i32(acc + b);
    lemma_same_word(x, wrap_i32(acc + b), s[o.k as int] + b);
    let scale = match req.scale {
        RequantScale::PerTensor(t) => t,
        RequantScale::PerRow(t) => t@[i],
    };
    law_rescaling_is_exact(scale, x as int, y);
}

/// There are such numbers for any operands: a sum, a word and an integer nearest to its multiple.
pub proof fn law_requantized_element_is_determined<'a>(
    o: Operands<'a, i8>,
    req: Requantize<'a>,
    i: int,
    j: int,
) -> (r: (Seq<int>, i32, int))
    ensures
        ({
            let (s, x, y) = r;
            &&& adds_up(
                s,
                0,
                |acc: int, p: int|
                    acc + o.a@[o.la.off + i * o.la.rs + p * o.la.cs] * o.b@[o.lb.off + p * o.lb.rs
                        + j * o.lb.cs],
                o.k as int,
            )
            &&& (x - (s[o.k as int] + match req.bias {
                Some(b) => b@[i] as int,
                None => 0,
            })) % 0x1_0000_0000 == 0
            &&& is_rescaled(
                match req.scale {
                    RequantScale::PerTensor(t) => t,
                    RequantScale::PerRow(t) => t@[i],
                },
                x as int,
                y,
            )
        }),
{
    let s = lemma_adds_up_exists(
        0,
        |acc: int, p: int|
            acc + o.a@[o.la.off + i * o.la.rs + p * o.la.cs] * o.b@[o.lb.off + p * o.lb.rs + j
                * o.lb.cs],
        o.k as int,
    );
    let b = match req.bias {
        Some(b) => b@[i] as int,
        None => 0,
    };
    let x = wrap_i32(s[o.k as int] + b);
    lemma_wrap_i32(s[o.k as int] + b);
    let scale = match req.scale {
        RequantScale::PerTensor(t) => t,
        RequantScale::PerRow(t) => t@[i],
    };
    let y = scale.rescaled(x as int);
    let num = scale.mantissa() * x;
    lemma2_to64();
    if scale.exponent() >= 150 {
        law_round_is_nearest(num * pow2((scale.exponent() - 150) as nat), 1);
    } else {
        let p = (-scale.power()) as nat;
        lemma_pow2_pos(p);
        assert(num * pow2(0) == num);
        law_round_is_nearest(num, pow2(p) as int);
    }
    (s, x, y)
}

/// The requantizing epilogue, for every kind of scale with every kind of bias: `x` is the
/// accumulator plus the bias of the element's row or column, modulo `2^32`, and `y` is `x` times
/// the scale of the tensor, the row or the column, rounded to nearest.
pub proof fn law_requantize_epilogue<'a>(
    k: KRequantize<'a>,
    acc: i32,
    i: int,
    j: int,
    x: i32,
    y: int,
)
    requires
        (x - (acc + match k.bias {
            BiasSpec::Absent => 0,
            BiasSpec::Row(s) => s@[i] as int,
            BiasSpec::Col(s) => s@[j] as int,
        })) % 0x1_0000_0000 == 0,
        is_rescaled(
            match k.scale {
                ScaleSpec::Tensor(s) => s,
                ScaleSpec::Row(s) => s@[i],
                ScaleSpec::Col(s) => s@[j],
            },
            x as int,
            y,
        ),
    ensures
        k.value::<i8>(acc, i, j) == (if k.zp + y < -128 {
            -128
        } else if k.zp + y > 127 {
            127
        } else {
            k.zp + y
        }),
        k.value::<u8>(acc, i, j) == (if k.zp + y < 0 {
            0
        } else if k.zp + y > 255 {
            255
        } else {
            k.zp + y
        }),
{
    let b = match k.bias {
        BiasSpec::Absent => 0,
        BiasSpec::Row(s) => s@[i] as int,
        BiasSpec::Col(s) => s@[j] as int,
    };
    lemma_wrap_i32(acc + b);
    lemma_same_word(x, wrap_i32(acc + b), acc + b);
    let scale = match k.scale {
        ScaleSpec::Tensor(s) => s,
        ScaleSpec::Row(s) => s@[i],
        ScaleSpec::Col(s) => s@[j],
    };
    law_rescaling_is_exact(scale, x as int, y);
}

} // verus!
