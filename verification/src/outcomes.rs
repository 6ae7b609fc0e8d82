//! What the entries compute, said in terms of the elements of their operands.
//!
//! The laws here name the places of the elements by offset and stride, and the arithmetic by the
//! operations of the element type. A sum over the depth is given as the sequence of its running
//! values.

use vstd::arithmetic::mul::*;
use vstd::prelude::*;

use crate::api::MatRef;
use crate::arith::{abs_int, div_up, lemma_div_up, min_int};
use crate::dispatch::{route_spec, Operands, Routes};
use crate::element::{GemmScalar, Plain};
use crate::fused::{
    epi_routes, fused_element, fused_epi_spec, pre_epilogue, raw_bias, Activation, Bias, BiasDim,
    FusedScalar,
};
use crate::gemm::operands_of;
use crate::homog::{gemm_element, gemm_total, plain_contraction, plain_routes, route_kc};
use crate::kernel::KernelFamily;
use crate::layout::{lemma_transposed_idx, Layout};
use crate::packed_gemm::{
    known_a_request, lemma_split_positive, packed_a_request, packed_b_request, PackedConsume,
};
use crate::parallel::Context;
use crate::prepack::{rhs_geometry, PackedRhs};
use crate::product::Contraction;
use crate::scalar::Scalar;
use crate::sums::{adds_up, lemma_by_slices, lemma_one_slice};

verus! {

/// The arithmetic of a product on its route, with the operands in the order in which they are
/// multiplied.
proof fn lemma_total<'a, T: GemmScalar>(
    ctx: Context,
    routes: Routes,
    o: Operands<'a, T>,
    alpha: T::Acc,
    beta: T::Acc,
    i: int,
    j: int,
    old: T,
    turned: bool,
) -> (r: (Contraction<Plain<T>>, int, int))
    requires
        o.k > 0,
        turned == (abs_int(o.lc.cs as int) < abs_int(o.lc.rs as int) && !(routes.gemv && (o.m == 1
            || o.n == 1) && min_int(o.m as int, o.n as int) <= ctx.tuning.gemv_threshold)),
    ensures
        ({
            let (con, x, y) = r;
            &&& con.k == o.k
            &&& con.kc > 0
            &&& !T::out_is_acc_spec() ==> con.kc == con.k
            &&& con.alpha == alpha
            &&& con.beta == beta
            &&& con.total(x, y, old) == gemm_total(ctx, routes, o, alpha, beta, i, j, old)
            &&& con.kc == route_kc(
                ctx,
                route_spec(ctx, routes, o),
                if turned {
                    o.transposed()
                } else {
                    o
                },
            )
            &&& forall|p: int| #[trigger]
                (con.a)(x, p) == if turned {
                    o.b@[o.lb.off + p * o.lb.rs + j * o.lb.cs]
                } else {
                    o.a@[o.la.off + i * o.la.rs + p * o.la.cs]
                }
            &&& forall|p: int| #[trigger]
                (con.b)(y, p) == if turned {
                    o.a@[o.la.off + i * o.la.rs + p * o.la.cs]
                } else {
                    o.b@[o.lb.off + p * o.lb.rs + j * o.lb.cs]
                }
        }),
{
    reveal(Layout::idx);
    let route = route_spec(ctx, routes, o);
    if turned {
        let t = o.transposed();
        let con = plain_contraction(t, route_kc(ctx, route, t), alpha, beta);
        assert forall|p: int| #[trigger] (con.a)(j, p) == o.b@[o.lb.off + p * o.lb.rs + j
            * o.lb.cs] by {
            lemma_transposed_idx(o.lb, j, p);
        }
        assert forall|p: int| #[trigger] (con.b)(i, p) == o.a@[o.la.off + i * o.la.rs + p
            * o.la.cs] by {
            lemma_transposed_idx(o.la, p, i);
        }
        (con, j, i)
    } else {
        (plain_contraction(o, route_kc(ctx, route, o), alpha, beta), i, j)
    }
}

/// A type that cannot hold its accumulator rounds an output once. Where the `A*B` term does not
/// vanish, the output is `alpha*s + beta*C` in the accumulator, narrowed, and `s` adds up the
/// products of row `i` and column `j` over the whole depth, one after another. The factors are
/// exchanged (`turned`) where C is laid out by rows, except on the matrix-vector route.
pub proof fn law_narrow_gemm_rounds_once<'a, T: GemmScalar>(
    ctx: Context,
    o: Operands<'a, T>,
    alpha: T,
    beta: T,
    i: int,
    j: int,
    old: T,
    turned: bool,
    s: Seq<T::Acc>,
)
    requires
        !T::out_is_acc_spec(),
        o.k > 0,
        !alpha.is_zero_spec(),
        turned == (abs_int(o.lc.cs as int) < abs_int(o.lc.rs as int) && !((o.m == 1 || o.n == 1)
            && min_int(o.m as int, o.n as int) <= ctx.tuning.gemv_threshold)),
        adds_up(
            s,
            T::Acc::zero_spec(),
            |acc: T::Acc, p: int|
                if turned {
                    T::madd_spec(
                        acc,
                        o.b@[o.lb.off + p * o.lb.rs + j * o.lb.cs],
                        o.a@[o.la.off + i * o.la.rs + p * o.la.cs],
                    )
                } else {
                    T::madd_spec(
                        acc,
                        o.a@[o.la.off + i * o.la.rs + p * o.la.cs],
                        o.b@[o.lb.off + p * o.lb.rs + j * o.lb.cs],
                    )
                },
            o.k as int,
        ),
    ensures
        ({
            let t = if alpha.widen_spec().is_one_spec() {
                s[o.k as int]
            } else {
                alpha.widen_spec().times_spec(s[o.k as int])
            };
            gemm_element(ctx, o, alpha, beta, i, j, old) == T::narrow_spec(
                if beta.widen_spec().is_zero_spec() {
                    t
                } else if beta.widen_spec().is_one_spec() {
                    t.plus_spec(old.widen_spec())
                } else {
                    t.plus_spec(beta.widen_spec().times_spec(old.widen_spec()))
                },
            )
        }),
{
    let (a, b) = (alpha.widen_spec(), beta.widen_spec());
    let (con, x, y) = lemma_total(
        ctx,
        plain_routes::<T>(ctx),
        o,
        a,
        b,
        i,
        j,
        old,
        turned,
    );
    lemma_one_slice(con, x, y, old, s);
}

/// The same of the accumulator that the bias and the activation of a narrow type are given: it has
/// not been rounded.
pub proof fn law_narrow_epilogue_sees_the_accumulator<'a, T: GemmScalar>(
    ctx: Context,
    o: Operands<'a, T>,
    alpha: T,
    beta: T,
    i: int,
    j: int,
    old: T,
    turned: bool,
    s: Seq<T::Acc>,
)
    requires
        !T::out_is_acc_spec(),
        o.k > 0,
        !alpha.is_zero_spec(),
        turned == (abs_int(o.lc.cs as int) < abs_int(o.lc.rs as int)),
        adds_up(
            s,
            T::Acc::zero_spec(),
            |acc: T::Acc, p: int|
                if turned {
                    T::madd_spec(
                        acc,
                        o.b@[o.lb.off + p * o.lb.rs + j * o.lb.cs],
                        o.a@[o.la.off + i * o.la.rs + p * o.la.cs],
                    )
                } else {
                    T::madd_spec(
                        acc,
                        o.a@[o.la.off + i * o.la.rs + p * o.la.cs],
                        o.b@[o.lb.off + p * o.lb.rs + j * o.lb.cs],
                    )
                },
            o.k as int,
        ),
    ensures
        ({
            let t = if alpha.widen_spec().is_one_spec() {
                s[o.k as int]
            } else {
                alpha.widen_spec().times_spec(s[o.k as int])
            };
            pre_epilogue(ctx, o, alpha, beta, i, j, old) == if beta.widen_spec().is_zero_spec() {
                t
            } else if beta.widen_spec().is_one_spec() {
                t.plus_spec(old.widen_spec())
            } else {
                t.plus_spec(beta.widen_spec().times_spec(old.widen_spec()))
            }
        }),
{
    let (a, b) = (alpha.widen_spec(), beta.widen_spec());
    let (con, x, y) = lemma_total(ctx, epi_routes::<T>(), o, a, b, i, j, old, turned);
    lemma_one_slice(con, x, y, old, s);
}

/// Every type, slice by slice. A depth that is split into `n` slices of `kc` leaves `v[t]` in the
/// accumulator after slice `t`: `alpha` times the sum `d(t)` of the slice, plus `beta` times the
/// old C in the first one, and plus what the slice before has stored in the others. The output is
/// the last of them, narrowed.
pub proof fn law_gemm_slice_by_slice<'a, T: GemmScalar>(
    ctx: Context,
    o: Operands<'a, T>,
    alpha: T,
    beta: T,
    i: int,
    j: int,
    old: T,
    turned: bool,
    kc: int,
    n: int,
    d: spec_fn(int) -> Seq<T::Acc>,
    v: Seq<T::Acc>,
)
    requires
        o.k > 0,
        !alpha.is_zero_spec(),
        turned == (abs_int(o.lc.cs as int) < abs_int(o.lc.rs as int) && !((o.m == 1 || o.n == 1)
            && min_int(o.m as int, o.n as int) <= ctx.tuning.gemv_threshold)),
        kc == route_kc(
            ctx,
            route_spec(ctx, plain_routes::<T>(ctx), o),
            if turned {
                o.transposed()
            } else {
                o
            },
        ),
        n == div_up(o.k as int, kc),
        v.len() == n,
        forall|t: int|
            0 <= t < n ==> adds_up(
                #[trigger] d(t),
                T::Acc::zero_spec(),
                |acc: T::Acc, p: int|
                    if turned {
                        T::madd_spec(
                            acc,
                            o.b@[o.lb.off + (t * kc + p) * o.lb.rs + j * o.lb.cs],
                            o.a@[o.la.off + i * o.la.rs + (t * kc + p) * o.la.cs],
                        )
                    } else {
                        T::madd_spec(
                            acc,
                            o.a@[o.la.off + i * o.la.rs + (t * kc + p) * o.la.cs],
                            o.b@[o.lb.off + (t * kc + p) * o.lb.rs + j * o.lb.cs],
                        )
                    },
                min_int(kc, o.k - t * kc),
            ),
        ({
            let x = d(0)[min_int(kc, o.k as int)];
            let y = if alpha.widen_spec().is_one_spec() {
                x
            } else {
                alpha.widen_spec().times_spec(x)
            };
            v[0] == if beta.widen_spec().is_zero_spec() {
                y
            } else if beta.widen_spec().is_one_spec() {
                y.plus_spec(old.widen_spec())
            } else {
                y.plus_spec(beta.widen_spec().times_spec(old.widen_spec()))
            }
        }),
        forall|t: int|
            1 <= t < n ==> #[trigger] v[t] == (if alpha.widen_spec().is_one_spec() {
                d(t)[min_int(kc, o.k - t * kc)]
            } else {
                alpha.widen_spec().times_spec(d(t)[min_int(kc, o.k - t * kc)])
            }).plus_spec(T::narrow_spec(v[t - 1]).widen_spec()),
    ensures
        kc > 0,
        n > 0,
        gemm_element(ctx, o, alpha, beta, i, j, old) == T::narrow_spec(v[n - 1]),
{
    let (a, b) = (alpha.widen_spec(), beta.widen_spec());
    let (con, x, y) = lemma_total(
        ctx,
        plain_routes::<T>(ctx),
        o,
        a,
        b,
        i,
        j,
        old,
        turned,
    );
    lemma_div_up(con.k, con.kc);
    let c = Seq::new(
        n as nat,
        |t: int|
            if t == 0 {
                old
            } else {
                T::narrow_spec(v[t - 1])
            },
    );
    assert forall|t: int| 0 <= t < n implies adds_up(
        #[trigger] d(t),
        T::Acc::zero_spec(),
        |acc: T::Acc, p: int|
            <Plain<T> as KernelFamily>::madd_spec(
                acc,
                (con.a)(x, t * con.kc + p),
                (con.b)(y, t * con.kc + p),
            ),
        min_int(con.kc, con.k - t * con.kc),
    ) by {
        let s = d(t);
        let m = min_int(kc, o.k - t * kc);
        assert forall|p: int| 0 <= p < m implies #[trigger] s[p + 1] == <Plain<
            T,
        > as KernelFamily>::madd_spec(
            s[p],
            (con.a)(x, t * con.kc + p),
            (con.b)(y, t * con.kc + p),
        ) by {}
    }
    lemma_mul_basics(kc);
    lemma_by_slices(con, x, y, old, d, v, c, n - 1);
}

/// Where the `A*B` term vanishes, for want of depth or by a zero `alpha`, C is scaled: a zero
/// `beta` clears it whatever it held, a unit `beta` leaves it, and any other multiplies it in the
/// accumulator. An epilogue is given the product before it is narrowed.
pub proof fn law_vanishing_product_scales_c<'a, T: GemmScalar>(
    ctx: Context,
    o: Operands<'a, T>,
    alpha: T,
    beta: T,
    i: int,
    j: int,
    old: T,
)
    requires
        o.k == 0 || alpha.is_zero_spec(),
    ensures
        beta.is_zero_spec() ==> gemm_element(ctx, o, alpha, beta, i, j, old) == T::zero_spec()
            && pre_epilogue(ctx, o, alpha, beta, i, j, old) == T::Acc::zero_spec(),
        !beta.is_zero_spec() && beta.is_one_spec() ==> gemm_element(
            ctx,
            o,
            alpha,
            beta,
            i,
            j,
            old,
        ) == old && pre_epilogue(ctx, o, alpha, beta, i, j, old) == old.widen_spec(),
        !beta.is_zero_spec() && !beta.is_one_spec() ==> gemm_element(
            ctx,
            o,
            alpha,
            beta,
            i,
            j,
            old,
        ) == T::narrow_spec(beta.widen_spec().times_spec(old.widen_spec())) && pre_epilogue(
            ctx,
            o,
            alpha,
            beta,
            i,
            j,
            old,
        ) == beta.widen_spec().times_spec(old.widen_spec()),
{
}

/// Of a type that holds its accumulator, the epilogue is given what the plain product stores.
pub proof fn law_exact_epilogue_sees_the_product<'a, T: GemmScalar>(
    ctx: Context,
    o: Operands<'a, T>,
    alpha: T,
    beta: T,
    i: int,
    j: int,
    old: T,
)
    requires
        T::out_is_acc_spec(),
    ensures
        pre_epilogue(ctx, o, alpha, beta, i, j, old) == gemm_element(
            ctx,
            o,
            alpha,
            beta,
            i,
            j,
            old,
        ).widen_spec(),
{
    T::exact_is_lossless(pre_epilogue(ctx, o, alpha, beta, i, j, old), old);
    T::exact_is_lossless(T::Acc::zero_spec(), T::zero_spec());
}

/// What the epilogue stores of an accumulator `v`: the bias at the caller's row or column is added
/// first, the activation is applied to the sum, whether there was a bias or not, and the result is
/// narrowed once.
pub proof fn law_bias_then_activation<'a, T: FusedScalar>(
    bias: Option<Bias<'a, T>>,
    act: Option<Activation<T>>,
    v: T::Acc,
    i: int,
    j: int,
)
    ensures
        ({
            let b = match bias {
                None => v,
                Some(Bias::PerRow(s)) => v.plus_spec(s@[i].widen_spec()),
                Some(Bias::PerCol(s)) => v.plus_spec(s@[j].widen_spec()),
            };
            fused_epi_spec(bias, act).value(v, i, j) == match act {
                None => T::narrow_spec(b),
                Some(Activation::Relu) => T::narrow_spec(T::relu_spec(b)),
                Some(Activation::LeakyRelu(slope)) => T::narrow_spec(
                    T::leaky_relu_spec(slope.widen_spec(), b),
                ),
            }
        }),
{
}

/// An element of a fused product, for every selection of a bias and an activation: the accumulator
/// that the epilogue is given, with the bias, through the activation. With neither it is the plain
/// product.
pub proof fn law_fused_element<'a, T: FusedScalar>(
    ctx: Context,
    o: Operands<'a, T>,
    alpha: T,
    beta: T,
    bias: Option<Bias<'a, T>>,
    act: Option<Activation<T>>,
    i: int,
    j: int,
    old: T,
)
    ensures
        ({
            let v = pre_epilogue(ctx, o, alpha, beta, i, j, old);
            let b = match bias {
                None => v,
                Some(Bias::PerRow(s)) => v.plus_spec(s@[i].widen_spec()),
                Some(Bias::PerCol(s)) => v.plus_spec(s@[j].widen_spec()),
            };
            let out = fused_element(ctx, o, alpha, beta, bias, act, i, j, old);
            &&& act matches Some(Activation::Relu) ==> out == T::narrow_spec(T::relu_spec(b))
            &&& act matches Some(Activation::LeakyRelu(slope)) ==> out == T::narrow_spec(
                T::leaky_relu_spec(slope.widen_spec(), b),
            )
            &&& act is None && bias is Some ==> out == T::narrow_spec(b)
            &&& act is None && bias is None ==> out == gemm_element(
                ctx,
                o,
                alpha,
                beta,
                i,
                j,
                old,
            )
        }),
{
}

/// A bias by pointer and axis is the bias of that axis, and none without `has_bias`.
pub proof fn law_raw_bias<'a, T>(s: &'a [T], has_bias: bool)
    ensures
        raw_bias(s, BiasDim::PerRow, has_bias) == (if has_bias {
            Some(Bias::PerRow(s))
        } else {
            None::<Bias<'a, T>>
        }),
        raw_bias(s, BiasDim::PerCol, has_bias) == (if has_bias {
            Some(Bias::PerCol(s))
        } else {
            None::<Bias<'a, T>>
        }),
{
}

/// A product with a prepacked operand, of a type that cannot hold its accumulator: where the `A*B`
/// term does not vanish, the accumulator that an epilogue is given is `alpha*s + beta*C`, `s` being
/// the running sum over the whole depth of row `i` and column `j` of the packed operand, and the
/// product without an epilogue stores that accumulator, narrowed.
pub proof fn law_narrow_packed_product_rounds_once<'a, T: GemmScalar>(
    ctx: Context,
    packing: Context,
    req: PackedConsume<'a, T>,
    i: int,
    j: int,
    old: T,
    s: Seq<T::Acc>,
)
    requires
        !T::out_is_acc_spec(),
        req.packed.geometry() == rhs_geometry::<T>(
            packing,
            req.packed.geometry().k,
            req.packed.geometry().n,
        ),
        req.packed.geometry().k > 0,
        req.packed.geometry().n > 0,
        !req.alpha.is_zero_spec(),
        adds_up(
            s,
            T::Acc::zero_spec(),
            |acc: T::Acc, p: int|
                T::madd_spec(
                    acc,
                    req.a@[req.la.off + i * req.la.rs + p * req.la.cs],
                    (req.packed.element())(j, p),
                ),
            req.packed.geometry().k as int,
        ),
    ensures
        ({
            let (alpha, beta) = (req.alpha.widen_spec(), req.beta.widen_spec());
            let x = s[req.packed.geometry().k as int];
            let t = if alpha.is_one_spec() {
                x
            } else {
                alpha.times_spec(x)
            };
            let v = if beta.is_zero_spec() {
                t
            } else if beta.is_one_spec() {
                t.plus_spec(old.widen_spec())
            } else {
                t.plus_spec(beta.times_spec(old.widen_spec()))
            };
            &&& req.pre_epilogue(ctx, i, j, old) == v
            &&& req.element(ctx, i, j, old) == T::narrow_spec(v)
        }),
{
    reveal(Layout::idx);
    let con = req.con(ctx);
    assert forall|p: int| 0 <= p < con.k implies #[trigger] s[p + 1] == <Plain<
        T,
    > as KernelFamily>::madd_spec(s[p], (con.a)(i, p), (con.b)(j, p)) by {}
    lemma_one_slice(con, i, j, old, s);
}

/// A product with a prepacked operand of any type, slice by slice; see [`law_gemm_slice_by_slice`].
pub proof fn law_packed_slice_by_slice<'a, T: GemmScalar>(
    ctx: Context,
    req: PackedConsume<'a, T>,
    i: int,
    j: int,
    old: T,
    kc: int,
    n: int,
    d: spec_fn(int) -> Seq<T::Acc>,
    v: Seq<T::Acc>,
)
    requires
        req.packed.geometry().k > 0,
        req.packed.geometry().kc > 0,
        !req.alpha.is_zero_spec(),
        kc == req.split(ctx),
        n == div_up(req.packed.geometry().k as int, kc),
        v.len() == n,
        forall|t: int|
            0 <= t < n ==> adds_up(
                #[trigger] d(t),
                T::Acc::zero_spec(),
                |acc: T::Acc, p: int|
                    T::madd_spec(
                        acc,
                        req.a@[req.la.off + i * req.la.rs + (t * kc + p) * req.la.cs],
                        (req.packed.element())(j, t * kc + p),
                    ),
                min_int(kc, req.packed.geometry().k - t * kc),
            ),
        ({
            let (alpha, beta) = (req.alpha.widen_spec(), req.beta.widen_spec());
            let x = d(0)[min_int(kc, req.packed.geometry().k as int)];
            let y = if alpha.is_one_spec() {
                x
            } else {
                alpha.times_spec(x)
            };
            v[0] == if beta.is_zero_spec() {
                y
            } else if beta.is_one_spec() {
                y.plus_spec(old.widen_spec())
            } else {
                y.plus_spec(beta.times_spec(old.widen_spec()))
            }
        }),
        forall|t: int|
            1 <= t < n ==> #[trigger] v[t] == (if req.alpha.widen_spec().is_one_spec() {
                d(t)[min_int(kc, req.packed.geometry().k - t * kc)]
            } else {
                req.alpha.widen_spec().times_spec(
                    d(t)[min_int(kc, req.packed.geometry().k - t * kc)],
                )
            }).plus_spec(T::narrow_spec(v[t - 1]).widen_spec()),
    ensures
        n > 0,
        req.pre_epilogue(ctx, i, j, old) == v[n - 1],
        req.element(ctx, i, j, old) == T::narrow_spec(v[n - 1]),
{
    reveal(Layout::idx);
    let con = req.con(ctx);
    lemma_split_positive::<T>(ctx, req.m, req.la, req.packed.geometry());
    lemma_div_up(con.k, con.kc);
    let c = Seq::new(
        n as nat,
        |t: int|
            if t == 0 {
                old
            } else {
                T::narrow_spec(v[t - 1])
            },
    );
    assert forall|t: int| 0 <= t < n implies adds_up(
        #[trigger] d(t),
        T::Acc::zero_spec(),
        |acc: T::Acc, p: int|
            <Plain<T> as KernelFamily>::madd_spec(
                acc,
                (con.a)(i, t * con.kc + p),
                (con.b)(j, t * con.kc + p),
            ),
        min_int(con.kc, con.k - t * con.kc),
    ) by {
        let s = d(t);
        let m = min_int(kc, con.k - t * kc);
        assert forall|p: int| 0 <= p < m implies #[trigger] s[p + 1] == <Plain<
            T,
        > as KernelFamily>::madd_spec(
            s[p],
            (con.a)(i, t * con.kc + p),
            (con.b)(j, t * con.kc + p),
        ) by {}
    }
    lemma_mul_basics(kc);
    lemma_by_slices(con, i, j, old, d, v, c, n - 1);
}

/// The narrowed accumulator of the epilogue is what the product without one stores, of every type.
/// Where the `A*B` term vanishes, C is scaled as in the plain product.
pub proof fn law_packed_epilogue_sees_the_product<'a, T: GemmScalar>(
    ctx: Context,
    req: PackedConsume<'a, T>,
    i: int,
    j: int,
    old: T,
)
    ensures
        req.packed.geometry().k != 0 && !req.alpha.is_zero_spec() ==> req.element(ctx, i, j, old)
            == T::narrow_spec(req.pre_epilogue(ctx, i, j, old)),
        req.packed.geometry().k == 0 || req.alpha.is_zero_spec() ==> {
            &&& req.beta.is_zero_spec() ==> req.element(ctx, i, j, old) == T::zero_spec()
                && req.pre_epilogue(ctx, i, j, old) == T::Acc::zero_spec()
            &&& !req.beta.is_zero_spec() && req.beta.is_one_spec() ==> req.element(ctx, i, j, old)
                == old && req.pre_epilogue(ctx, i, j, old) == old.widen_spec()
            &&& !req.beta.is_zero_spec() && !req.beta.is_one_spec() ==> req.element(ctx, i, j, old)
                == T::narrow_spec(req.beta.widen_spec().times_spec(old.widen_spec()))
                && req.pre_epilogue(ctx, i, j, old) == req.beta.widen_spec().times_spec(
                old.widen_spec(),
            )
        },
{
}

/// The accumulator that the epilogue of a product with a prepacked `B` is given is that of the
/// fused product over the unpacked operand, for a C that is not laid out by rows: of every narrow
/// type, and of the others where the depth is split alike.
pub proof fn law_packed_b_epilogue_is_the_unpacked_one<'a, T: GemmScalar>(
    ctx: Context,
    o: Operands<'a, T>,
    req: PackedConsume<'a, T>,
    i: int,
    j: int,
    old: T,
)
    requires
        o.n > 0,
        abs_int(o.lc.cs as int) >= abs_int(o.lc.rs as int),
        req.a == o.a,
        req.la == o.la,
        req.packed.geometry() == rhs_geometry::<T>(ctx, o.k, o.n),
        req.packed.element() == (|j: int, p: int| o.b@[o.lb.off + p * o.lb.rs + j * o.lb.cs]),
        !T::out_is_acc_spec() || req.split(ctx) == route_kc(
            ctx,
            route_spec(ctx, epi_routes::<T>(), o),
            o,
        ),
    ensures
        req.pre_epilogue(ctx, i, j, old) == pre_epilogue(ctx, o, req.alpha, req.beta, i, j, old),
{
    reveal(Layout::idx);
    if o.k > 0 {
        let con = req.con(ctx);
        let route = route_spec(ctx, epi_routes::<T>(), o);
        let plain = plain_contraction(
            o,
            route_kc(ctx, route, o),
            req.alpha.widen_spec(),
            req.beta.widen_spec(),
        );
        assert(con.a =~= plain.a);
        assert(con.b =~= plain.b);
        assert(con == plain);
    }
}

/// The same of a prepacked `A`, for a C that is laid out by rows and outside the matrix-vector
/// route.
pub proof fn law_packed_a_epilogue_is_the_unpacked_one<'a, T: GemmScalar>(
    ctx: Context,
    o: Operands<'a, T>,
    req: PackedConsume<'a, T>,
    i: int,
    j: int,
    old: T,
)
    requires
        o.m > 0,
        abs_int(o.lc.cs as int) < abs_int(o.lc.rs as int),
        !T::out_is_acc_spec() || o.m != 1 && o.n != 1,
        req.a == o.b,
        req.la == (Layout { off: o.lb.off, rs: o.lb.cs, cs: o.lb.rs }),
        req.packed.geometry() == rhs_geometry::<T>(ctx, o.k, o.m),
        req.packed.element() == (|i: int, p: int| o.a@[o.la.off + i * o.la.rs + p * o.la.cs]),
        !T::out_is_acc_spec() || req.split(ctx) == route_kc(
            ctx,
            route_spec(ctx, epi_routes::<T>(), o),
            o.transposed(),
        ),
    ensures
        req.pre_epilogue(ctx, j, i, old) == pre_epilogue(ctx, o, req.alpha, req.beta, i, j, old),
{
    reveal(Layout::idx);
    if o.k > 0 {
        let t = o.transposed();
        let con = req.con(ctx);
        let route = route_spec(ctx, epi_routes::<T>(), o);
        let plain = plain_contraction(
            t,
            route_kc(ctx, route, t),
            req.alpha.widen_spec(),
            req.beta.widen_spec(),
        );
        assert(con.a =~= plain.a);
        assert forall|x: int, p: int| #[trigger] (con.b)(x, p) == (plain.b)(x, p) by {
            lemma_transposed_idx(o.la, p, x);
        }
        assert(con.b =~= plain.b);
        assert(con == plain);
    }
}

/// An element of a fused product with a prepacked operand, for every selection of a bias and an
/// activation, counted as the caller's `(r, s)`; see [`law_fused_element`].
pub proof fn law_packed_fused_element<'a, T: FusedScalar>(
    ctx: Context,
    req: PackedConsume<'a, T>,
    bias: Option<Bias<'a, T>>,
    act: Option<Activation<T>>,
    i: int,
    j: int,
    old: T,
    r: int,
    s: int,
)
    ensures
        ({
            let v = req.pre_epilogue(ctx, i, j, old);
            let b = match bias {
                None => v,
                Some(Bias::PerRow(x)) => v.plus_spec(x@[r].widen_spec()),
                Some(Bias::PerCol(x)) => v.plus_spec(x@[s].widen_spec()),
            };
            let out = req.fused_element(ctx, fused_epi_spec(bias, act), i, j, old, r, s);
            &&& act matches Some(Activation::Relu) ==> out == T::narrow_spec(T::relu_spec(b))
            &&& act matches Some(Activation::LeakyRelu(slope)) ==> out == T::narrow_spec(
                T::leaky_relu_spec(slope.widen_spec(), b),
            )
            &&& act is None && bias is Some ==> out == T::narrow_spec(b)
            &&& act is None && bias is None ==> out == req.element(ctx, i, j, old)
        }),
{
}

/// How the operands of a product with a prepacked operand are put together: A and a packed B as
/// they are, and a packed A as the right operand of the transposed product.
pub proof fn law_packed_requests<'a, T>(
    alpha: T,
    a: MatRef<'a, T>,
    packed: &'a PackedRhs<T>,
    beta: T,
    lc: Layout,
)
    ensures
        packed_b_request(alpha, a, packed, beta, lc) == (PackedConsume {
            m: a.rows,
            alpha,
            a: a.data,
            la: Layout { off: 0, rs: a.rs, cs: a.cs },
            packed,
            beta,
            lc,
        }),
        packed_a_request(alpha, packed, a, beta, lc) == (PackedConsume {
            m: a.cols,
            alpha,
            a: a.data,
            la: Layout { off: 0, rs: a.cs, cs: a.rs },
            packed,
            beta,
            lc: Layout { off: lc.off, rs: lc.cs, cs: lc.rs },
        }),
{
}

/// The operands of a product of views: their elements stand at `i*rs + j*cs`.
pub proof fn law_operands_of_views<'a, T>(a: MatRef<'a, T>, b: MatRef<'a, T>, lc: Layout)
    ensures
        operands_of(a, b, lc) == (Operands {
            m: a.rows,
            k: a.cols,
            n: b.cols,
            a: a.data,
            la: Layout { off: 0, rs: a.rs, cs: a.cs },
            b: b.data,
            lb: Layout { off: 0, rs: b.rs, cs: b.cs },
            lc,
        }),
        forall|i: int, j: int| #[trigger] a.at(i, j) == a.data@[i * a.rs + j * a.cs],
{
    reveal(Layout::idx);
}

/// The request of a prepacked A that is given by its buffer: the transposed product, of as many
/// rows as B has columns.
pub proof fn law_known_a_request<'a, T>(
    alpha: T,
    packed: &'a PackedRhs<T>,
    n: usize,
    b: &'a [T],
    lb: Layout,
    beta: T,
    lc: Layout,
)
    ensures
        known_a_request(alpha, packed, n, b, lb, beta, lc) == (PackedConsume {
            m: n,
            alpha,
            a: b,
            la: Layout { off: lb.off, rs: lb.cs, cs: lb.rs },
            packed,
            beta,
            lc: Layout { off: lc.off, rs: lc.cs, cs: lc.rs },
        }),
        lc.transposed() == (Layout { off: lc.off, rs: lc.cs, cs: lc.rs }),
{
}

} // verus!
