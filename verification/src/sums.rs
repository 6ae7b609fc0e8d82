//! Running sums: the accumulator step by step, and the output slice by slice.

use vstd::arithmetic::mul::*;
use vstd::prelude::*;

use crate::arith::{lemma_div_up, min_int};
use crate::kernel::{chain, scaled, KernelFamily};
use crate::product::Contraction;
use crate::scalar::Scalar;

verus! {

/// `s` starts at `zero` and takes the steps `0, .., n - 1` one after another.
pub open spec fn adds_up<A>(s: Seq<A>, zero: A, step: spec_fn(A, int) -> A, n: int) -> bool {
    &&& s.len() == n + 1
    &&& s[0] == zero
    &&& forall|p: int| 0 <= p < n ==> #[trigger] s[p + 1] == step(s[p], p)
}

/// A running sum exists for any steps.
pub proof fn lemma_adds_up_exists<A>(zero: A, step: spec_fn(A, int) -> A, n: int) -> (s: Seq<A>)
    requires
        n >= 0,
    ensures
        adds_up(s, zero, step, n),
    decreases n,
{
    if n == 0 {
        seq![zero]
    } else {
        let t = lemma_adds_up_exists(zero, step, n - 1);
        let s = t.push(step(t[n - 1], n - 1));
        assert forall|p: int| 0 <= p < n implies #[trigger] s[p + 1] == step(s[p], p) by {
            if p < n - 1 {
                assert(t[p + 1] == step(t[p], p));
            }
        }
        s
    }
}

/// A chain is the end of its running sum.
pub proof fn lemma_chain_adds_up<F: KernelFamily>(
    init: F::Acc,
    x: spec_fn(int) -> F::Lhs,
    y: spec_fn(int) -> F::Rhs,
    lo: int,
    n: int,
    s: Seq<F::Acc>,
    m: int,
)
    requires
        0 <= m <= n,
        s.len() == n + 1,
        s[0] == init,
        forall|p: int|
            0 <= p < n ==> #[trigger] s[p + 1] == F::madd_spec(s[p], x(lo + p), y(lo + p)),
    ensures
        chain::<F>(init, x, y, lo, lo + m) == s[m],
    decreases m,
{
    if m > 0 {
        lemma_chain_adds_up::<F>(init, x, y, lo, n, s, m - 1);
        assert(s[(m - 1) + 1] == F::madd_spec(s[m - 1], x(lo + m - 1), y(lo + m - 1)));
    }
}

/// `out` is `alpha*v + beta*held`, with a unit `alpha`, a zero `beta` and a unit `beta` left out.
pub open spec fn mixed<A: Scalar>(alpha: A, v: A, beta: A, held: A, out: A) -> bool {
    let t = if alpha.is_one_spec() {
        v
    } else {
        alpha.times_spec(v)
    };
    &&& beta.is_zero_spec() ==> out == t
    &&& !beta.is_zero_spec() && beta.is_one_spec() ==> out == t.plus_spec(held)
    &&& !beta.is_zero_spec() && !beta.is_one_spec() ==> out == t.plus_spec(beta.times_spec(held))
}

/// A product of one slice.
pub proof fn lemma_one_slice<F: KernelFamily>(
    con: Contraction<F>,
    i: int,
    j: int,
    old: F::Out,
    s: Seq<F::Acc>,
)
    requires
        con.k > 0,
        con.kc >= con.k,
        adds_up(
            s,
            F::Acc::zero_spec(),
            |acc: F::Acc, p: int| F::madd_spec(acc, (con.a)(i, p), (con.b)(j, p)),
            con.k,
        ),
    ensures
        mixed(con.alpha, s[con.k], con.beta, F::widen_spec(old), con.total(i, j, old)),
{
    lemma_div_up(con.k, con.kc);
    let d = con.slices();
    assert(d < 2) by (nonlinear_arith)
        requires
            (d - 1) * con.kc < con.k,
            con.k <= con.kc,
            con.kc > 0,
    ;
    let x = |p: int| (con.a)(i, p);
    let y = |p: int| (con.b)(j, p);
    assert forall|p: int| 0 <= p < con.k implies #[trigger] s[p + 1] == F::madd_spec(
        s[p],
        x(0 + p),
        y(0 + p),
    ) by {}
    lemma_chain_adds_up::<F>(F::Acc::zero_spec(), x, y, 0, con.k, s, con.k);
    lemma_mul_basics(con.kc);
    assert(con.slice_dot(i, j, 0) == s[con.k]);
}

/// A product slice by slice: `d(t)` is the running sum of slice `t`, `v[t]` the accumulator that it
/// leaves and `c[t]` what the output holds before it.
pub proof fn lemma_by_slices<F: KernelFamily>(
    con: Contraction<F>,
    i: int,
    j: int,
    old: F::Out,
    d: spec_fn(int) -> Seq<F::Acc>,
    v: Seq<F::Acc>,
    c: Seq<F::Out>,
    t: int,
)
    requires
        con.k > 0,
        con.kc > 0,
        !F::seeds_spec(),
        v.len() == con.slices(),
        c.len() == con.slices(),
        0 <= t < con.slices(),
        c[0] == old,
        forall|t: int|
            0 <= t < con.slices() ==> adds_up(
                #[trigger] d(t),
                F::Acc::zero_spec(),
                |acc: F::Acc, p: int|
                    F::madd_spec(
                        acc,
                        (con.a)(i, t * con.kc + p),
                        (con.b)(j, t * con.kc + p),
                    ),
                min_int(con.kc, con.k - t * con.kc),
            ),
        mixed(
            con.alpha,
            d(0)[min_int(con.kc, con.k)],
            con.beta,
            F::widen_spec(old),
            v[0],
        ),
        forall|t: int|
            1 <= t < con.slices() ==> #[trigger] v[t] == scaled(
                con.alpha,
                d(t)[min_int(con.kc, con.k - t * con.kc)],
            ).plus_spec(F::widen_spec(c[t])),
        forall|t: int| 1 <= t < con.slices() ==> #[trigger] c[t] == F::narrow_spec(v[t - 1]),
    ensures
        con.staged(i, j, t, old) == v[t],
        con.partial(i, j, t, old) == c[t],
    decreases t,
{
    let lo = t * con.kc;
    let n = min_int(con.kc, con.k - lo);
    lemma_div_up(con.k, con.kc);
    let q = con.slices();
    assert(0 <= lo < con.k) by (nonlinear_arith)
        requires
            lo == t * con.kc,
            0 <= t <= q - 1,
            (q - 1) * con.kc < con.k,
            con.kc > 0,
    ;
    let x = |p: int| (con.a)(i, p);
    let y = |p: int| (con.b)(j, p);
    let s = d(t);
    assert forall|p: int| 0 <= p < n implies #[trigger] s[p + 1] == F::madd_spec(
        s[p],
        x(lo + p),
        y(lo + p),
    ) by {}
    lemma_chain_adds_up::<F>(F::Acc::zero_spec(), x, y, lo, n, s, n);
    assert((t + 1) * con.kc == lo + con.kc) by (nonlinear_arith)
        requires
            lo == t * con.kc,
    ;
    assert(con.slice_dot(i, j, t) == s[n]);
    if t > 0 {
        lemma_by_slices(con, i, j, old, d, v, c, t - 1);
        assert(c[t] == F::narrow_spec(v[t - 1]));
        if t == 1 {
            assert(con.partial(i, j, 1, old) == F::narrow_spec(con.staged(i, j, 0, old)));
        }
    }
}

} // verus!
