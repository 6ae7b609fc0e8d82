//! Orientation, routing and the degenerate cases: everything between a checked call and the
//! driver.

use vstd::arithmetic::mul::*;
use vstd::prelude::*;

use crate::arith::{abs_int, div_up, lemma_div_up, max_int, min_int, unsigned_abs};
use crate::cache::{deep_k_engage_bytes, or_auto};
use crate::driver::strided_product;
use crate::kernel::{alpha_status, beta_status, Epilogue, KernelFamily};
use crate::layout::{lemma_transposed, lemma_transposed_idx, Layout};
use crate::panel::Panel;
use crate::parallel::Context;
use crate::product::{lemma_state_done, microtile};
use crate::tuning::Tuning;

verus! {

/// Every element of an `m x n` output view satisfies `ok(i, j, before, after)`, and everything
/// outside the view is as it was.
pub open spec fn written<O>(
    c0: Seq<O>,
    c: Seq<O>,
    lc: Layout,
    m: int,
    n: int,
    ok: spec_fn(int, int, O, O) -> bool,
) -> bool {
    &&& c.len() == c0.len()
    &&& forall|i: int, j: int|
        0 <= i < m && 0 <= j < n ==> ok(i, j, c0[lc.idx(i, j)], c[#[trigger] lc.idx(i, j)])
    &&& forall|x: int| 0 <= x < c.len() && !lc.covers(m, n, x) ==> #[trigger] c[x] == c0[x]
}

/// The operands of a product, with the layout of its output.
pub struct Operands<'a, T> {
    pub m: usize,
    pub k: usize,
    pub n: usize,
    pub a: &'a [T],
    pub la: Layout,
    pub b: &'a [T],
    pub lb: Layout,
    pub lc: Layout,
}

impl<'a, T> Copy for Operands<'a, T> {

}

impl<'a, T> Clone for Operands<'a, T> {
    fn clone(&self) -> (r: Self)
        ensures
            r == *self,
    {
        *self
    }
}

impl<'a, T> Operands<'a, T> {
    /// Every view stays inside its slice, and the output does not alias itself.
    pub open spec fn valid(self, c_len: int) -> bool {
        &&& self.la.fits(self.m as int, self.k as int, self.a@.len() as int)
        &&& self.lb.fits(self.k as int, self.n as int, self.b@.len() as int)
        &&& self.lc.fits(self.m as int, self.n as int, c_len)
        &&& self.lc.distinct(self.m as int, self.n as int)
    }

    /// The transposed product: `C^T = B^T * A^T`.
    pub open spec fn transposed(self) -> Operands<'a, T> {
        Operands {
            m: self.n,
            k: self.k,
            n: self.m,
            a: self.b,
            la: self.lb.transposed(),
            b: self.a,
            lb: self.la.transposed(),
            lc: self.lc.transposed(),
        }
    }

    /// The output is laid out by rows, so the transposed product writes contiguously.
    pub open spec fn row_major(self) -> bool {
        abs_int(self.lc.cs as int) < abs_int(self.lc.rs as int)
    }

    /// The product in the orientation in which it is run.
    pub open spec fn oriented(self) -> Operands<'a, T> {
        if self.row_major() {
            self.transposed()
        } else {
            self
        }
    }
}

/// Transposing a product keeps it valid, and what it writes is the transposed output.
pub proof fn lemma_operands_transposed<'a, T>(o: Operands<'a, T>, c_len: int)
    requires
        o.valid(c_len),
    ensures
        o.transposed().valid(c_len),
        o.oriented().valid(c_len),
{
    lemma_transposed(o.la, o.m as int, o.k as int, o.a@.len() as int);
    lemma_transposed(o.lb, o.k as int, o.n as int, o.b@.len() as int);
    lemma_transposed(o.lc, o.m as int, o.n as int, c_len);
}

/// What has been written through the transposed layout, seen through the layout itself.
pub proof fn lemma_written_transposed<O>(
    c0: Seq<O>,
    c: Seq<O>,
    lc: Layout,
    m: int,
    n: int,
    ok: spec_fn(int, int, O, O) -> bool,
)
    requires
        written(
            c0,
            c,
            lc.transposed(),
            n,
            m,
            |i: int, j: int, x: O, y: O| ok(j, i, x, y),
        ),
    ensures
        written(c0, c, lc, m, n, ok),
{
    lemma_transposed(lc, m, n, 0);
    assert forall|i: int, j: int| 0 <= i < m && 0 <= j < n implies ok(
        i,
        j,
        c0[lc.idx(i, j)],
        c[#[trigger] lc.idx(i, j)],
    ) by {
        lemma_transposed_idx(lc, j, i);
        assert(lc.transposed().idx(j, i) == lc.idx(i, j));
    }
}

/// Two descriptions that agree on every element are interchangeable.
pub proof fn lemma_written_ext<O>(
    c0: Seq<O>,
    c: Seq<O>,
    lc: Layout,
    m: int,
    n: int,
    ok1: spec_fn(int, int, O, O) -> bool,
    ok2: spec_fn(int, int, O, O) -> bool,
)
    requires
        written(c0, c, lc, m, n, ok1),
        forall|i: int, j: int, x: O, y: O|
            0 <= i < m && 0 <= j < n && #[trigger] ok1(i, j, x, y) ==> ok2(i, j, x, y),
    ensures
        written(c0, c, lc, m, n, ok2),
{
    assert forall|i: int, j: int| 0 <= i < m && 0 <= j < n implies ok2(
        i,
        j,
        c0[lc.idx(i, j)],
        c[#[trigger] lc.idx(i, j)],
    ) by {
        assert(ok1(i, j, c0[lc.idx(i, j)], c[lc.idx(i, j)]));
    }
}

/// Bring a product into the orientation in which it is run: a row-major output is computed as
/// `C^T = B^T * A^T`. Returns whether it was transposed.
pub fn orient_swap<'a, T>(o: &mut Operands<'a, T>) -> (r: bool)
    ensures
        r == old(o).row_major(),
        *final(o) == old(o).oriented(),
{
    if unsigned_abs(o.lc.cs) < unsigned_abs(o.lc.rs) {
        let t: Operands<'a, T> = Operands {
            m: o.n,
            k: o.k,
            n: o.m,
            a: o.b,
            la: o.lb.transposed(),
            b: o.a,
            lb: o.la.transposed(),
            lc: o.lc.transposed(),
        };
        *o = t;
        true
    } else {
        false
    }
}

/// Small output, long depth, and both operands contiguous along the depth.
pub open spec fn small_mn_spec(tun: Tuning, m: int, n: int, k: int, csa: int, rsb: int) -> bool {
    &&& m <= tun.small_mn_dim
    &&& n <= tun.small_mn_dim
    &&& k > tun.small_k_threshold
    &&& csa == 1
    &&& rsb == 1
}

/// Small output, long depth, and an operand that would have to be copied first.
pub open spec fn small_mn_pack_spec(
    tun: Tuning,
    m: int,
    n: int,
    k: int,
    csa: int,
    rsb: int,
) -> bool {
    &&& m <= tun.small_mn_dim
    &&& n <= tun.small_mn_dim
    &&& k > tun.small_mn_pack_min_k
    &&& !(csa == 1 && rsb == 1)
}

/// Whether a product takes the small-output route in place.
pub fn small_mn_eligible_dims(
    tun: &Tuning,
    m: usize,
    n: usize,
    k: usize,
    csa: isize,
    rsb: isize,
) -> (r: bool)
    ensures
        r == small_mn_spec(*tun, m as int, n as int, k as int, csa as int, rsb as int),
{
    m <= tun.small_mn_dim && n <= tun.small_mn_dim && k > tun.small_k_threshold && csa == 1 && rsb
        == 1
}

/// Whether a product takes the small-output route after copying an operand.
pub fn small_mn_pack_eligible_dims(
    tun: &Tuning,
    m: usize,
    n: usize,
    k: usize,
    csa: isize,
    rsb: isize,
) -> (r: bool)
    ensures
        r == small_mn_pack_spec(*tun, m as int, n as int, k as int, csa as int, rsb as int),
{
    m <= tun.small_mn_dim && n <= tun.small_mn_dim && k > tun.small_mn_pack_min_k && !(csa == 1
        && rsb == 1)
}

/// The two small-output gates exclude each other.
pub proof fn law_small_mn_gates_are_exclusive(
    tun: Tuning,
    m: int,
    n: int,
    k: int,
    csa: int,
    rsb: int,
)
    ensures
        !(small_mn_spec(tun, m, n, k, csa, rsb) && small_mn_pack_spec(tun, m, n, k, csa, rsb)),
{
}

/// [`small_mn_eligible_dims`] of a product that has been oriented.
pub fn small_mn_eligible<T>(tun: &Tuning, o: &Operands<'_, T>) -> (r: bool)
    ensures
        r == small_mn_spec(
            *tun,
            o.m as int,
            o.n as int,
            o.k as int,
            o.la.cs as int,
            o.lb.rs as int,
        ),
{
    small_mn_eligible_dims(tun, o.m, o.n, o.k, o.la.cs, o.lb.rs)
}

/// [`small_mn_pack_eligible_dims`] of a product that has been oriented.
pub fn small_mn_pack_eligible<T>(tun: &Tuning, o: &Operands<'_, T>) -> (r: bool)
    ensures
        r == small_mn_pack_spec(
            *tun,
            o.m as int,
            o.n as int,
            o.k as int,
            o.la.cs as int,
            o.lb.rs as int,
        ),
{
    small_mn_pack_eligible_dims(tun, o.m, o.n, o.k, o.la.cs, o.lb.rs)
}

/// How a product is run.
#[derive(Clone, Copy, Debug, PartialEq, Eq, Structural)]
pub enum Route {
    /// Matrix times vector, in the caller's orientation.
    Gemv,
    /// Each output as one dot product, operands read in place or copied first.
    SmallMn,
    /// One shallow depth slice, operands read in place.
    SmallK,
    /// A narrow output accumulated in slices and rounded once at the end.
    DeepK,
    /// The blocked driver.
    Driver,
}

/// The routes that an element type offers.
#[derive(Clone, Copy, Debug)]
pub struct Routes {
    /// The matrix-vector route.
    pub gemv: bool,
    /// The deep route, with the element size and the panel width that decide about it.
    pub deep: Option<(usize, usize)>,
}

/// The right micropanel outgrows its gate (and its size does not overflow).
pub open spec fn deep_engages(ctx: Context, nr: int, k: int, size: int) -> bool {
    &&& nr * k * size <= usize::MAX
    &&& nr * k * size > or_auto(
        ctx.tuning.deep_kc_bytes,
        max_int(ctx.machine.cache.l2.effective() / 2, 1),
    )
}

/// The route of a product.
pub open spec fn route_spec<'a, T>(ctx: Context, routes: Routes, o: Operands<'a, T>) -> Route {
    let t = o.oriented();
    if routes.gemv && (o.n == 1 || o.m == 1) && min_int(o.m as int, o.n as int)
        <= ctx.tuning.gemv_threshold {
        Route::Gemv
    } else if small_mn_spec(
        ctx.tuning,
        t.m as int,
        t.n as int,
        t.k as int,
        t.la.cs as int,
        t.lb.rs as int,
    ) || small_mn_pack_spec(
        ctx.tuning,
        t.m as int,
        t.n as int,
        t.k as int,
        t.la.cs as int,
        t.lb.rs as int,
    ) {
        Route::SmallMn
    } else if t.k <= ctx.tuning.small_k_threshold {
        Route::SmallK
    } else if routes.deep matches Some((nr, size)) && deep_engages(
        ctx,
        nr as int,
        t.k as int,
        size as int,
    ) {
        Route::DeepK
    } else {
        Route::Driver
    }
}

/// Choose the route of a product and bring it into the orientation that the route runs in.
/// Returns the route and whether the product was transposed.
pub fn choose_route<'a, T>(ctx: &Context, routes: Routes, o: &mut Operands<'a, T>) -> (r: (
    Route,
    bool,
))
    ensures
        r.0 == route_spec(*ctx, routes, *old(o)),
        r.1 == (r.0 != Route::Gemv && old(o).row_major()),
        *final(o) == (if r.1 {
            old(o).transposed()
        } else {
            *old(o)
        }),
{
    let tun = &ctx.tuning;
    let least: usize = if o.m <= o.n {
        o.m
    } else {
        o.n
    };
    if routes.gemv && (o.n == 1 || o.m == 1) && least <= tun.gemv_threshold {
        return (Route::Gemv, false);
    }
    let swapped: bool = orient_swap(o);
    if small_mn_eligible(tun, o) || small_mn_pack_eligible(tun, o) {
        return (Route::SmallMn, swapped);
    }
    if o.k <= tun.small_k_threshold {
        return (Route::SmallK, swapped);
    }
    if let Some((nr, size)) = routes.deep {
        if deep_k_engages(ctx, nr, o.k, size) {
            return (Route::DeepK, swapped);
        }
    }
    (Route::Driver, swapped)
}

/// Whether the right micropanel outgrows its gate. A size that overflows does not engage: the
/// driver then refuses the product as too large.
fn deep_k_engages(ctx: &Context, nr: usize, k: usize, size: usize) -> (r: bool)
    ensures
        r == deep_engages(*ctx, nr as int, k as int, size as int),
{
    let gate: usize = deep_k_engage_bytes(&ctx.tuning, &ctx.machine.cache);
    match nr.checked_mul(k) {
        None => {
            if size == 0 {
                assert(nr * k * size == 0) by (nonlinear_arith)
                    requires
                        size == 0,
                ;
                assert(gate >= 0);
                false
            } else {
                assert(nr * k * size >= nr * k) by (nonlinear_arith)
                    requires
                        size >= 1,
                        nr >= 0,
                        k >= 0,
                ;
                false
            }
        },
        Some(x) => match x.checked_mul(size) {
            None => false,
            Some(bytes) => bytes > gate,
        },
    }
}

/// Run a product straight from its operands: every output is one chain over the whole depth.
pub(crate) fn run_direct<F: KernelFamily, E: Epilogue<F>>(
    m: usize,
    k: usize,
    n: usize,
    alpha: F::Acc,
    a: &[F::Lhs],
    la: Layout,
    b: &[F::Rhs],
    lb: Layout,
    beta: F::Acc,
    c: &mut [F::Out],
    lc: Layout,
    epi: &E,
)
    requires
        0 < m,
        0 < k,
        0 < n,
        la.fits(m as int, k as int, a@.len() as int),
        lb.fits(k as int, n as int, b@.len() as int),
        lc.fits(m as int, n as int, old(c)@.len() as int),
        lc.distinct(m as int, n as int),
        forall|v: F::Acc, i: int, j: int|
            0 <= i < m && 0 <= j < n ==> #[trigger] epi.accepts(v, i, j),
    ensures
        strided_product::<F, E>(
            m as int,
            k as int,
            n as int,
            k as int,
            a@,
            la,
            b@,
            lb,
            alpha,
            beta,
            old(c)@,
            lc,
            *epi,
        ).done(final(c)@),
{
    let lt: Layout = lb.transposed();
    let ghost prod = strided_product::<F, E>(
        m as int,
        k as int,
        n as int,
        k as int,
        a@,
        la,
        b@,
        lb,
        alpha,
        beta,
        c@,
        lc,
        *epi,
    );
    let ghost start = |i: int, j: int| 0int;
    proof {
        lemma_div_up(k as int, k as int);
        assert(div_up(k as int, k as int) == 1) by {
            lemma_single_slice(k as int);
        }
        assert(prod.state(c@, start));
        lemma_transposed(lb, k as int, n as int, b@.len() as int);
        assert(a.len() == a@.len());
        assert(b.len() == b@.len());
        let ap = Panel::Strided { l: la, x0: 0, p0: 0 };
        let bp = Panel::Strided { l: lt, x0: 0, p0: 0 };
        assert(ap.holds(a@, prod.a, 0, 0, m as int, k as int)) by {
            assert forall|x: int, p: int| 0 <= x < m && 0 <= p < k implies 0 <= #[trigger] ap.idx(
                x,
                p,
            ) < a@.len() && a@[ap.idx(x, p)] == (prod.a)(0 + x, 0 + p) by {
                assert(ap.idx(x, p) == la.idx(x, p));
            }
        }
        assert(bp.holds(b@, prod.b, 0, 0, n as int, k as int)) by {
            assert forall|x: int, p: int| 0 <= x < n && 0 <= p < k implies 0 <= #[trigger] bp.idx(
                x,
                p,
            ) < b@.len() && b@[bp.idx(x, p)] == (prod.b)(0 + x, 0 + p) by {
                assert(bp.idx(x, p) == lt.idx(x, p));
                lemma_transposed_idx(lb, x, p);
            }
        }
        lemma_mul_basics(prod.kc);
    }
    microtile::<F, E>(
        a,
        Panel::Strided { l: la, x0: 0, p0: 0 },
        b,
        Panel::Strided { l: lt, x0: 0, p0: 0 },
        c,
        lc,
        0,
        0,
        m,
        n,
        k,
        alpha,
        beta,
        alpha_status(alpha),
        beta_status(beta),
        true,
        true,
        epi,
        Ghost(prod),
        Ghost(start),
        Ghost(0),
    );
    proof {
        lemma_state_done(
            prod,
            c@,
            crate::product::advanced(start, 0, 0 + m, 0, 0 + n, 1),
        );
    }
}

/// A depth that is one slice is one slice.
pub proof fn lemma_single_slice(k: int)
    requires
        k > 0,
    ensures
        div_up(k, k) == 1,
{
    vstd::arithmetic::div_mod::lemma_div_by_self(k);
    vstd::arithmetic::div_mod::lemma_mod_self_0(k);
}

} // verus!
