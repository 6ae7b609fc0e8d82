//! Complex products: `C <- alpha*op(A)*op(B) + beta*C`, where `op` may conjugate an operand.

use vstd::arithmetic::mul::*;
use vstd::prelude::*;

use core::marker::PhantomData;

use crate::api::{gemm_views_error, validate_gemm_views, MatMut, MatRef};
use crate::arith::min_int;
use crate::cells::{for_each_cell, Cell};
use crate::dispatch::{
    lemma_operands_transposed, lemma_written_ext, lemma_written_transposed, written, Operands,
};
use crate::driver::{request_spec, run_epilogue, strided_product};
use crate::error::{first_error, outcome, GemmError};
use crate::fused::{bias_error, raw_bias, validate_bias, Bias, BiasDim, BiasSpec};
use crate::gemm::{lemma_views_valid, operands_of};
use crate::homog::{lemma_done_written, orient_transpose, vanishes, Task};
use crate::isa::Kernels;
use crate::kernel::{chain, Epilogue, KernelFamily};
use crate::parallel::{default_context, Context, Parallelism};
use crate::product::Contraction;
use crate::scalar::{wrap_i32, Scalar};

verus! {

/// A complex element type: operands, accumulator and output share it.
pub trait ComplexScalar: Scalar {
    spec fn conj_spec(self) -> Self;

    /// `acc` plus the product of `l` and `r`.
    spec fn cmadd_spec(acc: Self, l: Self, r: Self) -> Self;

    /// The microtile of this type's kernel.
    spec fn cplx_tile_spec(k: Kernels) -> (usize, usize);

    fn conj(self) -> (r: Self)
        ensures
            r == self.conj_spec(),
    ;

    fn cmadd(acc: Self, l: Self, r: Self) -> (v: Self)
        ensures
            v == Self::cmadd_spec(acc, l, r),
    ;

    fn cplx_tile(k: &Kernels) -> (r: (usize, usize))
        requires
            k.valid(),
        ensures
            r == Self::cplx_tile_spec(*k),
            r.0 > 0,
            r.1 > 0,
    ;
}

/// A complex number with wrapping `i32` parts: the exact reference for the complex entries.
#[derive(Clone, Copy, Debug, PartialEq, Eq, Structural)]
pub struct GaussI32 {
    pub re: i32,
    pub im: i32,
}

impl Scalar for GaussI32 {
    open spec fn zero_spec() -> GaussI32 {
        GaussI32 { re: 0, im: 0 }
    }

    open spec fn one_spec() -> GaussI32 {
        GaussI32 { re: 1, im: 0 }
    }

    open spec fn is_zero_spec(self) -> bool {
        self == Self::zero_spec()
    }

    open spec fn is_one_spec(self) -> bool {
        self == Self::one_spec()
    }

    open spec fn plus_spec(self, other: GaussI32) -> GaussI32 {
        GaussI32 { re: wrap_i32(self.re + other.re), im: wrap_i32(self.im + other.im) }
    }

    open spec fn times_spec(self, other: GaussI32) -> GaussI32 {
        GaussI32 {
            re: wrap_i32(wrap_i32(self.re * other.re) - wrap_i32(self.im * other.im)),
            im: wrap_i32(wrap_i32(self.re * other.im) + wrap_i32(self.im * other.re)),
        }
    }

    proof fn constants_compare() {
    }

    fn zero() -> GaussI32 {
        GaussI32 { re: 0, im: 0 }
    }

    fn one() -> GaussI32 {
        GaussI32 { re: 1, im: 0 }
    }

    fn is_zero(self) -> bool {
        self == GaussI32 { re: 0, im: 0 }
    }

    fn is_one(self) -> bool {
        self == GaussI32 { re: 1, im: 0 }
    }

    fn plus(self, other: GaussI32) -> GaussI32 {
        GaussI32 { re: self.re.wrapping_add(other.re), im: self.im.wrapping_add(other.im) }
    }

    fn times(self, other: GaussI32) -> GaussI32 {
        GaussI32 {
            re: self.re.wrapping_mul(other.re).wrapping_sub(self.im.wrapping_mul(other.im)),
            im: self.re.wrapping_mul(other.im).wrapping_add(self.im.wrapping_mul(other.re)),
        }
    }
}

impl ComplexScalar for GaussI32 {
    open spec fn conj_spec(self) -> GaussI32 {
        GaussI32 { re: self.re, im: wrap_i32(-self.im) }
    }

    open spec fn cmadd_spec(acc: GaussI32, l: GaussI32, r: GaussI32) -> GaussI32 {
        acc.plus_spec(l.times_spec(r))
    }

    open spec fn cplx_tile_spec(k: Kernels) -> (usize, usize) {
        (k.complex_single.mr, k.complex_single.nr)
    }

    fn conj(self) -> GaussI32 {
        GaussI32 { re: self.re, im: 0i32.wrapping_sub(self.im) }
    }

    fn cmadd(acc: GaussI32, l: GaussI32, r: GaussI32) -> GaussI32 {
        acc.plus(l.times(r))
    }

    fn cplx_tile(k: &Kernels) -> (usize, usize) {
        (k.complex_single.mr, k.complex_single.nr)
    }
}

/// `conj(x)` or `x`.
pub open spec fn op<T: ComplexScalar>(conj: bool, x: T) -> T {
    if conj {
        x.conj_spec()
    } else {
        x
    }
}

/// The complex family that conjugates its operands or not. Its panels keep real and imaginary
/// parts apart, so both operands are always packed.
pub struct ComplexGemm<T, const CONJ_A: bool, const CONJ_B: bool> {
    _t: PhantomData<T>,
}

impl<T: ComplexScalar, const CONJ_A: bool, const CONJ_B: bool> KernelFamily for ComplexGemm<
    T,
    CONJ_A,
    CONJ_B,
> {
    type Lhs = T;

    type Rhs = T;

    type Acc = T;

    type Out = T;

    open spec fn out_is_acc_spec() -> bool {
        true
    }

    open spec fn madd_spec(acc: T, l: T, r: T) -> T {
        T::cmadd_spec(acc, op(CONJ_A, l), op(CONJ_B, r))
    }

    open spec fn widen_spec(o: T) -> T {
        o
    }

    open spec fn narrow_spec(v: T) -> T {
        v
    }

    open spec fn force_pack_lhs_spec() -> bool {
        true
    }

    open spec fn force_pack_rhs_spec() -> bool {
        true
    }

    open spec fn seeds_spec() -> bool {
        false
    }

    open spec fn lhs_pad_spec() -> T {
        T::zero_spec()
    }

    open spec fn rhs_pad_spec() -> T {
        T::zero_spec()
    }

    fn out_is_acc() -> bool {
        true
    }

    fn force_pack_lhs() -> bool {
        true
    }

    fn force_pack_rhs() -> bool {
        true
    }

    fn seeds() -> bool {
        false
    }

    fn madd(acc: T, l: T, r: T) -> T {
        let l: T = if CONJ_A {
            l.conj()
        } else {
            l
        };
        let r: T = if CONJ_B {
            r.conj()
        } else {
            r
        };
        T::cmadd(acc, l, r)
    }

    fn widen(o: T) -> T {
        o
    }

    fn narrow(v: T) -> T {
        v
    }

    fn lhs_pad() -> T {
        T::zero()
    }

    fn rhs_pad() -> T {
        T::zero()
    }
}

/// The complex epilogue: a bias, or nothing. Activations order their argument, and complex
/// numbers have no order.
pub struct CplxBias<'a, T> {
    pub bias: BiasSpec<'a, T>,
}

impl<'a, T> Copy for CplxBias<'a, T> {

}

impl<'a, T> Clone for CplxBias<'a, T> {
    fn clone(&self) -> (r: Self)
        ensures
            r == *self,
    {
        *self
    }
}

impl<'a, T: ComplexScalar> CplxBias<'a, T> {
    /// The value with the bias added, never conjugated.
    pub open spec fn value(self, v: T, i: int, j: int) -> T {
        match self.bias {
            BiasSpec::Absent => v,
            BiasSpec::Row(s) => v.plus_spec(s@[i]),
            BiasSpec::Col(s) => v.plus_spec(s@[j]),
        }
    }

    /// The bias covers element `(i, j)`.
    pub open spec fn ready(self, i: int, j: int) -> bool {
        match self.bias {
            BiasSpec::Absent => true,
            BiasSpec::Row(s) => 0 <= i < s@.len(),
            BiasSpec::Col(s) => 0 <= j < s@.len(),
        }
    }

    fn add_bias(&self, v: T, i: usize, j: usize) -> (o: T)
        requires
            self.ready(i as int, j as int),
        ensures
            o == self.value(v, i as int, j as int),
    {
        match &self.bias {
            BiasSpec::Absent => v,
            BiasSpec::Row(s) => v.plus(s[i]),
            BiasSpec::Col(s) => v.plus(s[j]),
        }
    }

    fn flipped(&self) -> (r: CplxBias<'a, T>)
        ensures
            r.bias == self.bias.flipped(),
    {
        CplxBias {
            bias: match &self.bias {
                BiasSpec::Absent => BiasSpec::Absent,
                BiasSpec::Row(s) => BiasSpec::Col(*s),
                BiasSpec::Col(s) => BiasSpec::Row(*s),
            },
        }
    }
}

impl<'a, T: ComplexScalar, const CONJ_A: bool, const CONJ_B: bool> Epilogue<
    ComplexGemm<T, CONJ_A, CONJ_B>,
> for CplxBias<'a, T> {
    open spec fn accepts(&self, v: T, i: int, j: int) -> bool {
        self.ready(i, j)
    }

    open spec fn stores(&self, v: T, i: int, j: int, o: T) -> bool {
        o == self.value(v, i, j)
    }

    open spec fn flip_spec(&self) -> CplxBias<'a, T> {
        CplxBias { bias: self.bias.flipped() }
    }

    fn apply(&self, v: T, i: usize, j: usize) -> (o: T) {
        self.add_bias(v, i, j)
    }

    fn flip(&self) -> (r: CplxBias<'a, T>) {
        self.flipped()
    }

    proof fn flip_transposes(&self, v: T, i: int, j: int, o: T) {
    }
}

/// The arithmetic of a complex product: operands already conjugated where they have to be.
pub open spec fn cplx_contraction<'a, T: ComplexScalar>(
    o: Operands<'a, T>,
    kc: int,
    conj_a: bool,
    conj_b: bool,
    alpha: T,
    beta: T,
) -> Contraction<ComplexGemm<T, false, false>> {
    Contraction {
        k: o.k as int,
        kc,
        a: |i: int, p: int| op(conj_a, o.a@[o.la.idx(i, p)]),
        b: |j: int, p: int| op(conj_b, o.b@[o.lb.idx(p, j)]),
        alpha,
        beta,
    }
}

/// The depth of a slice.
pub open spec fn cplx_kc<'a, T: ComplexScalar>(ctx: Context, o: Operands<'a, T>) -> int {
    let (mr, nr) = T::cplx_tile_spec(ctx.kernels);
    request_spec::<ComplexGemm<T, false, false>>(mr, nr, 1, o.m, o.k, o.n, o.la, None).kc(ctx)
}

/// The value of output `(i, j)` before the bias. When the product runs transposed, the operands
/// change places together with their conjugations.
pub open spec fn cplx_total<'a, T: ComplexScalar>(
    ctx: Context,
    o: Operands<'a, T>,
    conj_a: bool,
    conj_b: bool,
    alpha: T,
    beta: T,
    i: int,
    j: int,
    old: T,
) -> T {
    if o.row_major() {
        let t = o.transposed();
        cplx_contraction(t, cplx_kc(ctx, t), conj_b, conj_a, alpha, beta).total(j, i, old)
    } else {
        cplx_contraction(o, cplx_kc(ctx, o), conj_a, conj_b, alpha, beta).total(i, j, old)
    }
}

/// `beta * old`: a zero `beta` overwrites with zero, and a unit `beta` changes nothing.
pub open spec fn cplx_scaled<T: ComplexScalar>(beta: T, old: T) -> T {
    if beta.is_zero_spec() {
        T::zero_spec()
    } else if beta.is_one_spec() {
        old
    } else {
        beta.times_spec(old)
    }
}

/// What element `(i, j)` of the output holds after `C <- alpha*op(A)*op(B) + beta*C`, from the
/// value `old` that it had.
pub open spec fn cplx_element<'a, T: ComplexScalar>(
    ctx: Context,
    o: Operands<'a, T>,
    conj_a: bool,
    conj_b: bool,
    alpha: T,
    beta: T,
    i: int,
    j: int,
    old: T,
) -> T {
    if vanishes(o.k, alpha) {
        cplx_scaled(beta, old)
    } else {
        cplx_total(ctx, o, conj_a, conj_b, alpha, beta, i, j, old)
    }
}

/// Whether a complex product can be run.
pub open spec fn cplx_runs<'a, T: ComplexScalar>(
    ctx: Context,
    par: Parallelism,
    o: Operands<'a, T>,
    alpha: T,
) -> bool {
    let t = o.oriented();
    let (mr, nr) = T::cplx_tile_spec(ctx.kernels);
    o.m == 0 || o.n == 0 || vanishes(o.k, alpha) || request_spec::<ComplexGemm<T, false, false>>(
        mr,
        nr,
        1,
        t.m,
        t.k,
        t.n,
        t.la,
        None,
    ).fits(ctx, par)
}

/// A family that conjugates runs the chain of conjugated operands.
proof fn lemma_conj_chain<T: ComplexScalar, const CONJ_A: bool, const CONJ_B: bool>(
    init: T,
    x: spec_fn(int) -> T,
    y: spec_fn(int) -> T,
    cx: spec_fn(int) -> T,
    cy: spec_fn(int) -> T,
    lo: int,
    hi: int,
)
    requires
        forall|p: int| #[trigger] cx(p) == op(CONJ_A, x(p)),
        forall|p: int| #[trigger] cy(p) == op(CONJ_B, y(p)),
    ensures
        chain::<ComplexGemm<T, CONJ_A, CONJ_B>>(init, x, y, lo, hi) == chain::<
            ComplexGemm<T, false, false>,
        >(init, cx, cy, lo, hi),
    decreases hi - lo,
{
    if lo < hi {
        lemma_conj_chain::<T, CONJ_A, CONJ_B>(init, x, y, cx, cy, lo, hi - 1);
    }
}

/// The slices of a conjugating product are those of the product of conjugated operands.
proof fn lemma_conj_partial<T: ComplexScalar, const CONJ_A: bool, const CONJ_B: bool>(
    con: Contraction<ComplexGemm<T, CONJ_A, CONJ_B>>,
    plain: Contraction<ComplexGemm<T, false, false>>,
    i: int,
    j: int,
    t: int,
    old: T,
)
    requires
        con.k == plain.k,
        con.kc == plain.kc,
        con.alpha == plain.alpha,
        con.beta == plain.beta,
        forall|i: int, p: int| #[trigger] (plain.a)(i, p) == op(CONJ_A, (con.a)(i, p)),
        forall|j: int, p: int| #[trigger] (plain.b)(j, p) == op(CONJ_B, (con.b)(j, p)),
    ensures
        con.partial(i, j, t, old) == plain.partial(i, j, t, old),
        con.staged(i, j, t, old) == plain.staged(i, j, t, old),
    decreases t,
{
    let x = |p: int| (con.a)(i, p);
    let y = |p: int| (con.b)(j, p);
    let cx = |p: int| (plain.a)(i, p);
    let cy = |p: int| (plain.b)(j, p);
    lemma_conj_chain::<T, CONJ_A, CONJ_B>(
        T::zero_spec(),
        x,
        y,
        cx,
        cy,
        0 * con.kc,
        min_int((0 + 1) * con.kc, con.k),
    );
    assert(con.slice_dot(i, j, 0) == plain.slice_dot(i, j, 0));
    if t > 0 {
        lemma_conj_partial(con, plain, i, j, t - 1, old);
        lemma_conj_chain::<T, CONJ_A, CONJ_B>(
            T::zero_spec(),
            x,
            y,
            cx,
            cy,
            (t - 1) * con.kc,
            min_int((t - 1 + 1) * con.kc, con.k),
        );
        assert(con.slice_dot(i, j, t - 1) == plain.slice_dot(i, j, t - 1));
        lemma_conj_chain::<T, CONJ_A, CONJ_B>(
            T::zero_spec(),
            x,
            y,
            cx,
            cy,
            t * con.kc,
            min_int((t + 1) * con.kc, con.k),
        );
        assert(con.slice_dot(i, j, t) == plain.slice_dot(i, j, t));
    }
}

/// Run a complex product, already in the orientation in which it is run, with fixed
/// conjugations.
fn run_conj<'a, 'b, T: ComplexScalar, const CONJ_A: bool, const CONJ_B: bool>(
    ctx: &Context,
    par: Parallelism,
    alpha: T,
    o: Operands<'a, T>,
    beta: T,
    c: &mut [T],
    epi: &CplxBias<'b, T>,
) -> (r: Result<(), GemmError>)
    requires
        ctx.kernels.valid(),
        0 < o.m,
        0 < o.k,
        0 < o.n,
        o.valid(old(c)@.len() as int),
        forall|i: int, j: int| 0 <= i < o.m && 0 <= j < o.n ==> #[trigger] epi.ready(i, j),
    ensures
        ({
            let (mr, nr) = T::cplx_tile_spec(ctx.kernels);
            r == outcome(
                None,
                request_spec::<ComplexGemm<T, false, false>>(
                    mr,
                    nr,
                    1,
                    o.m,
                    o.k,
                    o.n,
                    o.la,
                    None,
                ).fits(*ctx, par),
            )
        }),
        r is Ok ==> written(
            old(c)@,
            final(c)@,
            o.lc,
            o.m as int,
            o.n as int,
            |i: int, j: int, x: T, y: T|
                y == epi.value(
                    cplx_contraction(
                        o,
                        cplx_kc(*ctx, o),
                        CONJ_A,
                        CONJ_B,
                        alpha,
                        beta,
                    ).total(i, j, x),
                    i,
                    j,
                ),
        ),
        r is Err ==> final(c)@ == old(c)@,
{
    let ghost c0 = c@;
    let (mr, nr): (usize, usize) = T::cplx_tile(&ctx.kernels);
    proof {
        let req = request_spec::<ComplexGemm<T, CONJ_A, CONJ_B>>(
            mr,
            nr,
            1,
            o.m,
            o.k,
            o.n,
            o.la,
            None,
        );
        let plain = request_spec::<ComplexGemm<T, false, false>>(
            mr,
            nr,
            1,
            o.m,
            o.k,
            o.n,
            o.la,
            None,
        );
        assert(req == plain);
        assert forall|v: T, i: int, j: int| 0 <= i < o.m && 0 <= j < o.n implies #[trigger] <
            CplxBias<'b, T> as Epilogue<ComplexGemm<T, CONJ_A, CONJ_B>>
        >::accepts(epi, v, i, j) by {
            assert(epi.ready(i, j));
        }
    }
    let done = run_epilogue::<ComplexGemm<T, CONJ_A, CONJ_B>, CplxBias<'b, T>>(
        ctx,
        par,
        mr,
        nr,
        1,
        o.m,
        o.k,
        o.n,
        alpha,
        o.a,
        o.la,
        o.b,
        o.lb,
        beta,
        c,
        o.lc,
        epi,
    );
    if let Err(e) = done {
        return Err(e);
    }
    proof {
        let kc = cplx_kc(*ctx, o);
        let prod = strided_product::<ComplexGemm<T, CONJ_A, CONJ_B>, CplxBias<'b, T>>(
            o.m as int,
            o.k as int,
            o.n as int,
            kc,
            o.a@,
            o.la,
            o.b@,
            o.lb,
            alpha,
            beta,
            c0,
            o.lc,
            *epi,
        );
        lemma_done_written(prod, c@);
        let con = prod.con();
        let plain = cplx_contraction(o, kc, CONJ_A, CONJ_B, alpha, beta);
        let got = |i: int, j: int, x: T, y: T|
            <CplxBias<'b, T> as Epilogue<ComplexGemm<T, CONJ_A, CONJ_B>>>::stores(
                &prod.epi,
                con.total(i, j, x),
                i,
                j,
                y,
            );
        let want = |i: int, j: int, x: T, y: T| y == epi.value(plain.total(i, j, x), i, j);
        assert forall|i: int, j: int, x: T, y: T|
            0 <= i < o.m && 0 <= j < o.n && #[trigger] got(i, j, x, y) implies want(
            i,
            j,
            x,
            y,
        ) by {
            lemma_conj_partial(con, plain, i, j, con.slices() - 1, x);
        }
        lemma_written_ext(c0, c@, o.lc, o.m as int, o.n as int, got, want);
    }
    Ok(())
}

/// Run a complex product with a bias: orient it, then run it with the conjugations of the
/// operands as they now stand.
fn run_complex_fused<'a, 'b, T: ComplexScalar>(
    ctx: &Context,
    par: Parallelism,
    conj_a: bool,
    conj_b: bool,
    alpha: T,
    o: Operands<'a, T>,
    beta: T,
    c: &mut [T],
    epi: CplxBias<'b, T>,
) -> (r: Result<(), GemmError>)
    requires
        ctx.kernels.valid(),
        0 < o.m,
        0 < o.k,
        0 < o.n,
        !vanishes(o.k, alpha),
        o.valid(old(c)@.len() as int),
        forall|i: int, j: int| 0 <= i < o.m && 0 <= j < o.n ==> #[trigger] epi.ready(i, j),
    ensures
        r == outcome(None, cplx_runs(*ctx, par, o, alpha)),
        r is Ok ==> written(
            old(c)@,
            final(c)@,
            o.lc,
            o.m as int,
            o.n as int,
            |i: int, j: int, x: T, y: T|
                y == epi.value(
                    cplx_total(*ctx, o, conj_a, conj_b, alpha, beta, i, j, x),
                    i,
                    j,
                ),
        ),
        r is Err ==> final(c)@ == old(c)@,
{
    let ghost c0 = c@;
    let mut task: Task<'a, T> = Task { alpha, beta, ops: o };
    let swapped: bool = orient_transpose(&mut task);
    let run_o: Operands<'a, T> = task.ops;
    let (ca, cb): (bool, bool) = if swapped {
        (conj_b, conj_a)
    } else {
        (conj_a, conj_b)
    };
    let run_epi: CplxBias<'b, T> = if swapped {
        epi.flipped()
    } else {
        epi
    };
    proof {
        lemma_operands_transposed(o, c0.len() as int);
        assert forall|i: int, j: int|
            0 <= i < run_o.m && 0 <= j < run_o.n implies #[trigger] run_epi.ready(i, j) by {
            if swapped {
                assert(epi.ready(j, i));
            } else {
                assert(epi.ready(i, j));
            }
        }
    }
    let r: Result<(), GemmError> = match (ca, cb) {
        (false, false) => run_conj::<T, false, false>(ctx, par, alpha, run_o, beta, c, &run_epi),
        (true, false) => run_conj::<T, true, false>(ctx, par, alpha, run_o, beta, c, &run_epi),
        (false, true) => run_conj::<T, false, true>(ctx, par, alpha, run_o, beta, c, &run_epi),
        (true, true) => run_conj::<T, true, true>(ctx, par, alpha, run_o, beta, c, &run_epi),
    };
    proof {
        if r is Ok {
            let kc = cplx_kc(*ctx, run_o);
            let got = |i: int, j: int, x: T, y: T|
                y == run_epi.value(
                    cplx_contraction(run_o, kc, ca, cb, alpha, beta).total(i, j, x),
                    i,
                    j,
                );
            let want = |i: int, j: int, x: T, y: T|
                y == epi.value(
                    cplx_total(*ctx, o, conj_a, conj_b, alpha, beta, i, j, x),
                    i,
                    j,
                );
            if swapped {
                let want_t = |i: int, j: int, x: T, y: T| want(j, i, x, y);
                lemma_written_ext(c0, c@, run_o.lc, run_o.m as int, run_o.n as int, got, want_t);
                lemma_written_transposed(c0, c@, o.lc, o.m as int, o.n as int, want);
            } else {
                lemma_written_ext(c0, c@, o.lc, o.m as int, o.n as int, got, want);
            }
        }
    }
    r
}

struct CplxCell<'b, T> {
    beta: T,
    epi: CplxBias<'b, T>,
}

impl<'b, T: ComplexScalar> Cell<T> for CplxCell<'b, T> {
    closed spec fn takes(&self, i: int, j: int) -> bool {
        self.epi.ready(i, j)
    }

    closed spec fn gives(&self, i: int, j: int, before: T, after: T) -> bool {
        after == self.epi.value(cplx_scaled(self.beta, before), i, j)
    }

    fn update(&self, i: usize, j: usize, before: T) -> (after: T) {
        let base: T = if self.beta.is_zero() {
            T::zero()
        } else if self.beta.is_one() {
            before
        } else {
            self.beta.times(before)
        };
        self.epi.add_bias(base, i, j)
    }
}

/// Run a complex product with a bias or without: the degenerate cases here, everything else with
/// the driver.
pub fn execute_complex_fused<'a, 'b, T: ComplexScalar>(
    ctx: &Context,
    conj_a: bool,
    conj_b: bool,
    task: Task<'a, T>,
    epi: CplxBias<'b, T>,
    par: Parallelism,
    c: &mut [T],
) -> (r: Result<(), GemmError>)
    requires
        ctx.kernels.valid(),
        task.ops.valid(old(c)@.len() as int),
        forall|i: int, j: int|
            0 <= i < task.ops.m && 0 <= j < task.ops.n ==> #[trigger] epi.ready(i, j),
    ensures
        r == outcome(None, cplx_runs(*ctx, par, task.ops, task.alpha)),
        r is Ok ==> written(
            old(c)@,
            final(c)@,
            task.ops.lc,
            task.ops.m as int,
            task.ops.n as int,
            |i: int, j: int, x: T, y: T|
                y == epi.value(
                    cplx_element(
                        *ctx,
                        task.ops,
                        conj_a,
                        conj_b,
                        task.alpha,
                        task.beta,
                        i,
                        j,
                        x,
                    ),
                    i,
                    j,
                ),
        ),
        r is Err ==> final(c)@ == old(c)@,
{
    let ghost c0 = c@;
    let o: Operands<'a, T> = task.ops;
    let ghost want = |i: int, j: int, x: T, y: T|
        y == epi.value(
            cplx_element(*ctx, o, conj_a, conj_b, task.alpha, task.beta, i, j, x),
            i,
            j,
        );
    if o.m == 0 || o.n == 0 {
        return Ok(());
    }
    if o.k == 0 || task.alpha.is_zero() {
        let g: CplxCell<'b, T> = CplxCell { beta: task.beta, epi };
        proof {
            assert forall|i: int, j: int| 0 <= i < o.m && 0 <= j < o.n implies #[trigger] g.takes(
                i,
                j,
            ) by {
                assert(epi.ready(i, j));
            }
        }
        for_each_cell(c, o.lc, o.m, o.n, &g);
        proof {
            lemma_written_ext(
                c0,
                c@,
                o.lc,
                o.m as int,
                o.n as int,
                |i: int, j: int, x: T, y: T| g.gives(i, j, x, y),
                want,
            );
        }
        return Ok(());
    }
    let r = run_complex_fused(ctx, par, conj_a, conj_b, task.alpha, o, task.beta, c, epi);
    proof {
        if r is Ok {
            lemma_written_ext(
                c0,
                c@,
                o.lc,
                o.m as int,
                o.n as int,
                |i: int, j: int, x: T, y: T|
                    y == epi.value(
                        cplx_total(*ctx, o, conj_a, conj_b, task.alpha, task.beta, i, j, x),
                        i,
                        j,
                    ),
                want,
            );
        }
    }
    r
}

/// The bias of a complex product, as its epilogue holds it.
pub open spec fn cplx_bias<'a, T>(bias: Option<Bias<'a, T>>) -> CplxBias<'a, T> {
    CplxBias {
        bias: match bias {
            None => BiasSpec::Absent,
            Some(Bias::PerRow(s)) => BiasSpec::Row(s),
            Some(Bias::PerCol(s)) => BiasSpec::Col(s),
        },
    }
}

fn lower_cplx_bias<'a, T>(bias: Option<Bias<'a, T>>) -> (r: CplxBias<'a, T>)
    ensures
        r == cplx_bias(bias),
{
    CplxBias {
        bias: match bias {
            None => BiasSpec::Absent,
            Some(Bias::PerRow(s)) => BiasSpec::Row(s),
            Some(Bias::PerCol(s)) => BiasSpec::Col(s),
        },
    }
}

/// `C <- alpha*op(A)*op(B) + beta*C` over strided views, under the given context. `op` conjugates
/// an operand whose flag is set.
pub fn gemm_cplx_with<'a, T: ComplexScalar>(
    ctx: &Context,
    alpha: T,
    a: MatRef<'a, T>,
    conj_a: bool,
    b: MatRef<'a, T>,
    conj_b: bool,
    beta: T,
    c: MatMut<'_, T>,
    par: Parallelism,
) -> (r: Result<(), GemmError>)
    requires
        ctx.kernels.valid(),
    ensures
        r == outcome(
            gemm_views_error(a.geometry(), b.geometry(), c.geometry()),
            cplx_runs(*ctx, par, operands_of(a, b, c.layout_spec()), alpha),
        ),
        r is Ok ==> written(
            old(c.data)@,
            final(c.data)@,
            c.layout_spec(),
            c.rows as int,
            c.cols as int,
            |i: int, j: int, x: T, y: T|
                y == cplx_element(
                    *ctx,
                    operands_of(a, b, c.layout_spec()),
                    conj_a,
                    conj_b,
                    alpha,
                    beta,
                    i,
                    j,
                    x,
                ),
        ),
        r is Err ==> final(c.data)@ == old(c.data)@,
{
    let ghost c0 = c.data@;
    let ghost lc = c.layout_spec();
    let ghost (m, n) = (c.rows as int, c.cols as int);
    let r = gemm_cplx_fused_with(
        ctx,
        alpha,
        a,
        conj_a,
        b,
        conj_b,
        beta,
        MatMut { data: &mut *c.data, rows: c.rows, cols: c.cols, rs: c.rs, cs: c.cs },
        None,
        par,
    );
    proof {
        if r is Ok {
            lemma_written_ext(
                c0,
                c.data@,
                lc,
                m,
                n,
                |i: int, j: int, x: T, y: T|
                    y == cplx_bias::<T>(None).value(
                        cplx_element(
                            *ctx,
                            operands_of(a, b, lc),
                            conj_a,
                            conj_b,
                            alpha,
                            beta,
                            i,
                            j,
                            x,
                        ),
                        i,
                        j,
                    ),
                |i: int, j: int, x: T, y: T|
                    y == cplx_element(
                        *ctx,
                        operands_of(a, b, lc),
                        conj_a,
                        conj_b,
                        alpha,
                        beta,
                        i,
                        j,
                        x,
                    ),
            );
        }
    }
    r
}

/// [`gemm_cplx_with`] under the default context.
pub fn gemm_cplx<'a, T: ComplexScalar>(
    alpha: T,
    a: MatRef<'a, T>,
    conj_a: bool,
    b: MatRef<'a, T>,
    conj_b: bool,
    beta: T,
    c: MatMut<'_, T>,
    par: Parallelism,
) -> (r: Result<(), GemmError>)
    ensures
        r == outcome(
            gemm_views_error(a.geometry(), b.geometry(), c.geometry()),
            cplx_runs(default_context(), par, operands_of(a, b, c.layout_spec()), alpha),
        ),
        r is Ok ==> written(
            old(c.data)@,
            final(c.data)@,
            c.layout_spec(),
            c.rows as int,
            c.cols as int,
            |i: int, j: int, x: T, y: T|
                y == cplx_element(
                    default_context(),
                    operands_of(a, b, c.layout_spec()),
                    conj_a,
                    conj_b,
                    alpha,
                    beta,
                    i,
                    j,
                    x,
                ),
        ),
        r is Err ==> final(c.data)@ == old(c.data)@,
{
    gemm_cplx_with(&Context::new(), alpha, a, conj_a, b, conj_b, beta, c, par)
}

/// `C <- alpha*op(A)*op(B) + beta*C + bias` over strided views, under the given context: the plain
/// complex product, and then the bias added to every element. The bias is never conjugated.
pub fn gemm_cplx_fused_with<'a, T: ComplexScalar>(
    ctx: &Context,
    alpha: T,
    a: MatRef<'a, T>,
    conj_a: bool,
    b: MatRef<'a, T>,
    conj_b: bool,
    beta: T,
    c: MatMut<'_, T>,
    bias: Option<Bias<'a, T>>,
    par: Parallelism,
) -> (r: Result<(), GemmError>)
    requires
        ctx.kernels.valid(),
    ensures
        r == outcome(
            first_error(
                gemm_views_error(a.geometry(), b.geometry(), c.geometry()),
                bias_error(bias, a.rows, b.cols),
            ),
            cplx_runs(*ctx, par, operands_of(a, b, c.layout_spec()), alpha),
        ),
        r is Ok ==> written(
            old(c.data)@,
            final(c.data)@,
            c.layout_spec(),
            c.rows as int,
            c.cols as int,
            |i: int, j: int, x: T, y: T|
                y == cplx_bias(bias).value(cplx_element(
                    *ctx,
                    operands_of(a, b, c.layout_spec()),
                    conj_a,
                    conj_b,
                    alpha,
                    beta,
                    i,
                    j,
                    x,
                ), i, j),
        ),
        r is Err ==> final(c.data)@ == old(c.data)@,
{
    if let Err(e) = validate_gemm_views(&a, &b, &c) {
        return Err(e);
    }
    if let Err(e) = validate_bias(&bias, a.rows, b.cols) {
        return Err(e);
    }
    proof {
        lemma_views_valid(a, b, c.geometry());
    }
    let ops: Operands<'a, T> = Operands {
        m: a.rows,
        k: a.cols,
        n: b.cols,
        a: a.data,
        la: a.layout(),
        b: b.data,
        lb: b.layout(),
        lc: c.layout(),
    };
    assert(ops == operands_of(a, b, c.layout_spec()));
    execute_complex_fused(
        ctx,
        conj_a,
        conj_b,
        Task { alpha, beta, ops },
        lower_cplx_bias(bias),
        par,
        c.data,
    )
}

/// [`gemm_cplx_fused_with`] under the default context.
pub fn gemm_cplx_fused<'a, T: ComplexScalar>(
    alpha: T,
    a: MatRef<'a, T>,
    conj_a: bool,
    b: MatRef<'a, T>,
    conj_b: bool,
    beta: T,
    c: MatMut<'_, T>,
    bias: Option<Bias<'a, T>>,
    par: Parallelism,
) -> (r: Result<(), GemmError>)
    ensures
        r == outcome(
            first_error(
                gemm_views_error(a.geometry(), b.geometry(), c.geometry()),
                bias_error(bias, a.rows, b.cols),
            ),
            cplx_runs(default_context(), par, operands_of(a, b, c.layout_spec()), alpha),
        ),
        r is Ok ==> written(
            old(c.data)@,
            final(c.data)@,
            c.layout_spec(),
            c.rows as int,
            c.cols as int,
            |i: int, j: int, x: T, y: T|
                y == cplx_bias(bias).value(cplx_element(
                    default_context(),
                    operands_of(a, b, c.layout_spec()),
                    conj_a,
                    conj_b,
                    alpha,
                    beta,
                    i,
                    j,
                    x,
                ), i, j),
        ),
        r is Err ==> final(c.data)@ == old(c.data)@,
{
    gemm_cplx_fused_with(&Context::new(), alpha, a, conj_a, b, conj_b, beta, c, bias, par)
}

/// `C <- alpha*op(A)*op(B) + beta*C` for operands that are known to fit their slices, at any offset
/// and with strides of either sign.
pub fn gemm_cplx_unchecked_with<'a, T: ComplexScalar>(
    ctx: &Context,
    alpha: T,
    ops: Operands<'a, T>,
    conj_a: bool,
    conj_b: bool,
    beta: T,
    c: &mut [T],
    par: Parallelism,
) -> (r: Result<(), GemmError>)
    requires
        ctx.kernels.valid(),
        ops.valid(old(c)@.len() as int),
    ensures
        r == outcome(None, cplx_runs(*ctx, par, ops, alpha)),
        r is Ok ==> written(
            old(c)@,
            final(c)@,
            ops.lc,
            ops.m as int,
            ops.n as int,
            |i: int, j: int, x: T, y: T|
                y == cplx_element(*ctx, ops, conj_a, conj_b, alpha, beta, i, j, x),
        ),
        r is Err ==> final(c)@ == old(c)@,
{
    let ghost c0 = c@;
    let epi: CplxBias<'a, T> = CplxBias { bias: BiasSpec::Absent };
    let r = execute_complex_fused(ctx, conj_a, conj_b, Task { alpha, beta, ops }, epi, par, c);
    proof {
        if r is Ok {
            lemma_written_ext(
                c0,
                c@,
                ops.lc,
                ops.m as int,
                ops.n as int,
                |i: int, j: int, x: T, y: T|
                    y == epi.value(
                        cplx_element(*ctx, ops, conj_a, conj_b, alpha, beta, i, j, x),
                        i,
                        j,
                    ),
                |i: int, j: int, x: T, y: T|
                    y == cplx_element(*ctx, ops, conj_a, conj_b, alpha, beta, i, j, x),
            );
        }
    }
    r
}

/// [`gemm_cplx_unchecked_with`] under the default context.
pub fn gemm_cplx_unchecked<'a, T: ComplexScalar>(
    alpha: T,
    ops: Operands<'a, T>,
    conj_a: bool,
    conj_b: bool,
    beta: T,
    c: &mut [T],
    par: Parallelism,
) -> (r: Result<(), GemmError>)
    requires
        ops.valid(old(c)@.len() as int),
    ensures
        r == outcome(None, cplx_runs(default_context(), par, ops, alpha)),
        r is Ok ==> written(
            old(c)@,
            final(c)@,
            ops.lc,
            ops.m as int,
            ops.n as int,
            |i: int, j: int, x: T, y: T|
                y == cplx_element(default_context(), ops, conj_a, conj_b, alpha, beta, i, j, x),
        ),
        r is Err ==> final(c)@ == old(c)@,
{
    gemm_cplx_unchecked_with(&Context::new(), alpha, ops, conj_a, conj_b, beta, c, par)
}

/// `C <- alpha*op(A)*op(B) + beta*C + bias` for operands that are known to fit their slices. The
/// bias is read only with `has_bias`, and never conjugated.
pub fn gemm_cplx_fused_unchecked_with<'a, T: ComplexScalar>(
    ctx: &Context,
    alpha: T,
    ops: Operands<'a, T>,
    conj_a: bool,
    conj_b: bool,
    beta: T,
    c: &mut [T],
    bias: &'a [T],
    bias_dim: BiasDim,
    has_bias: bool,
    par: Parallelism,
) -> (r: Result<(), GemmError>)
    requires
        ctx.kernels.valid(),
        ops.valid(old(c)@.len() as int),
        cplx_bias(raw_bias(bias, bias_dim, has_bias)).bias.covers(ops.m as int, ops.n as int),
    ensures
        r == outcome(None, cplx_runs(*ctx, par, ops, alpha)),
        r is Ok ==> written(
            old(c)@,
            final(c)@,
            ops.lc,
            ops.m as int,
            ops.n as int,
            |i: int, j: int, x: T, y: T|
                y == cplx_bias(raw_bias(bias, bias_dim, has_bias)).value(
                    cplx_element(*ctx, ops, conj_a, conj_b, alpha, beta, i, j, x),
                    i,
                    j,
                ),
        ),
        r is Err ==> final(c)@ == old(c)@,
{
    let epi: CplxBias<'a, T> = CplxBias {
        bias: if !has_bias {
            BiasSpec::Absent
        } else {
            match bias_dim {
                BiasDim::PerRow => BiasSpec::Row(bias),
                BiasDim::PerCol => BiasSpec::Col(bias),
            }
        },
    };
    assert(epi == cplx_bias(raw_bias(bias, bias_dim, has_bias)));
    proof {
        assert forall|i: int, j: int| 0 <= i < ops.m && 0 <= j < ops.n implies #[trigger] epi.ready(
            i,
            j,
        ) by {}
    }
    execute_complex_fused(ctx, conj_a, conj_b, Task { alpha, beta, ops }, epi, par, c)
}

/// [`gemm_cplx_fused_unchecked_with`] under the default context.
pub fn gemm_cplx_fused_unchecked<'a, T: ComplexScalar>(
    alpha: T,
    ops: Operands<'a, T>,
    conj_a: bool,
    conj_b: bool,
    beta: T,
    c: &mut [T],
    bias: &'a [T],
    bias_dim: BiasDim,
    has_bias: bool,
    par: Parallelism,
) -> (r: Result<(), GemmError>)
    requires
        ops.valid(old(c)@.len() as int),
        cplx_bias(raw_bias(bias, bias_dim, has_bias)).bias.covers(ops.m as int, ops.n as int),
    ensures
        r == outcome(None, cplx_runs(default_context(), par, ops, alpha)),
        r is Ok ==> written(
            old(c)@,
            final(c)@,
            ops.lc,
            ops.m as int,
            ops.n as int,
            |i: int, j: int, x: T, y: T|
                y == cplx_bias(raw_bias(bias, bias_dim, has_bias)).value(
                    cplx_element(default_context(), ops, conj_a, conj_b, alpha, beta, i, j, x),
                    i,
                    j,
                ),
        ),
        r is Err ==> final(c)@ == old(c)@,
{
    gemm_cplx_fused_unchecked_with(
        &Context::new(),
        alpha,
        ops,
        conj_a,
        conj_b,
        beta,
        c,
        bias,
        bias_dim,
        has_bias,
        par,
    )
}

} // verus!
