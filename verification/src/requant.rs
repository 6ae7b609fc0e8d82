//! Requantizing integer products: `i8` operands, an exact `i32` accumulator, and a byte output.

use vstd::prelude::*;

use core::marker::PhantomData;

use crate::api::{gemm_views_error, validate_gemm_views, MatMut, MatRef};
use crate::arith::saturating_mul;
use crate::cells::{for_each_cell, Cell};
use crate::dispatch::{
    lemma_operands_transposed, lemma_single_slice, lemma_written_ext, lemma_written_transposed,
    orient_swap, written, Operands,
};
use crate::driver::{request_spec, run_epilogue, strided_product};
use crate::error::{first_error, outcome, GemmError, Operand};
use crate::fused::BiasSpec;
use crate::gemm::{lemma_views_valid, operands_of};
use crate::gemm_i8::{
    i8_rhs_tile, int_element, int_kernel, law_int_orientation_does_not_matter, pick_int_kernel,
};
use crate::homog::lemma_done_written;
use crate::integer::{int_depth, int_depth_spec, int_sum, lemma_int_dot, IntGemm};
use crate::isa::Isa;
use crate::kernel::{dot_range, Epilogue, KernelFamily};
use crate::parallel::{default_context, Context, Parallelism};
use crate::product::Product;
use crate::quantize::{clamp, saturate_byte, QuantOut, Scale};
use crate::scalar::{lemma_wrap_i32, wrap_i32};

verus! {

/// `i8 * i8 -> i32`, stored as the byte `O`. The output cannot hold a partial sum, so the depth
/// is never split.
pub struct IntGemmQ<O, const DOT: bool> {
    _o: PhantomData<O>,
}

impl<O: QuantOut, const DOT: bool> KernelFamily for IntGemmQ<O, DOT> {
    type Lhs = i8;

    type Rhs = i8;

    type Acc = i32;

    type Out = O;

    open spec fn out_is_acc_spec() -> bool {
        false
    }

    open spec fn madd_spec(acc: i32, l: i8, r: i8) -> i32 {
        wrap_i32(acc + l * r)
    }

    open spec fn widen_spec(o: O) -> i32 {
        o.value() as i32
    }

    open spec fn narrow_spec(v: i32) -> O {
        O::byte(clamp(v as int, O::lo_spec(), O::hi_spec()))
    }

    open spec fn force_pack_lhs_spec() -> bool {
        DOT
    }

    open spec fn force_pack_rhs_spec() -> bool {
        DOT
    }

    open spec fn seeds_spec() -> bool {
        false
    }

    open spec fn lhs_pad_spec() -> i8 {
        0
    }

    open spec fn rhs_pad_spec() -> i8 {
        0
    }

    fn out_is_acc() -> bool {
        false
    }

    fn force_pack_lhs() -> bool {
        DOT
    }

    fn force_pack_rhs() -> bool {
        DOT
    }

    fn seeds() -> bool {
        false
    }

    fn madd(acc: i32, l: i8, r: i8) -> i32 {
        <IntGemm<DOT> as KernelFamily>::madd(acc, l, r)
    }

    fn widen(o: O) -> i32 {
        o.to_i32()
    }

    fn narrow(v: i32) -> O {
        saturate_byte(v)
    }

    fn lhs_pad() -> i8 {
        0
    }

    fn rhs_pad() -> i8 {
        0
    }
}

/// The output scale: one for the whole output, or one per row.
#[derive(Clone, Copy)]
pub enum RequantScale<'a> {
    /// One scale for every element.
    PerTensor(Scale),
    /// One scale per output row.
    PerRow(&'a [Scale]),
}

/// What a requantizing product stores: `clamp(zero_point + round_ne(scale*(A*B + bias)), LO, HI)`.
pub struct Requantize<'a> {
    /// Every scale has to be finite and greater than zero.
    pub scale: RequantScale<'a>,
    /// Added after rounding. It has to lie in the output's range.
    pub zero_point: i32,
    /// One value per output row, added to the accumulator before scaling.
    pub bias: Option<&'a [i32]>,
}

/// The scales as the epilogue holds them.
#[derive(Clone, Copy)]
pub enum ScaleSpec<'a> {
    Tensor(Scale),
    Row(&'a [Scale]),
    Col(&'a [Scale]),
}

/// The requantizing epilogue.
pub struct KRequantize<'a> {
    pub scale: ScaleSpec<'a>,
    pub zp: i32,
    pub bias: BiasSpec<'a, i32>,
}

impl<'a> ScaleSpec<'a> {
    /// The scale of element `(i, j)`.
    pub open spec fn at(self, i: int, j: int) -> Scale {
        match self {
            ScaleSpec::Tensor(s) => s,
            ScaleSpec::Row(s) => s@[i],
            ScaleSpec::Col(s) => s@[j],
        }
    }

    /// There is a usable scale for element `(i, j)`.
    pub open spec fn ready(self, i: int, j: int) -> bool {
        &&& match self {
            ScaleSpec::Tensor(_) => true,
            ScaleSpec::Row(s) => 0 <= i < s@.len(),
            ScaleSpec::Col(s) => 0 <= j < s@.len(),
        }
        &&& self.at(i, j).usable()
    }

    pub open spec fn flipped(self) -> ScaleSpec<'a> {
        match self {
            ScaleSpec::Tensor(s) => ScaleSpec::Tensor(s),
            ScaleSpec::Row(s) => ScaleSpec::Col(s),
            ScaleSpec::Col(s) => ScaleSpec::Row(s),
        }
    }
}

impl<'a> KRequantize<'a> {
    /// The bias of element `(i, j)`.
    pub open spec fn bias_at(self, i: int, j: int) -> int {
        match self.bias {
            BiasSpec::Absent => 0,
            BiasSpec::Row(s) => s@[i] as int,
            BiasSpec::Col(s) => s@[j] as int,
        }
    }

    /// The bias covers element `(i, j)`.
    pub open spec fn bias_ready(self, i: int, j: int) -> bool {
        match self.bias {
            BiasSpec::Absent => true,
            BiasSpec::Row(s) => 0 <= i < s@.len(),
            BiasSpec::Col(s) => 0 <= j < s@.len(),
        }
    }

    /// What the epilogue makes of an accumulator.
    pub open spec fn value<O: QuantOut>(self, acc: i32, i: int, j: int) -> int {
        clamp(
            self.zp + self.scale.at(i, j).rescaled(
                wrap_i32(acc + self.bias_at(i, j)) as int,
            ),
            O::lo_spec(),
            O::hi_spec(),
        )
    }

    /// Everything that the epilogue needs at element `(i, j)` is there.
    pub open spec fn ready<O: QuantOut>(self, i: int, j: int) -> bool {
        &&& self.scale.ready(i, j)
        &&& self.bias_ready(i, j)
        &&& O::lo_spec() <= self.zp <= O::hi_spec()
    }

    pub open spec fn flipped(self) -> KRequantize<'a> {
        KRequantize { scale: self.scale.flipped(), zp: self.zp, bias: self.bias.flipped() }
    }

    /// `clamp(zp + round_ne(scale*(acc + bias)))` at element `(i, j)`.
    pub fn requantize<O: QuantOut>(&self, acc: i32, i: usize, j: usize) -> (o: O)
        requires
            self.ready::<O>(i as int, j as int),
        ensures
            o.value() == self.value::<O>(acc, i as int, j as int),
    {
        proof {
            lemma_wrap_i32(acc as int);
        }
        let b: i32 = match &self.bias {
            BiasSpec::Absent => acc,
            BiasSpec::Row(s) => acc.wrapping_add(s[i]),
            BiasSpec::Col(s) => acc.wrapping_add(s[j]),
        };
        let s: Scale = match &self.scale {
            ScaleSpec::Tensor(s) => *s,
            ScaleSpec::Row(s) => s[i],
            ScaleSpec::Col(s) => s[j],
        };
        assert(s == self.scale.at(i as int, j as int));
        assert(b == wrap_i32(acc + self.bias_at(i as int, j as int)));
        O::from_clamped(s.requantize(b, self.zp, O::lo(), O::hi()))
    }
}

impl<'a, O: QuantOut, const DOT: bool> Epilogue<IntGemmQ<O, DOT>> for KRequantize<'a> {
    open spec fn accepts(&self, v: i32, i: int, j: int) -> bool {
        self.ready::<O>(i, j)
    }

    open spec fn stores(&self, v: i32, i: int, j: int, o: O) -> bool {
        o.value() == self.value::<O>(v, i, j)
    }

    open spec fn flip_spec(&self) -> KRequantize<'a> {
        self.flipped()
    }

    fn apply(&self, v: i32, i: usize, j: usize) -> (o: O) {
        self.requantize(v, i, j)
    }

    fn flip(&self) -> (r: KRequantize<'a>) {
        KRequantize {
            scale: match &self.scale {
                ScaleSpec::Tensor(s) => ScaleSpec::Tensor(*s),
                ScaleSpec::Row(s) => ScaleSpec::Col(*s),
                ScaleSpec::Col(s) => ScaleSpec::Row(*s),
            },
            zp: self.zp,
            bias: match &self.bias {
                BiasSpec::Absent => BiasSpec::Absent,
                BiasSpec::Row(s) => BiasSpec::Col(*s),
                BiasSpec::Col(s) => BiasSpec::Row(*s),
            },
        }
    }

    proof fn flip_transposes(&self, v: i32, i: int, j: int, o: O) {
    }
}

/// The accumulator is that of the plain integer family.
proof fn lemma_q_chain<O: QuantOut, const DOT: bool>(
    x: spec_fn(int) -> i8,
    y: spec_fn(int) -> i8,
    lo: int,
    hi: int,
)
    ensures
        dot_range::<IntGemmQ<O, DOT>>(x, y, lo, hi) == wrap_i32(int_sum(x, y, lo, hi)),
    decreases hi - lo,
{
    lemma_int_dot::<DOT>(x, y, lo, hi);
    lemma_q_same::<O, DOT>(x, y, lo, hi);
}

proof fn lemma_q_same<O: QuantOut, const DOT: bool>(
    x: spec_fn(int) -> i8,
    y: spec_fn(int) -> i8,
    lo: int,
    hi: int,
)
    ensures
        dot_range::<IntGemmQ<O, DOT>>(x, y, lo, hi) == dot_range::<IntGemm<DOT>>(x, y, lo, hi),
    decreases hi - lo,
{
    if lo < hi {
        lemma_q_same::<O, DOT>(x, y, lo, hi - 1);
    }
}

/// A fully described requantizing product.
pub struct RequantTask<'a> {
    pub ops: Operands<'a, i8>,
    pub epi: KRequantize<'a>,
}

/// The exact accumulator of element `(i, j)`: that of the integer product.
pub open spec fn int_acc<'a>(o: Operands<'a, i8>, i: int, j: int) -> i32 {
    int_element(o, 1, 0, i, j, 0)
}

/// No size of a requantizing product overflows.
pub open spec fn requant_fits<'a, O: QuantOut>(
    ctx: Context,
    par: Parallelism,
    dot: bool,
    o: Operands<'a, i8>,
) -> bool {
    let t = o.oriented();
    let (mr, nr) = (ctx.kernels.byte.mr, ctx.kernels.byte.nr);
    if dot {
        request_spec::<IntGemmQ<O, true>>(mr, nr, 4, t.m, t.k, t.n, t.la, None).fits(ctx, par)
    } else {
        request_spec::<IntGemmQ<O, false>>(mr, nr, 1, t.m, t.k, t.n, t.la, None).fits(ctx, par)
    }
}

/// Whether a requantizing product can be run.
pub open spec fn requant_runs<'a, O: QuantOut>(
    ctx: Context,
    par: Parallelism,
    o: Operands<'a, i8>,
) -> bool {
    o.m == 0 || o.n == 0 || o.k == 0 || requant_fits::<O>(
        ctx,
        par,
        int_kernel(ctx, par, o) == Isa::Avx512Vnni,
        o,
    )
}

/// A finished product of the quantized family, in the frame in which it was run.
proof fn lemma_q_total<'a, O: QuantOut, const DOT: bool>(
    prod: Product<IntGemmQ<O, DOT>, KRequantize<'a>>,
    o: Operands<'a, i8>,
    i: int,
    j: int,
    old: O,
)
    requires
        prod.k == o.k,
        prod.kc == o.k,
        o.k > 0,
        prod.alpha == 1,
        prod.beta == 0,
        prod.a == (|i: int, p: int| o.a@[o.la.idx(i, p)]),
        prod.b == (|j: int, p: int| o.b@[o.lb.idx(p, j)]),
    ensures
        prod.con().total(i, j, old) == int_acc(o, i, j),
{
    let con = prod.con();
    let x = |p: int| (prod.a)(i, p);
    let y = |p: int| (prod.b)(j, p);
    lemma_single_slice(o.k as int);
    vstd::arithmetic::mul::lemma_mul_basics(con.kc);
    lemma_q_chain::<O, DOT>(x, y, 0, o.k as int);
    let s = int_sum(x, y, 0, o.k as int);
    assert(1 * s + 0 * 0 == s);
    assert(con.slice_dot(i, j, 0) == wrap_i32(s));
}

/// Run a requantizing product with one of the two kernels: always with the driver, because the
/// depth is not split anyway.
fn run_typed_int_requant<'a, O: QuantOut, const DOT: bool>(
    ctx: &Context,
    task: RequantTask<'a>,
    par: Parallelism,
    c: &mut [O],
) -> (r: Result<(), GemmError>)
    requires
        ctx.kernels.valid(),
        0 < task.ops.m,
        0 < task.ops.k,
        0 < task.ops.n,
        task.ops.valid(old(c)@.len() as int),
        forall|i: int, j: int|
            0 <= i < task.ops.m && 0 <= j < task.ops.n ==> #[trigger] task.epi.ready::<O>(i, j),
    ensures
        r == outcome(None, requant_fits::<O>(*ctx, par, DOT, task.ops)),
        r is Ok ==> written(
            old(c)@,
            final(c)@,
            task.ops.lc,
            task.ops.m as int,
            task.ops.n as int,
            |i: int, j: int, x: O, y: O|
                y.value() == task.epi.value::<O>(int_acc(task.ops, i, j), i, j),
        ),
        r is Err ==> final(c)@ == old(c)@,
{
    let ghost c0 = c@;
    let ghost o = task.ops;
    let ghost epi = task.epi;
    let mut run_o: Operands<'a, i8> = task.ops;
    let swapped: bool = orient_swap(&mut run_o);
    proof {
        lemma_operands_transposed(o, c0.len() as int);
    }
    let run_epi: KRequantize<'a> = if swapped {
        <KRequantize<'a> as Epilogue<IntGemmQ<O, DOT>>>::flip(&task.epi)
    } else {
        task.epi
    };
    let (mr, nr): (usize, usize) = i8_rhs_tile(ctx);
    proof {
        assert forall|v: i32, i: int, j: int|
            0 <= i < run_o.m && 0 <= j < run_o.n implies #[trigger] <KRequantize<
            'a,
        > as Epilogue<IntGemmQ<O, DOT>>>::accepts(&run_epi, v, i, j) by {
            if swapped {
                assert(epi.ready::<O>(j, i));
            } else {
                assert(epi.ready::<O>(i, j));
            }
        }
    }
    let done = run_epilogue::<IntGemmQ<O, DOT>, KRequantize<'a>>(
        ctx,
        par,
        mr,
        nr,
        int_depth(DOT),
        run_o.m,
        run_o.k,
        run_o.n,
        1,
        run_o.a,
        run_o.la,
        run_o.b,
        run_o.lb,
        0,
        c,
        run_o.lc,
        &run_epi,
    );
    if let Err(e) = done {
        return Err(e);
    }
    proof {
        let kc = request_spec::<IntGemmQ<O, DOT>>(
            mr,
            nr,
            int_depth_spec(DOT),
            run_o.m,
            run_o.k,
            run_o.n,
            run_o.la,
            None,
        ).kc(*ctx);
        let prod = strided_product::<IntGemmQ<O, DOT>, KRequantize<'a>>(
            run_o.m as int,
            run_o.k as int,
            run_o.n as int,
            kc,
            run_o.a@,
            run_o.la,
            run_o.b@,
            run_o.lb,
            1,
            0,
            c0,
            run_o.lc,
            run_epi,
        );
        lemma_done_written(prod, c@);
        let got = |i: int, j: int, x: O, y: O|
            <KRequantize<'a> as Epilogue<IntGemmQ<O, DOT>>>::stores(
                &prod.epi,
                prod.con().total(i, j, x),
                i,
                j,
                y,
            );
        let want = |i: int, j: int, x: O, y: O|
            y.value() == epi.value::<O>(int_acc(o, i, j), i, j);
        if swapped {
            let want_t = |i: int, j: int, x: O, y: O| want(j, i, x, y);
            assert forall|i: int, j: int, x: O, y: O|
                0 <= i < prod.m && 0 <= j < prod.n && #[trigger] got(i, j, x, y) implies want_t(
                i,
                j,
                x,
                y,
            ) by {
                lemma_q_total(prod, run_o, i, j, x);
                law_int_orientation_does_not_matter(o, 1, 0, j, i, 0);
            }
            lemma_written_ext(c0, c@, run_o.lc, prod.m, prod.n, got, want_t);
            lemma_written_transposed(c0, c@, o.lc, o.m as int, o.n as int, want);
        } else {
            assert forall|i: int, j: int, x: O, y: O|
                0 <= i < prod.m && 0 <= j < prod.n && #[trigger] got(i, j, x, y) implies want(
                i,
                j,
                x,
                y,
            ) by {
                lemma_q_total(prod, run_o, i, j, x);
            }
            lemma_written_ext(c0, c@, o.lc, prod.m, prod.n, got, want);
        }
    }
    Ok(())
}

struct RequantCell<'a, 'b> {
    epi: &'b KRequantize<'a>,
}

impl<'a, 'b, O: QuantOut> Cell<O> for RequantCell<'a, 'b> {
    closed spec fn takes(&self, i: int, j: int) -> bool {
        self.epi.ready::<O>(i, j)
    }

    closed spec fn gives(&self, i: int, j: int, before: O, after: O) -> bool {
        after.value() == self.epi.value::<O>(0, i, j)
    }

    fn update(&self, i: usize, j: usize, before: O) -> (after: O) {
        self.epi.requantize(0, i, j)
    }
}

/// The whole of a requantizing product without a depth: every accumulator is zero.
pub fn requant_degenerate<'a, O: QuantOut>(task: &RequantTask<'a>, c: &mut [O])
    requires
        task.ops.lc.fits(task.ops.m as int, task.ops.n as int, old(c)@.len() as int),
        task.ops.lc.distinct(task.ops.m as int, task.ops.n as int),
        forall|i: int, j: int|
            0 <= i < task.ops.m && 0 <= j < task.ops.n ==> #[trigger] task.epi.ready::<O>(i, j),
    ensures
        written(
            old(c)@,
            final(c)@,
            task.ops.lc,
            task.ops.m as int,
            task.ops.n as int,
            |i: int, j: int, x: O, y: O| y.value() == task.epi.value::<O>(0, i, j),
        ),
{
    let ghost c0 = c@;
    let g = RequantCell { epi: &task.epi };
    proof {
        assert forall|i: int, j: int|
            0 <= i < task.ops.m && 0 <= j < task.ops.n implies #[trigger] Cell::<O>::takes(
            &g,
            i,
            j,
        ) by {
            assert(task.epi.ready::<O>(i, j));
        }
    }
    for_each_cell(c, task.ops.lc, task.ops.m, task.ops.n, &g);
    proof {
        lemma_written_ext(
            c0,
            c@,
            task.ops.lc,
            task.ops.m as int,
            task.ops.n as int,
            |i: int, j: int, x: O, y: O| g.gives(i, j, x, y),
            |i: int, j: int, x: O, y: O| y.value() == task.epi.value::<O>(0, i, j),
        );
    }
}

/// Run a requantizing product: the degenerate cases here, everything else with the chosen
/// kernel.
pub fn execute_int_requant<'a, O: QuantOut>(
    ctx: &Context,
    task: RequantTask<'a>,
    par: Parallelism,
    c: &mut [O],
) -> (r: Result<(), GemmError>)
    requires
        ctx.kernels.valid(),
        task.ops.valid(old(c)@.len() as int),
        forall|i: int, j: int|
            0 <= i < task.ops.m && 0 <= j < task.ops.n ==> #[trigger] task.epi.ready::<O>(i, j),
    ensures
        r == outcome(None, requant_runs::<O>(*ctx, par, task.ops)),
        r is Ok ==> written(
            old(c)@,
            final(c)@,
            task.ops.lc,
            task.ops.m as int,
            task.ops.n as int,
            |i: int, j: int, x: O, y: O|
                y.value() == task.epi.value::<O>(int_acc(task.ops, i, j), i, j),
        ),
        r is Err ==> final(c)@ == old(c)@,
{
    let ghost c0 = c@;
    let ghost o = task.ops;
    if task.ops.m == 0 || task.ops.n == 0 {
        return Ok(());
    }
    if task.ops.k == 0 {
        requant_degenerate(&task, c);
        proof {
            let got = |i: int, j: int, x: O, y: O| y.value() == task.epi.value::<O>(0, i, j);
            let want = |i: int, j: int, x: O, y: O|
                y.value() == task.epi.value::<O>(int_acc(o, i, j), i, j);
            assert forall|i: int, j: int, x: O, y: O|
                0 <= i < o.m && 0 <= j < o.n && #[trigger] got(i, j, x, y) implies want(
                i,
                j,
                x,
                y,
            ) by {
                lemma_wrap_i32(0);
                assert(int_acc(o, i, j) == 0);
            }
            lemma_written_ext(c0, c@, o.lc, o.m as int, o.n as int, got, want);
        }
        return Ok(());
    }
    let d = ctx.kernels.byte;
    let mnk: usize = saturating_mul(saturating_mul(task.ops.m, task.ops.n), task.ops.k);
    let isa: Isa = pick_int_kernel(&ctx.tuning, par, mnk, d.isa, d.small_par_fallback);
    match isa {
        Isa::Avx512Vnni => run_typed_int_requant::<O, true>(ctx, task, par, c),
        _ => run_typed_int_requant::<O, false>(ctx, task, par, c),
    }
}

/// Why the scales are refused: a wrong length, or the first one that is not finite and greater
/// than zero.
pub open spec fn scale_error<'a>(rows: usize, scale: RequantScale<'a>) -> Option<GemmError> {
    match scale {
        RequantScale::PerTensor(s) => if s.usable() {
            None
        } else {
            Some(GemmError::BadScale { index: 0 })
        },
        RequantScale::PerRow(s) => if s@.len() != rows {
            Some(
                GemmError::LengthMismatch {
                    view: Operand::Scales,
                    want: rows,
                    len: s@.len() as usize,
                },
            )
        } else if all_usable(s@, s@.len() as int) {
            None
        } else {
            Some(GemmError::BadScale { index: first_unusable(s@, 0) as usize })
        },
    }
}

/// The first `n` scales are usable.
pub open spec fn all_usable(s: Seq<Scale>, n: int) -> bool {
    forall|i: int| 0 <= i < n ==> (#[trigger] s[i]).usable()
}

/// The first scale from index `from` that is not usable, or the length.
pub open spec fn first_unusable(s: Seq<Scale>, from: int) -> int
    decreases s.len() - from,
{
    if from < 0 || from >= s.len() || !s[from].usable() {
        from
    } else {
        first_unusable(s, from + 1)
    }
}

/// The first unusable scale is found by passing over the usable ones.
proof fn lemma_first_unusable(s: Seq<Scale>, from: int, at: int)
    requires
        0 <= from <= at < s.len(),
        all_usable(s, at),
        !s[at].usable(),
    ensures
        first_unusable(s, from) == at,
    decreases at - from,
{
    if from < at {
        assert(s[from].usable());
        lemma_first_unusable(s, from + 1, at);
    }
}

/// Check the scales, and lower them into the epilogue.
pub fn requant_scale<'a>(rows: usize, scale: RequantScale<'a>) -> (r: Result<
    ScaleSpec<'a>,
    GemmError,
>)
    ensures
        match scale_error(rows, scale) {
            Some(e) => r == Err::<ScaleSpec<'a>, GemmError>(e),
            None => r == Ok::<ScaleSpec<'a>, GemmError>(scale_spec(scale)),
        },
{
    match scale {
        RequantScale::PerTensor(s) => if s.is_usable() {
            Ok(ScaleSpec::Tensor(s))
        } else {
            Err(GemmError::BadScale { index: 0 })
        },
        RequantScale::PerRow(s) => {
            if s.len() != rows {
                return Err(
                    GemmError::LengthMismatch { view: Operand::Scales, want: rows, len: s.len() },
                );
            }
            let mut i: usize = 0;
            while i < s.len()
                invariant
                    i <= s@.len(),
                    all_usable(s@, i as int),
                    scale == RequantScale::PerRow(s),
                    s@.len() == rows,
                decreases s@.len() - i,
            {
                if !s[i].is_usable() {
                    proof {
                        lemma_first_unusable(s@, 0, i as int);
                    }
                    return Err(GemmError::BadScale { index: i });
                }
                i = i + 1;
            }
            Ok(ScaleSpec::Row(s))
        },
    }
}

/// The scales as the epilogue holds them.
pub open spec fn scale_spec<'a>(scale: RequantScale<'a>) -> ScaleSpec<'a> {
    match scale {
        RequantScale::PerTensor(s) => ScaleSpec::Tensor(s),
        RequantScale::PerRow(s) => ScaleSpec::Row(s),
    }
}

/// Why a requantization bias is refused.
pub open spec fn requant_bias_error<'a>(rows: usize, bias: Option<&'a [i32]>) -> Option<GemmError> {
    match bias {
        None => None,
        Some(b) => if b@.len() == rows {
            None
        } else {
            Some(
                GemmError::LengthMismatch {
                    view: Operand::Bias,
                    want: rows,
                    len: b@.len() as usize,
                },
            )
        },
    }
}

/// The bias as the epilogue holds it.
pub open spec fn bias_spec<'a>(bias: Option<&'a [i32]>) -> BiasSpec<'a, i32> {
    match bias {
        None => BiasSpec::Absent,
        Some(b) => BiasSpec::Row(b),
    }
}

/// Check the bias, and lower it into the epilogue.
pub fn requant_bias<'a>(rows: usize, bias: Option<&'a [i32]>) -> (r: Result<
    BiasSpec<'a, i32>,
    GemmError,
>)
    ensures
        match requant_bias_error(rows, bias) {
            Some(e) => r == Err::<BiasSpec<'a, i32>, GemmError>(e),
            None => r == Ok::<BiasSpec<'a, i32>, GemmError>(bias_spec(bias)),
        },
{
    match bias {
        None => Ok(BiasSpec::Absent),
        Some(b) => if b.len() == rows {
            Ok(BiasSpec::Row(b))
        } else {
            Err(GemmError::LengthMismatch { view: Operand::Bias, want: rows, len: b.len() })
        },
    }
}

/// The first reason to refuse the parameters: the scales, the zero point, the bias.
pub open spec fn requantize_error<'a, O: QuantOut>(rows: usize, req: Requantize<'a>) -> Option<
    GemmError,
> {
    first_error(
        scale_error(rows, req.scale),
        if O::lo_spec() <= req.zero_point <= O::hi_spec() {
            requant_bias_error(rows, req.bias)
        } else {
            Some(GemmError::ZeroPointOutOfRange { zero_point: req.zero_point })
        },
    )
}

/// Check the parameters of a requantizing product; see [`requantize_error`].
pub fn check_requantize<'a, O: QuantOut>(rows: usize, req: &Requantize<'a>) -> (r: Result<
    (),
    GemmError,
>)
    ensures
        r == (match requantize_error::<O>(rows, *req) {
            Some(e) => Err::<(), GemmError>(e),
            None => Ok(()),
        }),
{
    if let Err(e) = requant_scale(rows, req.scale) {
        return Err(e);
    }
    if req.zero_point < O::lo() || req.zero_point > O::hi() {
        return Err(GemmError::ZeroPointOutOfRange { zero_point: req.zero_point });
    }
    if let Err(e) = requant_bias(rows, req.bias) {
        return Err(e);
    }
    Ok(())
}

/// The epilogue that the parameters describe.
pub open spec fn requant_epi<'a>(req: Requantize<'a>) -> KRequantize<'a> {
    KRequantize { scale: scale_spec(req.scale), zp: req.zero_point, bias: bias_spec(req.bias) }
}

/// A requantizing product over views, for either byte.
fn requant_views<'a, O: QuantOut>(
    ctx: &Context,
    a: MatRef<'a, i8>,
    b: MatRef<'a, i8>,
    req: Requantize<'a>,
    c: MatMut<'_, O>,
    par: Parallelism,
) -> (r: Result<(), GemmError>)
    requires
        ctx.kernels.valid(),
    ensures
        r == outcome(
            first_error(
                gemm_views_error(a.geometry(), b.geometry(), c.geometry()),
                requantize_error::<O>(a.rows, req),
            ),
            requant_runs::<O>(*ctx, par, operands_of(a, b, c.layout_spec())),
        ),
        r is Ok ==> written(
            old(c.data)@,
            final(c.data)@,
            c.layout_spec(),
            c.rows as int,
            c.cols as int,
            |i: int, j: int, x: O, y: O|
                y.value() == requant_epi(req).value::<O>(
                    int_acc(operands_of(a, b, c.layout_spec()), i, j),
                    i,
                    j,
                ),
        ),
        r is Err ==> final(c.data)@ == old(c.data)@,
{
    if let Err(e) = validate_gemm_views(&a, &b, &c) {
        return Err(e);
    }
    if let Err(e) = check_requantize::<O>(a.rows, &req) {
        return Err(e);
    }
    proof {
        lemma_views_valid(a, b, c.geometry());
    }
    let ops: Operands<'a, i8> = Operands {
        m: a.rows,
        k: a.cols,
        n: b.cols,
        a: a.data,
        la: a.layout(),
        b: b.data,
        lb: b.layout(),
        lc: c.layout(),
    };
    assert(ops == operands_of(a, b, c.layout_spec()));
    requant_known(ctx, ops, req, c.data, par)
}

/// `C <- clamp(zero_point + round_ne(scale*(A*B + bias)), -128, 127)` over `i8` views and a `i8`
/// output, under the given context. `A*B` is the exact integer product, and `round_ne` rounds to
/// nearest with ties to even.
pub fn gemm_i8_requant_with<'a>(
    ctx: &Context,
    a: MatRef<'a, i8>,
    b: MatRef<'a, i8>,
    req: Requantize<'a>,
    c: MatMut<'_, i8>,
    par: Parallelism,
) -> (r: Result<(), GemmError>)
    requires
        ctx.kernels.valid(),
    ensures
        r == outcome(
            first_error(
                gemm_views_error(a.geometry(), b.geometry(), c.geometry()),
                requantize_error::<i8>(a.rows, req),
            ),
            requant_runs::<i8>(*ctx, par, operands_of(a, b, c.layout_spec())),
        ),
        r is Ok ==> written(
            old(c.data)@,
            final(c.data)@,
            c.layout_spec(),
            c.rows as int,
            c.cols as int,
            |i: int, j: int, x: i8, y: i8|
                y.value() == requant_epi(req).value::<i8>(
                    int_acc(operands_of(a, b, c.layout_spec()), i, j),
                    i,
                    j,
                ),
        ),
        r is Err ==> final(c.data)@ == old(c.data)@,
{
    requant_views(ctx, a, b, req, c, par)
}

/// [`gemm_i8_requant_with`] under the default context.
pub fn gemm_i8_requant<'a>(
    a: MatRef<'a, i8>,
    b: MatRef<'a, i8>,
    req: Requantize<'a>,
    c: MatMut<'_, i8>,
    par: Parallelism,
) -> (r: Result<(), GemmError>)
    ensures
        r == outcome(
            first_error(
                gemm_views_error(a.geometry(), b.geometry(), c.geometry()),
                requantize_error::<i8>(a.rows, req),
            ),
            requant_runs::<i8>(default_context(), par, operands_of(a, b, c.layout_spec())),
        ),
        r is Ok ==> written(
            old(c.data)@,
            final(c.data)@,
            c.layout_spec(),
            c.rows as int,
            c.cols as int,
            |i: int, j: int, x: i8, y: i8|
                y.value() == requant_epi(req).value::<i8>(
                    int_acc(operands_of(a, b, c.layout_spec()), i, j),
                    i,
                    j,
                ),
        ),
        r is Err ==> final(c.data)@ == old(c.data)@,
{
    gemm_i8_requant_with(&Context::new(), a, b, req, c, par)
}

/// `C <- clamp(zero_point + round_ne(scale*(A*B + bias)), 0, 255)` over `i8` views and a `u8`
/// output, under the given context. `A*B` is the exact integer product, and `round_ne` rounds to
/// nearest with ties to even.
pub fn gemm_i8_requant_u8_with<'a>(
    ctx: &Context,
    a: MatRef<'a, i8>,
    b: MatRef<'a, i8>,
    req: Requantize<'a>,
    c: MatMut<'_, u8>,
    par: Parallelism,
) -> (r: Result<(), GemmError>)
    requires
        ctx.kernels.valid(),
    ensures
        r == outcome(
            first_error(
                gemm_views_error(a.geometry(), b.geometry(), c.geometry()),
                requantize_error::<u8>(a.rows, req),
            ),
            requant_runs::<u8>(*ctx, par, operands_of(a, b, c.layout_spec())),
        ),
        r is Ok ==> written(
            old(c.data)@,
            final(c.data)@,
            c.layout_spec(),
            c.rows as int,
            c.cols as int,
            |i: int, j: int, x: u8, y: u8|
                y.value() == requant_epi(req).value::<u8>(
                    int_acc(operands_of(a, b, c.layout_spec()), i, j),
                    i,
                    j,
                ),
        ),
        r is Err ==> final(c.data)@ == old(c.data)@,
{
    requant_views(ctx, a, b, req, c, par)
}

/// [`gemm_i8_requant_u8_with`] under the default context.
pub fn gemm_i8_requant_u8<'a>(
    a: MatRef<'a, i8>,
    b: MatRef<'a, i8>,
    req: Requantize<'a>,
    c: MatMut<'_, u8>,
    par: Parallelism,
) -> (r: Result<(), GemmError>)
    ensures
        r == outcome(
            first_error(
                gemm_views_error(a.geometry(), b.geometry(), c.geometry()),
                requantize_error::<u8>(a.rows, req),
            ),
            requant_runs::<u8>(default_context(), par, operands_of(a, b, c.layout_spec())),
        ),
        r is Ok ==> written(
            old(c.data)@,
            final(c.data)@,
            c.layout_spec(),
            c.rows as int,
            c.cols as int,
            |i: int, j: int, x: u8, y: u8|
                y.value() == requant_epi(req).value::<u8>(
                    int_acc(operands_of(a, b, c.layout_spec()), i, j),
                    i,
                    j,
                ),
        ),
        r is Err ==> final(c.data)@ == old(c.data)@,
{
    gemm_i8_requant_u8_with(&Context::new(), a, b, req, c, par)
}

/// The requantizing product with a `i8` output, for operands that are known to fit their slices and
/// parameters that are known to suit them.
pub fn gemm_i8_requant_unchecked_with<'a>(
    ctx: &Context,
    ops: Operands<'a, i8>,
    req: Requantize<'a>,
    c: &mut [i8],
    par: Parallelism,
) -> (r: Result<(), GemmError>)
    requires
        ctx.kernels.valid(),
        ops.valid(old(c)@.len() as int),
        requantize_error::<i8>(ops.m, req) is None,
    ensures
        r == outcome(None, requant_runs::<i8>(*ctx, par, ops)),
        r is Ok ==> written(
            old(c)@,
            final(c)@,
            ops.lc,
            ops.m as int,
            ops.n as int,
            |i: int, j: int, x: i8, y: i8|
                y.value() == requant_epi(req).value::<i8>(int_acc(ops, i, j), i, j),
        ),
        r is Err ==> final(c)@ == old(c)@,
{
    requant_known(ctx, ops, req, c, par)
}

/// [`gemm_i8_requant_unchecked_with`] under the default context.
pub fn gemm_i8_requant_unchecked<'a>(
    ops: Operands<'a, i8>,
    req: Requantize<'a>,
    c: &mut [i8],
    par: Parallelism,
) -> (r: Result<(), GemmError>)
    requires
        ops.valid(old(c)@.len() as int),
        requantize_error::<i8>(ops.m, req) is None,
    ensures
        r == outcome(None, requant_runs::<i8>(default_context(), par, ops)),
        r is Ok ==> written(
            old(c)@,
            final(c)@,
            ops.lc,
            ops.m as int,
            ops.n as int,
            |i: int, j: int, x: i8, y: i8|
                y.value() == requant_epi(req).value::<i8>(int_acc(ops, i, j), i, j),
        ),
        r is Err ==> final(c)@ == old(c)@,
{
    gemm_i8_requant_unchecked_with(&Context::new(), ops, req, c, par)
}

/// The requantizing product with a `u8` output, for operands that are known to fit their slices and
/// parameters that are known to suit them.
pub fn gemm_i8_requant_u8_unchecked_with<'a>(
    ctx: &Context,
    ops: Operands<'a, i8>,
    req: Requantize<'a>,
    c: &mut [u8],
    par: Parallelism,
) -> (r: Result<(), GemmError>)
    requires
        ctx.kernels.valid(),
        ops.valid(old(c)@.len() as int),
        requantize_error::<u8>(ops.m, req) is None,
    ensures
        r == outcome(None, requant_runs::<u8>(*ctx, par, ops)),
        r is Ok ==> written(
            old(c)@,
            final(c)@,
            ops.lc,
            ops.m as int,
            ops.n as int,
            |i: int, j: int, x: u8, y: u8|
                y.value() == requant_epi(req).value::<u8>(int_acc(ops, i, j), i, j),
        ),
        r is Err ==> final(c)@ == old(c)@,
{
    requant_known(ctx, ops, req, c, par)
}

/// [`gemm_i8_requant_u8_unchecked_with`] under the default context.
pub fn gemm_i8_requant_u8_unchecked<'a>(
    ops: Operands<'a, i8>,
    req: Requantize<'a>,
    c: &mut [u8],
    par: Parallelism,
) -> (r: Result<(), GemmError>)
    requires
        ops.valid(old(c)@.len() as int),
        requantize_error::<u8>(ops.m, req) is None,
    ensures
        r == outcome(None, requant_runs::<u8>(default_context(), par, ops)),
        r is Ok ==> written(
            old(c)@,
            final(c)@,
            ops.lc,
            ops.m as int,
            ops.n as int,
            |i: int, j: int, x: u8, y: u8|
                y.value() == requant_epi(req).value::<u8>(int_acc(ops, i, j), i, j),
        ),
        r is Err ==> final(c)@ == old(c)@,
{
    gemm_i8_requant_u8_unchecked_with(&Context::new(), ops, req, c, par)
}

/// The requantizing product for parameters that have been checked.
fn requant_known<'a, O: QuantOut>(
    ctx: &Context,
    ops: Operands<'a, i8>,
    req: Requantize<'a>,
    c: &mut [O],
    par: Parallelism,
) -> (r: Result<(), GemmError>)
    requires
        ctx.kernels.valid(),
        ops.valid(old(c)@.len() as int),
        requantize_error::<O>(ops.m, req) is None,
    ensures
        r == outcome(None, requant_runs::<O>(*ctx, par, ops)),
        r is Ok ==> written(
            old(c)@,
            final(c)@,
            ops.lc,
            ops.m as int,
            ops.n as int,
            |i: int, j: int, x: O, y: O|
                y.value() == requant_epi(req).value::<O>(int_acc(ops, i, j), i, j),
        ),
        r is Err ==> final(c)@ == old(c)@,
{
    let scale: ScaleSpec<'a> = match req.scale {
        RequantScale::PerTensor(s) => ScaleSpec::Tensor(s),
        RequantScale::PerRow(s) => ScaleSpec::Row(s),
    };
    let bias: BiasSpec<'a, i32> = match req.bias {
        None => BiasSpec::Absent,
        Some(b) => BiasSpec::Row(b),
    };
    let epi: KRequantize<'a> = KRequantize { scale, zp: req.zero_point, bias };
    assert(epi == requant_epi(req));
    proof {
        assert forall|i: int, j: int|
            0 <= i < ops.m && 0 <= j < ops.n implies #[trigger] epi.ready::<O>(i, j) by {
            assert(epi.scale.at(i, j).usable());
        }
    }
    execute_int_requant(ctx, RequantTask { ops, epi }, par, c)
}

} // verus!
