//! Problems that are valid by construction, and the run that each of them asks for.

use vstd::prelude::*;

use crate::arith::{max_int, max_usize, min_int, min_usize};
use crate::dispatch::Operands;
use crate::element::GemmScalar;
use crate::error::GemmError;
use crate::fuzz::common::{ab_spec, i8_ab, LayoutPlan, N_SCALES};
use crate::fuzz::differential::{can_fit, differential_gemm_i8, has_shape, problem_fits, Report};
use crate::gemm_i8::int_runs;
use crate::homog::gemm_runs;
use crate::laws::{
    law_ordinary_gemm_runs, law_ordinary_int_runs, law_ordinary_packed_runs, ordinary_size,
    ordinary_tile,
};
use crate::limits::{ordinary_cache, wide};
use crate::packed_gemm::PackedConsume;
use crate::parallel::{Context, Parallelism};
use crate::prepack::{rhs_geometry, rhs_packs};
use crate::tuning::{knob, Tuning, KC_SIZEOF_DIV_CAP};

verus! {

/// The element type of a run.
#[derive(Clone, Copy, Debug, PartialEq, Eq, Structural)]
pub enum TypeTag {
    F32,
    F64,
    F16,
    Bf16,
    I8,
    C32,
    C64,
}

/// A plain product of any type.
#[derive(Clone, Copy, Debug)]
pub struct GemmPlan {
    pub ty: TypeTag,
    pub m: usize,
    pub k: usize,
    pub n: usize,
    pub la: LayoutPlan,
    pub lb: LayoutPlan,
    pub lc: LayoutPlan,
    pub alpha_i: usize,
    pub beta_i: usize,
    pub alpha_im_i: usize,
    pub beta_im_i: usize,
    pub nan_c: bool,
    pub conj_a: bool,
    pub conj_b: bool,
    pub ws_reuse: bool,
    pub par: Parallelism,
    pub a_seed: u64,
    pub b_seed: u64,
    pub c_seed: u64,
}

impl GemmPlan {
    /// The indices of the scales stand in their table.
    pub open spec fn valid(self) -> bool {
        &&& self.alpha_i < N_SCALES
        &&& self.beta_i < N_SCALES
        &&& self.ty == TypeTag::C32 || self.ty == TypeTag::C64 ==> self.alpha_im_i < N_SCALES
            && self.beta_im_i < N_SCALES
    }

    /// See [`GemmPlan::valid`].
    pub fn is_valid(&self) -> (r: bool)
        ensures
            r == self.valid(),
    {
        let complex: bool = match self.ty {
            TypeTag::C32 | TypeTag::C64 => true,
            _ => false,
        };
        self.alpha_i < N_SCALES && self.beta_i < N_SCALES && (!complex || self.alpha_im_i < N_SCALES
            && self.beta_im_i < N_SCALES)
    }
}

/// A plain product under made-up tuning knobs.
#[derive(Clone, Copy, Debug, PartialEq, Eq, Structural)]
pub enum Scenario {
    PlainF32,
    Gemv,
    SmallMn,
    PrepackB,
    PrepackA,
    I8,
    Batched,
}

/// How many knobs a plan sets.
pub const N_KNOBS: usize = 27;

/// A scenario with a value for every knob.
#[derive(Clone, Copy, Debug)]
pub struct KnobsPlan {
    pub values: [usize; N_KNOBS],
    pub scenario: Scenario,
    pub m: usize,
    pub k: usize,
    pub n: usize,
    pub la: LayoutPlan,
    pub lb: LayoutPlan,
    pub alpha_i: usize,
    pub beta_i: usize,
    pub par: Parallelism,
    pub seed: u64,
}

impl KnobsPlan {
    /// The indices of the scales stand in their table.
    pub open spec fn valid(self) -> bool {
        &&& self.alpha_i < N_SCALES
        &&& self.beta_i < N_SCALES
    }

    /// See [`KnobsPlan::valid`].
    pub fn is_valid(&self) -> (r: bool)
        ensures
            r == self.valid(),
    {
        self.alpha_i < N_SCALES && self.beta_i < N_SCALES
    }
}

/// A batch of products.
#[derive(Clone, Copy, Debug)]
pub struct BatchedPlan {
    /// The wider of the two element types.
    pub ty64: bool,
    pub batch: usize,
    pub m: usize,
    pub k: usize,
    pub n: usize,
    pub la: LayoutPlan,
    pub lb: LayoutPlan,
    pub lc: LayoutPlan,
    pub a_broadcast: bool,
    pub b_broadcast: bool,
    pub a_bs_pad: usize,
    pub b_bs_pad: usize,
    pub c_bs_pad: usize,
    pub alpha_i: usize,
    pub beta_i: usize,
    pub par: Parallelism,
    pub seed: u64,
}

impl BatchedPlan {
    /// The indices of the scales stand in their table.
    pub open spec fn valid(self) -> bool {
        &&& self.alpha_i < N_SCALES
        &&& self.beta_i < N_SCALES
    }

    /// See [`BatchedPlan::valid`].
    pub fn is_valid(&self) -> (r: bool)
        ensures
            r == self.valid(),
    {
        self.alpha_i < N_SCALES && self.beta_i < N_SCALES
    }
}

/// Products with a prepacked operand, on either side.
#[derive(Clone, Copy, Debug)]
pub struct PrepackPlan {
    /// `F32`, `F64`, or anything else for `Bf16`.
    pub ty: TypeTag,
    pub m: usize,
    pub k: usize,
    pub n: usize,
    pub la: LayoutPlan,
    pub lb: LayoutPlan,
    pub alpha_i: usize,
    pub beta_i: usize,
    pub par: Parallelism,
    pub seed: u64,
}

impl PrepackPlan {
    /// The indices of the scales stand in their table.
    pub open spec fn valid(self) -> bool {
        &&& self.alpha_i < N_SCALES
        &&& self.beta_i < N_SCALES
    }

    /// See [`PrepackPlan::valid`].
    pub fn is_valid(&self) -> (r: bool)
        ensures
            r == self.valid(),
    {
        self.alpha_i < N_SCALES && self.beta_i < N_SCALES
    }
}

/// A run of a real type: a plain product.
#[derive(Clone, Copy, Debug, PartialEq, Eq, Structural)]
pub struct RealJob {
    pub ty: TypeTag,
    pub m: usize,
    pub k: usize,
    pub n: usize,
    pub la: LayoutPlan,
    pub lb: LayoutPlan,
    pub lc: LayoutPlan,
    pub alpha_i: usize,
    pub beta_i: usize,
    /// Fill C with values that must not be read, where `beta` is zero.
    pub nan_c: bool,
    pub par: Parallelism,
    /// Run another product first.
    pub ws_reuse: bool,
    pub a_seed: u64,
    pub b_seed: u64,
    pub c_seed: u64,
}

/// A run of the integer product.
#[derive(Clone, Copy, Debug, PartialEq, Eq, Structural)]
pub struct I8Job {
    pub m: usize,
    pub k: usize,
    pub n: usize,
    pub la: LayoutPlan,
    pub lb: LayoutPlan,
    pub lc: LayoutPlan,
    pub alpha: i32,
    pub beta: i32,
    pub par: Parallelism,
    pub a_seed: u64,
    pub b_seed: u64,
    pub c_seed: u64,
}

/// A run of a complex type.
#[derive(Clone, Copy, Debug, PartialEq, Eq, Structural)]
pub struct CplxJob {
    /// `C32` or `C64`.
    pub ty: TypeTag,
    pub m: usize,
    pub k: usize,
    pub n: usize,
    pub la: LayoutPlan,
    pub lb: LayoutPlan,
    pub lc: LayoutPlan,
    /// Indices of the real and the imaginary parts.
    pub alpha_i: usize,
    pub alpha_im_i: usize,
    pub beta_i: usize,
    pub beta_im_i: usize,
    pub conj_a: bool,
    pub conj_b: bool,
    pub nan_c: bool,
    pub par: Parallelism,
    pub a_seed: u64,
    pub b_seed: u64,
    pub c_seed: u64,
}

/// A run with a prepacked operand of a real type.
#[derive(Clone, Copy, Debug, PartialEq, Eq, Structural)]
pub struct PackedJob {
    pub ty: TypeTag,
    pub m: usize,
    pub k: usize,
    pub n: usize,
    pub la: LayoutPlan,
    pub lb: LayoutPlan,
    pub alpha_i: usize,
    pub beta_i: usize,
    pub par: Parallelism,
    pub a_seed: u64,
    pub b_seed: u64,
    pub c_seed: u64,
}

/// A run of a batch of a real type.
#[derive(Clone, Copy, Debug, PartialEq, Eq, Structural)]
pub struct BatchedJob {
    pub ty: TypeTag,
    pub batch: usize,
    pub m: usize,
    pub k: usize,
    pub n: usize,
    pub la: LayoutPlan,
    pub lb: LayoutPlan,
    pub lc: LayoutPlan,
    pub a_broadcast: bool,
    pub b_broadcast: bool,
    pub a_bs_pad: usize,
    pub b_bs_pad: usize,
    pub c_bs_pad: usize,
    pub alpha_i: usize,
    pub beta_i: usize,
    pub par: Parallelism,
    pub seed: u64,
}

/// The run that a plan asks for.
#[derive(Clone, Copy, Debug, PartialEq, Eq, Structural)]
pub enum Job {
    Real(RealJob),
    I8(I8Job),
    Cplx(CplxJob),
    PackedB(PackedJob),
    PackedA(PackedJob),
    Batched(BatchedJob),
}

/// The run of a plain plan: its type decides which driver it goes to, and every other field is
/// handed on.
pub open spec fn gemm_job(p: GemmPlan) -> Job {
    if p.ty == TypeTag::I8 {
        Job::I8(
            I8Job {
                m: p.m,
                k: p.k,
                n: p.n,
                la: p.la,
                lb: p.lb,
                lc: p.lc,
                alpha: ab_spec(p.alpha_i) as i32,
                beta: ab_spec(p.beta_i) as i32,
                par: p.par,
                a_seed: p.a_seed,
                b_seed: p.b_seed,
                c_seed: p.c_seed,
            },
        )
    } else if p.ty == TypeTag::C32 || p.ty == TypeTag::C64 {
        Job::Cplx(
            CplxJob {
                ty: p.ty,
                m: p.m,
                k: p.k,
                n: p.n,
                la: p.la,
                lb: p.lb,
                lc: p.lc,
                alpha_i: p.alpha_i,
                alpha_im_i: p.alpha_im_i,
                beta_i: p.beta_i,
                beta_im_i: p.beta_im_i,
                conj_a: p.conj_a,
                conj_b: p.conj_b,
                nan_c: p.nan_c,
                par: p.par,
                a_seed: p.a_seed,
                b_seed: p.b_seed,
                c_seed: p.c_seed,
            },
        )
    } else {
        Job::Real(
            RealJob {
                ty: p.ty,
                m: p.m,
                k: p.k,
                n: p.n,
                la: p.la,
                lb: p.lb,
                lc: p.lc,
                alpha_i: p.alpha_i,
                beta_i: p.beta_i,
                nan_c: p.nan_c,
                par: p.par,
                ws_reuse: p.ws_reuse,
                a_seed: p.a_seed,
                b_seed: p.b_seed,
                c_seed: p.c_seed,
            },
        )
    }
}

/// See [`gemm_job`].
pub fn run_gemm(p: &GemmPlan) -> (r: Job)
    requires
        p.valid(),
    ensures
        r == gemm_job(*p),
{
    match p.ty {
        TypeTag::I8 => Job::I8(
            I8Job {
                m: p.m,
                k: p.k,
                n: p.n,
                la: p.la,
                lb: p.lb,
                lc: p.lc,
                alpha: i8_ab(p.alpha_i),
                beta: i8_ab(p.beta_i),
                par: p.par,
                a_seed: p.a_seed,
                b_seed: p.b_seed,
                c_seed: p.c_seed,
            },
        ),
        TypeTag::C32 | TypeTag::C64 => Job::Cplx(
            CplxJob {
                ty: p.ty,
                m: p.m,
                k: p.k,
                n: p.n,
                la: p.la,
                lb: p.lb,
                lc: p.lc,
                alpha_i: p.alpha_i,
                alpha_im_i: p.alpha_im_i,
                beta_i: p.beta_i,
                beta_im_i: p.beta_im_i,
                conj_a: p.conj_a,
                conj_b: p.conj_b,
                nan_c: p.nan_c,
                par: p.par,
                a_seed: p.a_seed,
                b_seed: p.b_seed,
                c_seed: p.c_seed,
            },
        ),
        _ => Job::Real(
            RealJob {
                ty: p.ty,
                m: p.m,
                k: p.k,
                n: p.n,
                la: p.la,
                lb: p.lb,
                lc: p.lc,
                alpha_i: p.alpha_i,
                beta_i: p.beta_i,
                nan_c: p.nan_c,
                par: p.par,
                ws_reuse: p.ws_reuse,
                a_seed: p.a_seed,
                b_seed: p.b_seed,
                c_seed: p.c_seed,
            },
        ),
    }
}

/// The tuning that the values of a plan stand for, in their fixed order: every knob that has a
/// setter is set from its own value, so nothing of an earlier tuning is left.
pub open spec fn knobs_tuning(v: Seq<usize>) -> Tuning {
    Tuning {
        parallel_threshold: knob(v[0]),
        rhs_pack_threshold: knob(v[1]),
        lhs_pack_threshold: knob(v[2]),
        lhs_pack_stride: knob(v[3]),
        gemv_threshold: knob(v[4]),
        small_k_threshold: knob(v[5]),
        small_mn_dim: knob(v[6]),
        gemv_parallel_bytes: knob(v[7]),
        gemv_thread_cap: knob(v[8]),
        parallel_oversample: knob(v[9]),
        thread_dim_stride: knob(v[10]),
        shared_lhs_mnk: knob(v[11]),
        k_stream_max: knob(v[12]),
        seq_internal_bytes_per_worker: knob(v[13]),
        packed_oversample: knob(v[14]),
        mc_reg_panels: knob(v[15]),
        nc_no_l3_panels: knob(v[16]),
        tiny_block_dim: knob(v[17]),
        kc: knob(v[18]),
        kc_min: knob(v[19]),
        pack_transpose_tile: knob(v[20]),
        deep_kc_bytes: knob(v[21]),
        i8_vnni_min_par_mnk: knob(v[22]),
        lhs_pack_span: knob(v[23]),
        lhs_pack_reuse: knob(v[24]),
        small_mn_pack_min_k: knob(v[25]),
        prefetch_min_bytes: knob(v[26]),
        kc_sizeof_div_cap: KC_SIZEOF_DIV_CAP,
    }
}

/// See [`knobs_tuning`].
pub fn set_knobs(values: &[usize; N_KNOBS]) -> (r: Tuning)
    ensures
        r == knobs_tuning(values@),
{
    let mut t: Tuning = Tuning::new();
    t.set_parallel_threshold(values[0]);
    t.set_rhs_pack_threshold(values[1]);
    t.set_lhs_pack_threshold(values[2]);
    t.set_lhs_pack_stride(values[3]);
    t.set_gemv_threshold(values[4]);
    t.set_small_k_threshold(values[5]);
    t.set_small_mn_dim(values[6]);
    t.set_gemv_parallel_bytes(values[7]);
    t.set_gemv_thread_cap(values[8]);
    t.set_parallel_oversample(values[9]);
    t.set_thread_dim_stride(values[10]);
    t.set_shared_lhs_mnk(values[11]);
    t.set_k_stream_max(values[12]);
    t.set_seq_internal_bytes_per_worker(values[13]);
    t.set_packed_oversample(values[14]);
    t.set_mc_reg_panels(values[15]);
    t.set_nc_no_l3_panels(values[16]);
    t.set_tiny_block_dim(values[17]);
    t.set_kc(values[18]);
    t.set_kc_min(values[19]);
    t.set_pack_transpose_tile(values[20]);
    t.set_deep_kc_bytes(values[21]);
    t.set_i8_vnni_min_par_mnk(values[22]);
    t.set_lhs_pack_span(values[23]);
    t.set_lhs_pack_reuse(values[24]);
    t.set_small_mn_pack_min_k(values[25]);
    t.set_prefetch_min_bytes(values[26]);
    t
}

/// Whatever the values of a plan are, no product of an ordinary size on an ordinary machine is
/// refused under the knobs that they set: neither a plain one, nor one with a prepacked operand,
/// nor an integer one. So no knob makes a run of a plan end otherwise than in its result, which
/// the drivers hold against the reference.
pub proof fn law_any_knobs_run<'a>(
    ctx: Context,
    v: Seq<usize>,
    par: Parallelism,
    alpha: i32,
    o: Operands<'a, i32>,
    req: PackedConsume<'a, i32>,
    q: Operands<'a, i8>,
)
    requires
        wide(),
        ordinary_cache(ctx.machine.cache),
        ctx.kernels.valid(),
        ordinary_tile(i32::rhs_tile_spec(ctx.kernels)),
        ordinary_tile((ctx.kernels.byte.mr, ctx.kernels.byte.nr)),
        ctx.tuning == knobs_tuning(v),
        ordinary_size(o),
        ordinary_size(q),
        req.m <= 0x100_0000,
        req.packed.geometry().k <= 0x100_0000,
        req.packed.geometry().n <= 0x100_0000,
        req.packed.geometry() == rhs_geometry::<i32>(
            ctx,
            req.packed.geometry().k,
            req.packed.geometry().n,
        ),
    ensures
        gemm_runs(ctx, par, o, alpha),
        rhs_packs::<i32>(ctx, req.packed.geometry().k, req.packed.geometry().n),
        req.runs(ctx, par),
        int_runs(ctx, par, q, alpha),
{
    broadcast use vstd::layout::layout_of_primitives;

    assert(vstd::layout::size_of::<i32>() == 4);
    law_ordinary_gemm_runs(ctx, par, o, alpha);
    law_ordinary_packed_runs(ctx, par, req);
    law_ordinary_int_runs::<i8>(ctx, par, q, alpha);
}

/// The layout of C where a plan names none: by rows, with one element of padding.
pub open spec fn padded_rows() -> LayoutPlan {
    LayoutPlan::RowIsh { il: 1, pad: 1 }
}

/// The plain run of a knobs plan at a shape.
pub open spec fn knobs_real(p: KnobsPlan, m: usize, k: usize, n: usize) -> Job {
    Job::Real(
        RealJob {
            ty: TypeTag::F32,
            m,
            k,
            n,
            la: p.la,
            lb: p.lb,
            lc: padded_rows(),
            alpha_i: p.alpha_i,
            beta_i: p.beta_i,
            nan_c: false,
            par: p.par,
            ws_reuse: false,
            a_seed: p.seed ^ 0x11,
            b_seed: p.seed ^ 0x22,
            c_seed: p.seed ^ 0x33,
        },
    )
}

/// The prepacked run of a plan.
pub open spec fn packed_job(
    ty: TypeTag,
    m: usize,
    k: usize,
    n: usize,
    la: LayoutPlan,
    lb: LayoutPlan,
    alpha_i: usize,
    beta_i: usize,
    par: Parallelism,
    seed: u64,
) -> PackedJob {
    PackedJob {
        ty,
        m,
        k,
        n,
        la,
        lb,
        alpha_i,
        beta_i,
        par,
        a_seed: seed ^ 0x11,
        b_seed: seed ^ 0x22,
        c_seed: seed ^ 0x33,
    }
}

/// The run of a scenario. A matrix-vector product has one column; a small product has at most 8
/// rows and columns and at least 32 in depth; a batch has 3 elements without padding.
pub open spec fn knobs_job(p: KnobsPlan) -> Job {
    match p.scenario {
        Scenario::PlainF32 => knobs_real(p, p.m, p.k, p.n),
        Scenario::Gemv => knobs_real(p, p.m, p.k, 1),
        Scenario::SmallMn => knobs_real(
            p,
            min_int(p.m as int, 8) as usize,
            max_int(p.k as int, 32) as usize,
            min_int(p.n as int, 8) as usize,
        ),
        Scenario::PrepackB => Job::PackedB(
            packed_job(
                TypeTag::F32,
                p.m,
                p.k,
                p.n,
                p.la,
                p.lb,
                p.alpha_i,
                p.beta_i,
                p.par,
                p.seed,
            ),
        ),
        Scenario::PrepackA => Job::PackedA(
            packed_job(
                TypeTag::F32,
                p.m,
                p.k,
                p.n,
                p.la,
                p.lb,
                p.alpha_i,
                p.beta_i,
                p.par,
                p.seed,
            ),
        ),
        Scenario::I8 => Job::I8(
            I8Job {
                m: p.m,
                k: p.k,
                n: p.n,
                la: p.la,
                lb: p.lb,
                lc: padded_rows(),
                alpha: ab_spec(p.alpha_i) as i32,
                beta: ab_spec(p.beta_i) as i32,
                par: p.par,
                a_seed: p.seed ^ 0x11,
                b_seed: p.seed ^ 0x22,
                c_seed: p.seed ^ 0x33,
            },
        ),
        Scenario::Batched => Job::Batched(
            BatchedJob {
                ty: TypeTag::F32,
                batch: 3,
                m: p.m,
                k: p.k,
                n: p.n,
                la: p.la,
                lb: p.lb,
                lc: padded_rows(),
                a_broadcast: false,
                b_broadcast: false,
                a_bs_pad: 0,
                b_bs_pad: 0,
                c_bs_pad: 0,
                alpha_i: p.alpha_i,
                beta_i: p.beta_i,
                par: p.par,
                seed: p.seed,
            },
        ),
    }
}

fn real_run(p: &KnobsPlan, m: usize, k: usize, n: usize) -> (r: Job)
    ensures
        r == knobs_real(*p, m, k, n),
{
    Job::Real(
        RealJob {
            ty: TypeTag::F32,
            m,
            k,
            n,
            la: p.la,
            lb: p.lb,
            lc: LayoutPlan::RowIsh { il: 1, pad: 1 },
            alpha_i: p.alpha_i,
            beta_i: p.beta_i,
            nan_c: false,
            par: p.par,
            ws_reuse: false,
            a_seed: p.seed ^ 0x11,
            b_seed: p.seed ^ 0x22,
            c_seed: p.seed ^ 0x33,
        },
    )
}

fn packed_run(
    ty: TypeTag,
    m: usize,
    k: usize,
    n: usize,
    la: LayoutPlan,
    lb: LayoutPlan,
    alpha_i: usize,
    beta_i: usize,
    par: Parallelism,
    seed: u64,
) -> (r: PackedJob)
    ensures
        r == packed_job(ty, m, k, n, la, lb, alpha_i, beta_i, par, seed),
{
    PackedJob {
        ty,
        m,
        k,
        n,
        la,
        lb,
        alpha_i,
        beta_i,
        par,
        a_seed: seed ^ 0x11,
        b_seed: seed ^ 0x22,
        c_seed: seed ^ 0x33,
    }
}

/// The knobs and the run of a plan; see [`knobs_tuning`] and [`knobs_job`].
pub fn run_knobs(p: &KnobsPlan) -> (r: (Tuning, Job))
    requires
        p.valid(),
    ensures
        r == (knobs_tuning(p.values@), knobs_job(*p)),
{
    let tuning: Tuning = set_knobs(&p.values);
    let job: Job = match p.scenario {
        Scenario::PlainF32 => real_run(p, p.m, p.k, p.n),
        Scenario::Gemv => real_run(p, p.m, p.k, 1),
        Scenario::SmallMn => real_run(p, min_usize(p.m, 8), max_usize(p.k, 32), min_usize(p.n, 8)),
        Scenario::PrepackB => Job::PackedB(
            packed_run(
                TypeTag::F32,
                p.m,
                p.k,
                p.n,
                p.la,
                p.lb,
                p.alpha_i,
                p.beta_i,
                p.par,
                p.seed,
            ),
        ),
        Scenario::PrepackA => Job::PackedA(
            packed_run(
                TypeTag::F32,
                p.m,
                p.k,
                p.n,
                p.la,
                p.lb,
                p.alpha_i,
                p.beta_i,
                p.par,
                p.seed,
            ),
        ),
        Scenario::I8 => Job::I8(
            I8Job {
                m: p.m,
                k: p.k,
                n: p.n,
                la: p.la,
                lb: p.lb,
                lc: LayoutPlan::RowIsh { il: 1, pad: 1 },
                alpha: i8_ab(p.alpha_i),
                beta: i8_ab(p.beta_i),
                par: p.par,
                a_seed: p.seed ^ 0x11,
                b_seed: p.seed ^ 0x22,
                c_seed: p.seed ^ 0x33,
            },
        ),
        Scenario::Batched => Job::Batched(
            BatchedJob {
                ty: TypeTag::F32,
                batch: 3,
                m: p.m,
                k: p.k,
                n: p.n,
                la: p.la,
                lb: p.lb,
                lc: LayoutPlan::RowIsh { il: 1, pad: 1 },
                a_broadcast: false,
                b_broadcast: false,
                a_bs_pad: 0,
                b_bs_pad: 0,
                c_bs_pad: 0,
                alpha_i: p.alpha_i,
                beta_i: p.beta_i,
                par: p.par,
                seed: p.seed,
            },
        ),
    };
    (tuning, job)
}

/// The run of a batch plan: every field is handed on.
pub fn run_batched(p: &BatchedPlan) -> (r: BatchedJob)
    requires
        p.valid(),
    ensures
        r == (BatchedJob {
            ty: if p.ty64 {
                TypeTag::F64
            } else {
                TypeTag::F32
            },
            batch: p.batch,
            m: p.m,
            k: p.k,
            n: p.n,
            la: p.la,
            lb: p.lb,
            lc: p.lc,
            a_broadcast: p.a_broadcast,
            b_broadcast: p.b_broadcast,
            a_bs_pad: p.a_bs_pad,
            b_bs_pad: p.b_bs_pad,
            c_bs_pad: p.c_bs_pad,
            alpha_i: p.alpha_i,
            beta_i: p.beta_i,
            par: p.par,
            seed: p.seed,
        }),
{
    BatchedJob {
        ty: if p.ty64 {
            TypeTag::F64
        } else {
            TypeTag::F32
        },
        batch: p.batch,
        m: p.m,
        k: p.k,
        n: p.n,
        la: p.la,
        lb: p.lb,
        lc: p.lc,
        a_broadcast: p.a_broadcast,
        b_broadcast: p.b_broadcast,
        a_bs_pad: p.a_bs_pad,
        b_bs_pad: p.b_bs_pad,
        c_bs_pad: p.c_bs_pad,
        alpha_i: p.alpha_i,
        beta_i: p.beta_i,
        par: p.par,
        seed: p.seed,
    }
}

/// The run of a prepack plan, which is made once with `B` and once with `A` prepacked. A type
/// that is neither of the two wide ones stands for the narrow one.
pub fn run_prepack(p: &PrepackPlan) -> (r: PackedJob)
    requires
        p.valid(),
    ensures
        r == packed_job(
            if p.ty == TypeTag::F32 || p.ty == TypeTag::F64 {
                p.ty
            } else {
                TypeTag::Bf16
            },
            p.m,
            p.k,
            p.n,
            p.la,
            p.lb,
            p.alpha_i,
            p.beta_i,
            p.par,
            p.seed,
        ),
{
    let ty: TypeTag = match p.ty {
        TypeTag::F32 => TypeTag::F32,
        TypeTag::F64 => TypeTag::F64,
        _ => TypeTag::Bf16,
    };
    packed_run(ty, p.m, p.k, p.n, p.la, p.lb, p.alpha_i, p.beta_i, p.par, p.seed)
}

impl I8Job {
    /// Whether the operands can be made up: see [`problem_fits`].
    pub fn can_run(&self) -> (r: bool)
        ensures
            r == problem_fits(
                self.m as int,
                self.k as int,
                self.n as int,
                self.la,
                self.lb,
                self.lc,
            ),
    {
        can_fit(self.m, self.k, self.n, self.la, self.lb, self.lc)
    }

    /// Run the integer driver, which never reports a difference.
    pub fn run(&self, ctx: &Context) -> (r: Result<(), Report>)
        requires
            ctx.kernels.valid(),
            problem_fits(
                self.m as int,
                self.k as int,
                self.n as int,
                self.la,
                self.lb,
                self.lc,
            ),
        ensures
            r == Ok::<(), Report>(()) || r == Err::<(), Report>(
                Report::Refused(GemmError::TooLarge),
            ),
            forall|o: Operands<'_, i8>|
                has_shape(o, self.m, self.k, self.n, self.la, self.lb, self.lc) ==> (r is Ok
                    <==> #[trigger] int_runs(*ctx, self.par, o, self.alpha)),
    {
        differential_gemm_i8(
            ctx,
            self.m,
            self.k,
            self.n,
            self.la,
            self.lb,
            self.lc,
            self.alpha,
            self.beta,
            self.par,
            self.a_seed,
            self.b_seed,
            self.c_seed,
        )
    }
}

} // verus!
