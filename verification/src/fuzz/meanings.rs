//! What made-up problems and their references are, in plain numbers and places.

use vstd::arithmetic::mul::*;
use vstd::prelude::*;

use crate::api::gemm_views_error;
use crate::arith::saturate;
use crate::batched::shifted;
use crate::dispatch::Operands;
use crate::error::GemmError;
use crate::fuzz::api_validation::{
    heavy_pack, verdict_of, DimClass, EntryKind, StrideClass, ValidationPlan, Verdict, WORK_CAP,
};
use crate::fuzz::common::{
    ab_spec, byte_of, drawn, gap_written, step_spec, steps, LayoutPlan, Rng, Source, SENTINEL,
};
use crate::fuzz::differential::{has_shape, problem_fits};
use crate::fuzz::exact_drivers::{
    batch_covers, batch_fits, batch_gap_written, batch_len, batch_step, plan_extent, shaped,
};
use crate::fuzz::plans::{
    gemm_job, knobs_job, knobs_tuning, packed_job, GemmPlan, Job, KnobsPlan, Scenario, TypeTag,
};
use crate::fuzz::reference::{agrees, dense_sum, pos, Widen};
use crate::layout::Layout;
use crate::parallel::Parallelism;
use crate::sums::adds_up;
use crate::tuning::{default_tuning, KNOB_MAX};

verus! {

/// The scales: zero, one and its negative, two and its negative, and three.
pub proof fn law_scales(i: usize, j: usize)
    requires
        i < 6,
        j < 6,
    ensures
        i != j ==> ab_spec(i) != ab_spec(j),
        ab_spec(0) == 0,
        ab_spec(1) == 1,
        ab_spec(2) == -ab_spec(1),
        ab_spec(3) == ab_spec(1) + ab_spec(1),
        ab_spec(4) == ab_spec(3) + ab_spec(1),
        ab_spec(5) == -ab_spec(3),
{
}

/// The generator is linear over exclusive or, keeps zero, and spreads a small state by three
/// shifts.
pub proof fn law_generator(s: u64, t: u64)
    ensures
        step_spec(s ^ t) == step_spec(s) ^ step_spec(t),
        step_spec(0) == 0,
        step_spec(s) == 0 ==> s == 0,
        s < 16 ==> step_spec(s) == s * (1 + 0x40 + 0x2000) * (1 + 0x2_0000),
{
    let a = s ^ (s << 13);
    let b = a ^ (a >> 7);
    assert(({
        let u = s ^ t;
        let x = u ^ (u << 13);
        let y = x ^ (x >> 7);
        y ^ (y << 17)
    }) == ({
        let x = s ^ (s << 13);
        let y = x ^ (x >> 7);
        y ^ (y << 17)
    }) ^ ({
        let x = t ^ (t << 13);
        let y = x ^ (x >> 7);
        y ^ (y << 17)
    })) by (bit_vector);
    assert(({
        let x = s ^ (s << 13);
        let y = x ^ (x >> 7);
        y ^ (y << 17)
    }) == 0 ==> s == 0) by (bit_vector);
    assert(({
        let x = 0u64 ^ (0u64 << 13);
        let y = x ^ (x >> 7);
        y ^ (y << 17)
    }) == 0) by (bit_vector);
    assert(s < 16 ==> ({
        let x = s ^ (s << 13);
        let y = x ^ (x >> 7);
        y ^ (y << 17)
    }) == s * 8257u64 * 131073u64) by (bit_vector);
    assert(s < 16 ==> s * 8257 * 131073 < 0x1_0000_0000_0000_0000) by (nonlinear_arith);
}

/// What is drawn is the same number of either width, and the next draw starts one step on.
pub proof fn law_draws(r: Rng, q: Rng, n: nat)
    requires
        q.state == step_spec(r.state),
    ensures
        <Rng as Source<i32>>::nth(&r, n) == <Rng as Source<i8>>::nth(&r, n),
        <Rng as Source<i8>>::nth(&q, n) == <Rng as Source<i8>>::nth(&r, n + 1),
        -128 <= <Rng as Source<i32>>::nth(&r, n) <= 127,
{
}

/// A layout by columns is one by rows of the transposed shape. In a layout by rows, neighbours in
/// a row are `il` apart, and the next row begins `il` and the pad behind the end of a row. The rows
/// of a broadcast lie on one another.
pub proof fn law_layout_plans(il: usize, pad: usize, rows: int, cols: int)
    ensures
        ({
            let (rs, cs) = (LayoutPlan::RowIsh { il, pad }).strides_spec(rows, cols);
            let (crs, ccs) = (LayoutPlan::ColIsh { il, pad }).strides_spec(cols, rows);
            &&& crs == cs && ccs == rs
            &&& cs == il
            &&& rs == (cols - 1) * cs + il + pad
        }),
        LayoutPlan::BroadcastRow.strides_spec(rows, cols) == (0int, 1int),
        (LayoutPlan::RowIsh { il, pad }).spreads() <==> il > 0,
        (LayoutPlan::ColIsh { il, pad }).spreads() <==> il > 0,
        !LayoutPlan::BroadcastRow.spreads(),
{
    let i = il as int;
    assert(cols * i + pad == (cols - 1) * i + i + pad) by (nonlinear_arith);
}

/// A layout fits exactly when its strides and its dimensions can be counted, and so can the place
/// of its last element.
pub proof fn law_layouts_that_fit(lp: LayoutPlan, rows: int, cols: int)
    requires
        rows > 0,
        cols > 0,
    ensures
        lp.fits(rows, cols) <==> ({
            let (rs, cs) = lp.strides_spec(rows, cols);
            rs <= isize::MAX && cs <= isize::MAX && rows <= isize::MAX && cols <= isize::MAX && (
            rows - 1) * rs + (cols - 1) * cs < isize::MAX
        }),
        plan_extent(lp, rows, cols) == ({
            let (rs, cs) = lp.strides_spec(rows, cols);
            (rows - 1) * rs + (cols - 1) * cs + 1
        }),
        plan_extent(lp, 0, cols) == 0,
        plan_extent(lp, rows, 0) == 0,
{
}

/// The sum of the reference is the running sum of the products of row `i` and column `j`.
pub proof fn law_reference_sum(
    da: Seq<i32>,
    db: Seq<i32>,
    i: int,
    j: int,
    k: int,
    n: int,
    s: Seq<int>,
    hi: int,
)
    requires
        0 <= hi <= k,
        adds_up(s, 0, |acc: int, p: int| acc + da[i * k + p] * db[p * n + j], k),
    ensures
        dense_sum(da, db, i, j, k, n, hi) == s[hi],
    decreases hi,
{
    if hi > 0 {
        law_reference_sum(da, db, i, j, k, n, s, hi - 1);
        assert(s[(hi - 1) + 1] == s[hi - 1] + da[i * k + (hi - 1)] * db[(hi - 1) * n + j]);
    }
}

/// A result is held against the reference place by place, and a gap counts as written where it is
/// no element's place and does not hold the sentinel.
pub proof fn law_what_is_compared(
    c: Seq<i32>,
    l: Layout,
    cref: Seq<i32>,
    rows: int,
    cols: int,
    i: int,
    j: int,
    x: int,
)
    requires
        0 <= i < rows,
        0 <= j < cols,
    ensures
        agrees(c, l.rs, l.cs, cref, cols, i, j) <==> c[i * l.rs + j * l.cs] == cref[i * cols + j],
        x == l.off + i * l.rs + j * l.cs ==> !gap_written(c, l, rows, cols, x),
        gap_written(c, l, rows, cols, x) ==> 0 <= x < c.len() && c[x] != SENTINEL,
        (0 <= x < c.len() && c[x] != SENTINEL && forall|r: int, s: int|
            0 <= r < rows && 0 <= s < cols ==> l.off + #[trigger] (r * l.rs) + #[trigger] (s * l.cs)
                != x) ==> gap_written(c, l, rows, cols, x),
{
    reveal(Layout::idx);
    assert(l.idx(i, j) == l.off + i * l.rs + j * l.cs);
    if l.covers(rows, cols, x) {
        let (r, s) = choose|r: int, s: int|
            0 <= r < rows && 0 <= s < cols && #[trigger] l.idx(r, s) == x;
        assert(l.off + r * l.rs + s * l.cs == x);
    }
}

/// The operands of a batch: a shared one lies where it lies, and the others follow one another
/// with a pad between them. The length of a batch ends with its last element.
pub proof fn law_made_up_batches(batch: int, extent: int, pad: int)
    requires
        batch >= 1,
        extent >= 0,
    ensures
        batch_step(true, extent, pad) == 0,
        batch_step(false, extent, pad) == extent + pad,
        batch_len(1, extent + pad, extent) == extent,
        batch_len(batch, 0, extent) == extent,
        batch_len(batch + 1, extent + pad, extent) == batch_len(batch, extent + pad, extent) + pad
            + extent,
{
    let step = extent + pad;
    assert(batch * step == (batch - 1) * step + step) by (nonlinear_arith);
    lemma_mul_basics(step);
    lemma_mul_basics(batch - 1);
}

/// The classes of dimensions lie around the powers of two at which a word ends.
pub proof fn law_dimension_classes(s: usize)
    ensures
        DimClass::Zero.value() == 0,
        DimClass::One.value() == 1,
        DimClass::Small(s).value() == s,
        DimClass::P31.value() == 0x8000_0000,
        DimClass::P32p1.value() == 2 * DimClass::P31.value() + 1,
        DimClass::P33.value() == 4 * DimClass::P31.value(),
        DimClass::Max.value() == usize::MAX,
        2 * DimClass::HalfMax.value() + 1 == DimClass::Max.value(),
{
}

/// The classes of strides come in pairs of either sign.
pub proof fn law_stride_classes(s: isize)
    ensures
        StrideClass::Zero.value() == 0,
        StrideClass::P1.value() == 1,
        StrideClass::N1.value() == -StrideClass::P1.value(),
        StrideClass::PSmall(s).value() == s,
        StrideClass::NSmall(s).value() == -StrideClass::PSmall(s).value(),
        StrideClass::P31.value() == 0x8000_0000,
        StrideClass::N31.value() == -StrideClass::P31.value(),
        StrideClass::P33.value() == 4 * StrideClass::P31.value(),
        StrideClass::N33.value() == -StrideClass::P33.value(),
        StrideClass::IMax.value() == isize::MAX,
        StrideClass::IMin.value() == -StrideClass::IMax.value() - 1,
        StrideClass::NSmall(s).valid() <==> StrideClass::NSmall(s).value() <= isize::MAX,
{
}

/// What a plan costs: the products of its shape, times the batch; or the elements to be packed,
/// unless they are more than a word can count.
pub proof fn law_costs(p: ValidationPlan)
    requires
        p.valid(),
    ensures
        ({
            let (m, k, n) = (p.m.value(), p.k.value(), p.n.value());
            let (batch, cap) = (p.batch.value(), 16777216int);
            match p.entry {
                EntryKind::Gemm | EntryKind::GemmI8 | EntryKind::GemmCplx => p.expensive()
                    <==> m * n * k > cap,
                EntryKind::Batched => p.expensive() <==> batch > cap || batch * (m * n * k) > cap,
                EntryKind::PrepackB => p.expensive() <==> cap < n * k <= usize::MAX,
                EntryKind::PrepackA => p.expensive() <==> cap < m * k <= usize::MAX,
            }
        }),
{
    let (m, k, n) = (p.m.value(), p.k.value(), p.n.value());
    let batch = p.batch.value();
    lemma_cost(m, n, k);
    lemma_heavy(n, k);
    lemma_heavy(m, k);
    let (mnk, sat) = (m * n * k, saturate(saturate(m * n) * k));
    lemma_mul_basics(mnk);
    lemma_mul_basics(sat);
    if batch > 0 {
        if mnk > WORK_CAP {
            assert(batch * mnk >= mnk && batch * sat >= sat) by (nonlinear_arith)
                requires
                    batch > 0,
                    mnk > 0,
                    sat > 0,
            ;
        }
    }
}

proof fn lemma_cost(m: int, n: int, k: int)
    requires
        m >= 0,
        n >= 0,
        k >= 0,
    ensures
        m * n * k >= 0,
        saturate(saturate(m * n) * k) > WORK_CAP <==> m * n * k > WORK_CAP,
        m * n * k <= WORK_CAP ==> saturate(saturate(m * n) * k) == m * n * k,
{
    let p = m * n;
    lemma_nonnegative(m, n);
    lemma_nonnegative(p, k);
    lemma_mul_basics(p);
    lemma_mul_basics(saturate(p));
    if k > 0 && p > usize::MAX {
        assert(p * k >= p) by (nonlinear_arith)
            requires
                p >= 0,
                k > 0,
        ;
        assert(usize::MAX * k >= usize::MAX) by (nonlinear_arith)
            requires
                k > 0,
        ;
    }
}

proof fn lemma_nonnegative(a: int, b: int)
    requires
        a >= 0,
        b >= 0,
    ensures
        a * b >= 0,
{
    assert(a * b >= 0) by (nonlinear_arith)
        requires
            a >= 0,
            b >= 0,
    ;
}

proof fn lemma_heavy(x: int, k: int)
    requires
        x >= 0,
        k >= 0,
    ensures
        heavy_pack(x, k) <==> WORK_CAP < x * k <= usize::MAX,
{
    lemma_mul_basics(x);
    lemma_mul_basics(k);
    if x > 0 && k > 0 {
        assert(x * k >= x && x * k >= k) by (nonlinear_arith)
            requires
                x > 0,
                k > 0,
        ;
    }
}

/// A plan is refused as its entry would refuse its views; a batch of nothing is not.
pub proof fn law_plan_refusals(p: ValidationPlan)
    ensures
        p.entry == EntryKind::Batched && p.batch.value() == 0 ==> p.refusal() is None,
        p.entry == EntryKind::PrepackB ==> (p.refusal() is None <==> p.geometry_b().in_bounds()),
        p.entry == EntryKind::PrepackA ==> (p.refusal() is None <==> p.geometry_a().in_bounds()),
        p.entry == EntryKind::Gemm || p.entry == EntryKind::GemmI8 || p.entry == EntryKind::GemmCplx
            ==> p.refusal() == gemm_views_error(
            p.geometry_a(),
            p.geometry_b(),
            p.geometry_c(),
        ),
        verdict_of(Ok(())) == Verdict::Ran,
        forall|e: GemmError| #[trigger] verdict_of(Err(e)) == Verdict::Refused(e),
{
}

/// A state gives its fourth byte, read as a signed number.
#[verifier::truncate]
pub proof fn law_drawn_bytes(s: u64)
    ensures
        (byte_of(s) - s as int / 0x100_0000) % 0x100 == 0,
{
    let u = (s >> 24) as u8;
    assert(u as u64 == (s / 0x100_0000) % 0x100) by (bit_vector)
        requires
            u == (s >> 24) as u8,
    ;
    assert(u < 128 ==> u as i8 == u) by (bit_vector);
    assert(u >= 128 ==> u as i8 + 256 == u) by (bit_vector);
}

/// The type of a plan decides who runs it: bytes, complex numbers and reals have drivers of their
/// own, and each is handed the shape, the layouts, the parallelism and the seeds of the plan.
pub proof fn law_plain_plans(p: GemmPlan)
    ensures
        p.ty == TypeTag::I8 <==> gemm_job(p) is I8,
        p.ty == TypeTag::C32 || p.ty == TypeTag::C64 <==> gemm_job(p) is Cplx,
        p.ty == TypeTag::F32 || p.ty == TypeTag::F64 || p.ty == TypeTag::F16 || p.ty
            == TypeTag::Bf16 <==> gemm_job(p) is Real,
        gemm_job(p) matches Job::I8(j) ==> {
            &&& j.m == p.m && j.k == p.k && j.n == p.n
            &&& j.la == p.la && j.lb == p.lb && j.lc == p.lc
            &&& p.valid() ==> j.alpha == ab_spec(p.alpha_i) && j.beta == ab_spec(p.beta_i)
            &&& j.par == p.par
            &&& j.a_seed == p.a_seed && j.b_seed == p.b_seed && j.c_seed == p.c_seed
        },
        gemm_job(p) matches Job::Real(j) ==> {
            &&& j.ty == p.ty && j.m == p.m && j.k == p.k && j.n == p.n
            &&& j.la == p.la && j.lb == p.lb && j.lc == p.lc
            &&& j.alpha_i == p.alpha_i && j.beta_i == p.beta_i
            &&& j.nan_c == p.nan_c && j.ws_reuse == p.ws_reuse && j.par == p.par
            &&& j.a_seed == p.a_seed && j.b_seed == p.b_seed && j.c_seed == p.c_seed
        },
        gemm_job(p) matches Job::Cplx(j) ==> {
            &&& j.ty == p.ty && j.m == p.m && j.k == p.k && j.n == p.n
            &&& j.la == p.la && j.lb == p.lb && j.lc == p.lc
            &&& j.alpha_i == p.alpha_i && j.beta_i == p.beta_i
            &&& j.alpha_im_i == p.alpha_im_i && j.beta_im_i == p.beta_im_i
            &&& j.conj_a == p.conj_a && j.conj_b == p.conj_b
            &&& j.nan_c == p.nan_c && j.par == p.par
            &&& j.a_seed == p.a_seed && j.b_seed == p.b_seed && j.c_seed == p.c_seed
        },
{
}

/// The scenarios of the knobs. The plain one keeps the shape, a vector product has one column, and
/// a small product is cut to eight rows and columns and stretched to a depth of thirty-two; what
/// fits these already is kept. A batch has three dense elements. The seeds of the operands differ.
pub proof fn law_scenarios(p: KnobsPlan)
    ensures
        ({
            let (job, small) = (knobs_job(p), p.scenario == Scenario::SmallMn);
            &&& job is Real <==> p.scenario == Scenario::PlainF32 || p.scenario == Scenario::Gemv
                || small
            &&& job is PackedB <==> p.scenario == Scenario::PrepackB
            &&& job is PackedA <==> p.scenario == Scenario::PrepackA
            &&& job is I8 <==> p.scenario == Scenario::I8
            &&& job is Batched <==> p.scenario == Scenario::Batched
            &&& job matches Job::Real(j) ==> {
                &&& p.scenario == Scenario::PlainF32 ==> j.m == p.m && j.k == p.k && j.n == p.n
                &&& p.scenario == Scenario::Gemv ==> j.m == p.m && j.k == p.k && j.n == 1
                &&& small ==> j.m <= 8 && j.n <= 8 && j.k >= 32
                &&& small && p.m <= 8 ==> j.m == p.m
                &&& small && p.m > 8 ==> j.m == 8
                &&& small && p.n <= 8 ==> j.n == p.n
                &&& small && p.n > 8 ==> j.n == 8
                &&& small && p.k >= 32 ==> j.k == p.k
                &&& small && p.k < 32 ==> j.k == 32
                &&& j.la == p.la && j.lb == p.lb && j.par == p.par
                &&& j.alpha_i == p.alpha_i && j.beta_i == p.beta_i
                &&& !j.nan_c && !j.ws_reuse
                &&& j.lc == LayoutPlan::RowIsh { il: 1, pad: 1 } && j.ty == TypeTag::F32
                &&& j.a_seed == p.seed ^ 17 && j.b_seed == p.seed ^ 34 && j.c_seed == p.seed ^ 51
            }
            &&& job matches Job::I8(j) ==> {
                &&& j.m == p.m && j.k == p.k && j.n == p.n
                &&& j.la == p.la && j.lb == p.lb && j.par == p.par
                &&& p.valid() ==> j.alpha == ab_spec(p.alpha_i) && j.beta == ab_spec(p.beta_i)
                &&& j.a_seed == p.seed ^ 17 && j.b_seed == p.seed ^ 34 && j.c_seed == p.seed ^ 51
            }
            &&& job matches Job::Batched(j) ==> {
                &&& j.batch == 3 && j.m == p.m && j.k == p.k && j.n == p.n
                &&& j.a_bs_pad == 0 && j.b_bs_pad == 0 && j.c_bs_pad == 0
                &&& !j.a_broadcast && !j.b_broadcast
                &&& j.la == p.la && j.lb == p.lb && j.par == p.par && j.seed == p.seed
                &&& j.alpha_i == p.alpha_i && j.beta_i == p.beta_i
            }
        }),
        p.seed ^ 17 != p.seed ^ 34 && p.seed ^ 34 != p.seed ^ 51 && p.seed ^ 17 != p.seed ^ 51,
{
    let s = p.seed;
    assert(s ^ 17 != s ^ 34 && s ^ 34 != s ^ 51 && s ^ 17 != s ^ 51) by (bit_vector);
}

/// A prepacked run keeps the shape, the layouts and the scales of its plan, on either side.
pub proof fn law_packed_runs(
    ty: TypeTag,
    m: usize,
    k: usize,
    n: usize,
    la: LayoutPlan,
    lb: LayoutPlan,
    alpha_i: usize,
    beta_i: usize,
    par: Parallelism,
    seed: u64,
    p: KnobsPlan,
)
    ensures
        ({
            let j = packed_job(ty, m, k, n, la, lb, alpha_i, beta_i, par, seed);
            &&& j.ty == ty && j.m == m && j.k == k && j.n == n
            &&& j.la == la && j.lb == lb && j.par == par
            &&& j.alpha_i == alpha_i && j.beta_i == beta_i
            &&& j.a_seed == seed ^ 17 && j.b_seed == seed ^ 34 && j.c_seed == seed ^ 51
        }),
        ({
            let j = packed_job(
                TypeTag::F32,
                p.m,
                p.k,
                p.n,
                p.la,
                p.lb,
                p.alpha_i,
                p.beta_i,
                p.par,
                p.seed,
            );
            &&& knobs_job(p) matches Job::PackedB(q) ==> q == j
            &&& knobs_job(p) matches Job::PackedA(q) ==> q == j
        }),
{
}

/// Each knob of a plan is set from its own value and from no other: what value `i` is changed to
/// shows in knob `i` alone.
pub proof fn law_knobs_are_separate(v: Seq<usize>, i: int, x: usize)
    requires
        v.len() == 27,
        0 <= i < 27,
        v[i] != x,
        v[i] <= KNOB_MAX,
        x <= KNOB_MAX,
    ensures
        ({
            let (a, b) = (knobs_tuning(v), knobs_tuning(v.update(i, x)));
            &&& (a.parallel_threshold != b.parallel_threshold) == (i == 0)
            &&& (a.rhs_pack_threshold != b.rhs_pack_threshold) == (i == 1)
            &&& (a.lhs_pack_threshold != b.lhs_pack_threshold) == (i == 2)
            &&& (a.lhs_pack_stride != b.lhs_pack_stride) == (i == 3)
            &&& (a.gemv_threshold != b.gemv_threshold) == (i == 4)
            &&& (a.small_k_threshold != b.small_k_threshold) == (i == 5)
            &&& (a.small_mn_dim != b.small_mn_dim) == (i == 6)
            &&& (a.gemv_parallel_bytes != b.gemv_parallel_bytes) == (i == 7)
            &&& (a.gemv_thread_cap != b.gemv_thread_cap) == (i == 8)
            &&& (a.parallel_oversample != b.parallel_oversample) == (i == 9)
            &&& (a.thread_dim_stride != b.thread_dim_stride) == (i == 10)
            &&& (a.shared_lhs_mnk != b.shared_lhs_mnk) == (i == 11)
            &&& (a.k_stream_max != b.k_stream_max) == (i == 12)
            &&& (a.seq_internal_bytes_per_worker != b.seq_internal_bytes_per_worker) == (i == 13)
            &&& (a.packed_oversample != b.packed_oversample) == (i == 14)
            &&& (a.mc_reg_panels != b.mc_reg_panels) == (i == 15)
            &&& (a.nc_no_l3_panels != b.nc_no_l3_panels) == (i == 16)
            &&& (a.tiny_block_dim != b.tiny_block_dim) == (i == 17)
            &&& (a.kc != b.kc) == (i == 18)
            &&& (a.kc_min != b.kc_min) == (i == 19)
            &&& (a.pack_transpose_tile != b.pack_transpose_tile) == (i == 20)
            &&& (a.deep_kc_bytes != b.deep_kc_bytes) == (i == 21)
            &&& (a.i8_vnni_min_par_mnk != b.i8_vnni_min_par_mnk) == (i == 22)
            &&& (a.lhs_pack_span != b.lhs_pack_span) == (i == 23)
            &&& (a.lhs_pack_reuse != b.lhs_pack_reuse) == (i == 24)
            &&& (a.small_mn_pack_min_k != b.small_mn_pack_min_k) == (i == 25)
            &&& (a.prefetch_min_bytes != b.prefetch_min_bytes) == (i == 26)
            &&& a.kc_sizeof_div_cap == default_tuning().kc_sizeof_div_cap
        }),
        v[0] <= KNOB_MAX ==> knobs_tuning(v).parallel_threshold == v[0],
{
}

/// A problem can be made up exactly when each of its views can, with no two elements of C in one
/// place, and its matrices have no more elements than can be counted.
pub proof fn law_problems(m: int, k: int, n: int, la: LayoutPlan, lb: LayoutPlan, lc: LayoutPlan)
    ensures
        problem_fits(m, k, n, la, lb, lc) ==> {
            &&& la.fits(m, k) && lb.fits(k, n) && lc.fits(m, n)
            &&& lc.spreads() && !(lc is BroadcastRow)
            &&& m * k <= usize::MAX && k * n <= usize::MAX && m * n <= usize::MAX
        },
        la.fits(m, k) && lb.fits(k, n) && lc.fits(m, n) && la.spreads() && lb.spreads()
            && lc.spreads() && m * k <= usize::MAX && k * n <= usize::MAX && m * n <= usize::MAX
            ==> problem_fits(m, k, n, la, lb, lc),
        problem_fits(m, k, n, la, lb, lc) && LayoutPlan::BroadcastRow.fits(m, k) ==> problem_fits(
            m,
            k,
            n,
            LayoutPlan::BroadcastRow,
            lb,
            lc,
        ),
{
}

/// What is drawn into an operand: the numbers of the source row by row. Every row of a broadcast
/// holds the last row drawn.
pub proof fn law_drawn_operands<T, S: Source<T>>(
    lp: LayoutPlan,
    src: S,
    rows: int,
    cols: int,
    i: int,
    j: int,
)
    requires
        0 <= i < rows,
        0 <= j < cols,
    ensures
        !(lp is BroadcastRow) ==> drawn::<T, S>(lp, src, rows, cols, i, j) == src.nth(
            (i * cols + j) as nat,
        ),
        lp is BroadcastRow ==> drawn::<T, S>(lp, src, rows, cols, i, j) == drawn::<T, S>(
            LayoutPlan::RowIsh { il: 1, pad: 0 },
            src,
            rows,
            cols,
            rows - 1,
            j,
        ),
{
}

/// The first draw is the byte of the next state, and each draw takes one step.
pub proof fn law_draws_in_order(r: Rng, n: nat)
    ensures
        <Rng as Source<i8>>::nth(&r, 0) == byte_of(step_spec(r.state)),
        <Rng as Source<i8>>::nth(&r, n + 1) == <Rng as Source<i8>>::nth(
            &Rng { state: step_spec(r.state) },
            n,
        ),
{
    reveal_with_fuel(steps, 3);
}

/// A dense matrix lies row after row, and its elements are those of the view.
pub proof fn law_dense_places(i: int, j: int, cols: int, x: i8, y: i32)
    ensures
        pos(i, 0, cols) == i * cols,
        pos(i, j + 1, cols) == pos(i, j, cols) + 1,
        pos(i + 1, j, cols) == pos(i, j, cols) + cols,
        x.widened() == x,
        y.widened() == y,
{
    assert((i + 1) * cols == i * cols + cols) by (nonlinear_arith);
}

/// A gap of a batch counts as written where it is no place of any element of any entry and does not
/// hold the sentinel.
pub proof fn law_gaps_of_a_batch(
    buf: Seq<i32>,
    l: Layout,
    step: int,
    batch: int,
    rows: int,
    cols: int,
    e: int,
    i: int,
    j: int,
    x: int,
)
    requires
        0 <= e < batch,
        0 <= i < rows,
        0 <= j < cols,
        forall|q: int| 0 <= q < batch ==> 0 <= l.off + #[trigger] (q * step) <= usize::MAX,
    ensures
        x == l.off + e * step + i * l.rs + j * l.cs ==> !batch_gap_written(
            buf,
            l,
            step,
            batch,
            rows,
            cols,
            x,
        ),
        batch_gap_written(buf, l, step, batch, rows, cols, x) ==> 0 <= x < buf.len() && buf[x]
            != SENTINEL,
        (0 <= x < buf.len() && buf[x] != SENTINEL && forall|q: int, r: int, s: int|
            0 <= q < batch && 0 <= r < rows && 0 <= s < cols ==> l.off + #[trigger] (q * step)
                + #[trigger] (r * l.rs) + #[trigger] (s * l.cs) != x) ==> batch_gap_written(
            buf,
            l,
            step,
            batch,
            rows,
            cols,
            x,
        ),
{
    reveal(Layout::idx);
    assert(0 <= l.off + e * step <= usize::MAX);
    assert(shifted(l, e, step).idx(i, j) == l.off + e * step + i * l.rs + j * l.cs);
    if batch_covers(l, step, batch, rows, cols, x) {
        let q = choose|q: int|
            0 <= q < batch && (#[trigger] shifted(l, q, step)).covers(rows, cols, x);
        let t = shifted(l, q, step);
        let (r, s) = choose|r: int, s: int|
            0 <= r < rows && 0 <= s < cols && #[trigger] t.idx(r, s) == x;
        assert(0 <= l.off + q * step <= usize::MAX);
        assert(l.off + q * step + r * l.rs + s * l.cs == x);
    }
}

/// A batch can be made up exactly when its products can, dense ones with a gapped output too where
/// there are any, and the last place of each operand can be counted.
pub proof fn law_batches_that_fit(
    batch: int,
    m: int,
    k: int,
    n: int,
    la: LayoutPlan,
    lb: LayoutPlan,
    lc: LayoutPlan,
    a_broadcast: bool,
    b_broadcast: bool,
    a_pad: int,
    b_pad: int,
    c_pad: int,
)
    requires
        batch > 1,
        a_pad >= 0,
        b_pad >= 0,
        c_pad >= 0,
    ensures
        batch_fits(batch, m, k, n, la, lb, lc, a_broadcast, b_broadcast, a_pad, b_pad, c_pad) <==> {
            let (ea, eb) = (plan_extent(la, m, k), plan_extent(lb, k, n));
            let ec = plan_extent(lc, m, n);
            let dense = LayoutPlan::RowIsh { il: 1, pad: 0 };
            &&& problem_fits(m, k, n, la, lb, lc)
            &&& problem_fits(m, k, n, dense, dense, (LayoutPlan::RowIsh { il: 1, pad: 1 }))
            &&& !a_broadcast ==> ea + a_pad <= isize::MAX && (batch - 1) * (ea + a_pad) + ea
                <= isize::MAX
            &&& a_broadcast ==> ea <= isize::MAX
            &&& !b_broadcast ==> eb + b_pad <= isize::MAX && (batch - 1) * (eb + b_pad) + eb
                <= isize::MAX
            &&& b_broadcast ==> eb <= isize::MAX
            &&& ec + c_pad <= isize::MAX && (batch - 1) * (ec + c_pad) + ec <= isize::MAX
        },
{
    lemma_mul_basics(batch - 1);
}

/// The operands of a made-up problem have its shape and the strides of their layouts.
pub proof fn law_made_up_shapes<'a, 'b>(
    o: Operands<'a, i32>,
    q: Operands<'b, i8>,
    m: usize,
    k: usize,
    n: usize,
    la: LayoutPlan,
    lb: LayoutPlan,
    lc: LayoutPlan,
)
    ensures
        shaped(o, m, k, n, la, lb, lc) <==> {
            &&& o.m == m && o.k == k && o.n == n
            &&& la.strides_spec(m as int, k as int) == (o.la.rs as int, o.la.cs as int)
            &&& lb.strides_spec(k as int, n as int) == (o.lb.rs as int, o.lb.cs as int)
            &&& lc.strides_spec(m as int, n as int) == (o.lc.rs as int, o.lc.cs as int)
        },
        o.m == q.m && o.k == q.k && o.n == q.n && o.la == q.la && o.lb == q.lb && o.lc == q.lc
            ==> shaped(o, m, k, n, la, lb, lc) == has_shape(q, m, k, n, la, lb, lc),
{
}

} // verus!
