//! What is chosen for a product: its kernel, its route, its workers and what it packs.

use vstd::arithmetic::div_mod::*;
use vstd::arithmetic::mul::*;
use vstd::prelude::*;

use crate::arith::{abs_int, div_up, lemma_div_up, max_int, min_int, round_up, saturate};
use crate::cache::{last_level, or_auto, Machine, Shape};
use crate::complex::{ComplexGemm, ComplexScalar, GaussI32};
use crate::dispatch::{deep_engages, route_spec, Operands, Route, Routes};
use crate::driver::request_spec;
use crate::element::{GemmScalar, Plain, Twin};
use crate::fused::{epi_routes, fused_runs, Activation, Bias, FusedScalar};
use crate::gemm_i8::{int_routes, picked};
use crate::homog::{plain_routes, route_kc};
use crate::isa::{
    dispatched, int_dispatched, kernels_spec, scalar_kernels, select_spec, tile4, tile8, tile_c32,
    tile_c64, Cpu, Dispatched, ForcedIsa, Isa, IsaError, Kernels,
};
use crate::integer::{int_depth_spec, IntGemm};
use crate::kernel::KernelFamily;
use crate::laws::{law_ordinary_gemm_runs, ordinary_size, ordinary_tile};
use crate::layout::Layout;
use crate::limits::{law_blocks_are_whole_tiles, ordinary_cache, wide};
use crate::parallel::{detected_context, Context, Parallelism, Target};
use crate::plan::{Request, PAR_JOBS_PER_WORKER};
use crate::prepack::{prepack_shape, rhs_geometry};
use crate::scalar::Scalar;
use crate::tuning::{default_tuning, knob, target_tuning, Tuning, KNOB_MAX};

verus! {

/// What a processor has to report for a kernel, and on which target the kernel exists.
pub open spec fn runs_on(isa: Isa, cpu: Cpu, f16c: bool) -> bool {
    match isa {
        Isa::Scalar => true,
        Isa::Fma => cpu.target == Target::X86 && cpu.avx2 && cpu.fma && (cpu.f16c || !f16c),
        Isa::Avx512F => cpu.target == Target::X86 && cpu.avx512f,
        Isa::Avx512Vnni => cpu.target == Target::X86 && cpu.avx512f && cpu.avx512bw
            && cpu.avx512vnni,
        Isa::Avx512Bf16 => cpu.target == Target::X86 && cpu.avx512f && cpu.avx512bf16,
        Isa::Neon => cpu.target == Target::Aarch64,
        Isa::Simd128 => cpu.target == Target::Wasm32 { simd128: true },
    }
}

/// How good a kernel is: a dot kernel before AVX-512F, that before FMA, that before the vectors
/// that a target always has, and those before scalar code.
pub open spec fn rank(isa: Isa) -> int {
    match isa {
        Isa::Scalar => 0,
        Isa::Neon | Isa::Simd128 => 1,
        Isa::Fma => 2,
        Isa::Avx512F => 3,
        Isa::Avx512Vnni | Isa::Avx512Bf16 => 4,
    }
}

/// Without a pin the best of the kernels that can run is chosen. A dot kernel is open to the type
/// that has it alone.
pub proof fn law_the_best_kernel_is_chosen(cpu: Cpu, f16c: bool, dot: Option<Isa>, other: Isa)
    requires
        dot matches Some(d) ==> d == Isa::Avx512Vnni || d == Isa::Avx512Bf16,
    ensures
        select_spec(ForcedIsa::Auto, cpu, f16c, dot) matches Ok(isa) && {
            &&& runs_on(isa, cpu, f16c)
            &&& rank(isa) == 4 ==> dot == Some(isa)
            &&& runs_on(other, cpu, f16c) && (rank(other) < 4 || dot == Some(other)) ==> rank(other)
                <= rank(isa)
        },
{
}

/// A pin is answered with the kernel that it names, or refused: because its target is another one,
/// or else because the processor does not report it. Of the pins of the dot kernels, a type
/// without that kernel takes AVX-512F.
pub proof fn law_pins_are_exact(forced: ForcedIsa, cpu: Cpu, f16c: bool, dot: Option<Isa>)
    requires
        forced != ForcedIsa::Auto,
        dot matches Some(d) ==> d == Isa::Avx512Vnni || d == Isa::Avx512Bf16,
    ensures
        ({
            let r = select_spec(forced, cpu, f16c, dot);
            let x86 = cpu.target == Target::X86;
            &&& r matches Ok(isa) ==> runs_on(isa, cpu, f16c) && match isa {
                Isa::Scalar => forced == ForcedIsa::Scalar,
                Isa::Fma => forced == ForcedIsa::Fma,
                Isa::Avx512F => forced == ForcedIsa::Avx512F || (forced == ForcedIsa::Avx512Vnni
                    && dot != Some(Isa::Avx512Vnni)) || (forced == ForcedIsa::Avx512Bf16 && dot
                    != Some(Isa::Avx512Bf16)),
                Isa::Avx512Vnni => forced == ForcedIsa::Avx512Vnni && dot == Some(isa),
                Isa::Avx512Bf16 => forced == ForcedIsa::Avx512Bf16 && dot == Some(isa),
                Isa::Neon => forced == ForcedIsa::Neon,
                Isa::Simd128 => forced == ForcedIsa::Simd128,
            }
            &&& r matches Err(IsaError::WrongTarget(f)) ==> f == forced && match forced {
                ForcedIsa::Neon => cpu.target != Target::Aarch64,
                ForcedIsa::Simd128 => cpu.target != Target::Wasm32 { simd128: true },
                ForcedIsa::Scalar => false,
                _ => !x86,
            }
            &&& r matches Err(IsaError::NotReported(f)) ==> f == forced && x86 && match forced {
                ForcedIsa::Fma => !(cpu.avx2 && cpu.fma && (f16c ==> cpu.f16c)),
                ForcedIsa::Avx512F => !cpu.avx512f,
                ForcedIsa::Avx512Vnni => if dot == Some(Isa::Avx512Vnni) {
                    !(cpu.avx512f && cpu.avx512bw && cpu.avx512vnni)
                } else {
                    !cpu.avx512f
                },
                ForcedIsa::Avx512Bf16 => if dot == Some(Isa::Avx512Bf16) {
                    !(cpu.avx512f && cpu.avx512bf16)
                } else {
                    !cpu.avx512f
                },
                _ => false,
            }
            &&& r != Err::<Isa, IsaError>(IsaError::UnknownValue)
        }),
{
}

/// The microtiles in vector registers. A column of a tile fills whole registers, the accumulators
/// leave room for the operands, and an element of twice the size halves the rows and keeps the
/// columns. A complex tile has two accumulators in the place of one.
pub proof fn law_tiles_fill_registers(isa: Isa)
    requires
        isa != Isa::Scalar,
    ensures
        ({
            // Bytes of a register, registers, registers of a column and accumulators.
            let (bytes, regs, column, acc, complex_column, complex_acc) = match isa {
                Isa::Fma => (32int, 16int, 2int, 12int, 1int, 10int),
                Isa::Neon => (16, 32, 4, 16, 2, 20),
                Isa::Simd128 => (16, 16, 2, 8, 1, 8),
                _ => (64, 32, 2, 24, 2, 24),
            };
            &&& tile4(isa).mr * 4 == column * bytes
            &&& column * tile4(isa).nr == acc
            &&& tile_c32(isa).mr * 4 == complex_column * bytes
            &&& 2 * complex_column * tile_c32(isa).nr == complex_acc
            &&& acc + column < regs
            &&& complex_acc + 2 * complex_column < regs
            &&& 2 * tile8(isa).mr == tile4(isa).mr && tile8(isa).nr == tile4(isa).nr
            &&& 2 * tile_c64(isa).mr == tile_c32(isa).mr && tile_c64(isa).nr == tile_c32(isa).nr
        }),
{
}

/// A tile names its kernel. The panels of a dot kernel hold as many depths together as make up
/// four bytes, and those of the others one. Scalar code has one square tile for all types.
pub proof fn law_tiles_name_their_kernel(isa: Isa)
    ensures
        tile4(isa).isa == isa && tile8(isa).isa == isa && tile_c32(isa).isa == isa && tile_c64(
            isa,
        ).isa == isa,
        tile4(isa).depth_multiple == (match isa {
            Isa::Avx512Vnni => 4usize,
            Isa::Avx512Bf16 => 2,
            _ => 1,
        }),
        isa == Isa::Scalar ==> tile4(isa) == tile8(isa) && tile4(isa) == tile_c32(isa) && tile4(isa)
            == tile_c64(isa) && tile4(isa).mr == 4 && tile4(isa).nr == 4,
        isa != Isa::Avx512Vnni && isa != Isa::Avx512Bf16 ==> tile8(isa).depth_multiple == 1
            && tile_c32(isa).depth_multiple == 1 && tile_c64(isa).depth_multiple == 1,
        forall|forced: ForcedIsa|
            {
                let d = #[trigger] int_dispatched(forced, isa);
                &&& d.isa == isa && d.mr == tile4(isa).mr && d.nr == tile4(isa).nr
                &&& d.depth_multiple == tile4(isa).depth_multiple
                &&& d.small_par_fallback is Some <==> forced == ForcedIsa::Auto && isa
                    == Isa::Avx512Vnni
                &&& d.small_par_fallback matches Some(f) ==> f == Isa::Avx512F
            },
{
}

/// The kernels of a context: those that each type would be given alone. They are refused together,
/// for the first type that is. Without a pin they never are, and where nothing is reported on an
/// unknown target they are scalar code.
pub proof fn law_kernels_of_a_context(forced: ForcedIsa, cpu: Cpu)
    ensures
        ({
            let plain = select_spec(forced, cpu, false, None);
            let half = select_spec(forced, cpu, true, None);
            let brain = select_spec(forced, cpu, false, Some(Isa::Avx512Bf16));
            let byte = select_spec(forced, cpu, false, Some(Isa::Avx512Vnni));
            let r = kernels_spec(forced, cpu);
            &&& r is Ok <==> plain is Ok && half is Ok && brain is Ok && byte is Ok
            &&& r matches Ok(k) ==> {
                &&& plain == Ok::<Isa, IsaError>(k.single.isa)
                &&& k.double.isa == k.single.isa
                &&& k.complex_single.isa == k.single.isa
                &&& k.complex_double.isa == k.single.isa
                &&& half == Ok::<Isa, IsaError>(k.half.isa)
                &&& brain == Ok::<Isa, IsaError>(k.brain.isa)
                &&& byte == Ok::<Isa, IsaError>(k.byte.isa)
                &&& k.single == tile4(k.single.isa) && k.double == tile8(k.double.isa)
                &&& k.half == tile4(k.half.isa) && k.brain == tile4(k.brain.isa)
                &&& k.complex_single == tile_c32(k.single.isa)
                &&& k.complex_double == tile_c64(k.single.isa)
                &&& k.byte == int_dispatched(forced, k.byte.isa)
            }
            &&& plain is Err ==> r is Err && r->Err_0 == plain->Err_0
            &&& plain is Ok && half is Err ==> r is Err && r->Err_0 == half->Err_0
            &&& plain is Ok && half is Ok && brain is Err ==> r is Err && r->Err_0 == brain->Err_0
        }),
        kernels_spec(ForcedIsa::Auto, cpu) is Ok,
        kernels_spec(ForcedIsa::Scalar, cpu) matches Ok(k) && k == scalar_kernels(),
        cpu.target == Target::Other ==> (kernels_spec(ForcedIsa::Auto, cpu) matches Ok(k) && k
            == scalar_kernels()),
{
}

/// The workers of a call: one for a serial call and for work below the threshold; otherwise as
/// many as were asked for, or are there where none were named, but no more than there are jobs and
/// at least one.
pub proof fn law_workers(
    want: usize,
    tun: Tuning,
    workers: usize,
    mnk: int,
    n_jobs: int,
    fewer: int,
)
    requires
        0 <= fewer <= n_jobs,
    ensures
        Parallelism::Serial.resolved(tun, workers, mnk, n_jobs) == 1,
        mnk < tun.parallel_threshold ==> Parallelism::Rayon(want).resolved(
            tun,
            workers,
            mnk,
            n_jobs,
        ) == 1,
        ({
            let limit = if want > 0 {
                want
            } else {
                workers
            };
            let r = Parallelism::Rayon(want).resolved(tun, workers, mnk, n_jobs);
            &&& r >= 1
            &&& r > 1 ==> r <= limit && r <= n_jobs
            &&& mnk >= tun.parallel_threshold && limit <= n_jobs && limit > 0 ==> r == limit
            &&& mnk >= tun.parallel_threshold && 0 < n_jobs <= limit ==> r == n_jobs
            &&& Parallelism::Rayon(want).resolved(tun, workers, mnk, fewer) <= r
        }),
{
}

/// The stand-in of an integer kernel takes over small work of several workers, and nothing else.
pub proof fn law_stand_in<F>(tun: Tuning, n: usize, mnk: int, run: F, stand_in: F)
    ensures
        picked(tun, Parallelism::Serial, mnk, run, Some(stand_in)) == run,
        picked(tun, Parallelism::Rayon(1), mnk, run, Some(stand_in)) == run,
        picked(tun, Parallelism::Rayon(n), mnk, run, None) == run,
        mnk >= tun.i8_vnni_min_par_mnk ==> picked(
            tun,
            Parallelism::Rayon(n),
            mnk,
            run,
            Some(stand_in),
        ) == run,
        mnk < tun.i8_vnni_min_par_mnk && n != 1 ==> picked(
            tun,
            Parallelism::Rayon(n),
            mnk,
            run,
            Some(stand_in),
        ) == stand_in,
{
}

/// The route of a product and that of its transpose are the same, where the strides of C tell the
/// two apart.
pub proof fn law_transposed_route<'a, T>(ctx: Context, routes: Routes, o: Operands<'a, T>)
    requires
        abs_int(o.lc.rs as int) != abs_int(o.lc.cs as int),
    ensures
        route_spec(ctx, routes, o.transposed()) == route_spec(ctx, routes, o),
{
    let t = o.transposed();
    assert(t.transposed() == o);
    assert(t.oriented() == o.oriented());
}

/// What each route is for. A vector takes the route of its own, where the type has one and the
/// knob lets it. A small output over a long depth is computed dot by dot; a shallow depth in one
/// slice; a panel that outgrows its bound in the deep way, where the type has it; and everything
/// else by the driver. `along` says that both operands are contiguous along the depth, as the
/// product is run.
pub proof fn law_routes<'a, T>(ctx: Context, routes: Routes, o: Operands<'a, T>, along: bool)
    requires
        along == (if abs_int(o.lc.cs as int) < abs_int(o.lc.rs as int) {
            o.lb.rs == 1 && o.la.cs == 1
        } else {
            o.la.cs == 1 && o.lb.rs == 1
        }),
    ensures
        ({
            let r = route_spec(ctx, routes, o);
            let tun = ctx.tuning;
            let vector = routes.gemv && (o.m == 1 || o.n == 1) && (o.m <= tun.gemv_threshold || o.n
                <= tun.gemv_threshold);
            let small = o.m <= tun.small_mn_dim && o.n <= tun.small_mn_dim && (if along {
                o.k > tun.small_k_threshold
            } else {
                o.k > tun.small_mn_pack_min_k
            });
            &&& r == Route::Gemv <==> vector
            &&& r == Route::SmallMn <==> !vector && small
            &&& r == Route::SmallK <==> !vector && !small && o.k <= tun.small_k_threshold
            &&& r == Route::DeepK ==> o.k > tun.small_k_threshold && routes.deep is Some
            &&& r == Route::Driver ==> o.k > tun.small_k_threshold
            &&& routes.deep is None ==> r != Route::DeepK
            &&& routes.deep matches Some((nr, size)) ==> (!vector && !small && o.k
                > tun.small_k_threshold ==> (r == Route::DeepK <==> deep_engages(
                ctx,
                nr as int,
                o.k as int,
                size as int,
            )))
        }),
{
}

/// The bound of the deep route: the panel of the whole depth has more bytes than the knob says, or
/// than half of a worker's second level where it says nothing. A deeper product stays past the
/// bound while its panel can be counted.
pub proof fn law_deep_bound(ctx: Context, nr: int, k: int, size: int, deeper: int)
    requires
        0 <= nr,
        0 <= size,
        0 <= k <= deeper,
        nr * deeper * size <= usize::MAX,
    ensures
        deep_engages(ctx, nr, k, size) ==> deep_engages(ctx, nr, deeper, size),
        ctx.tuning.deep_kc_bytes > 0 ==> (deep_engages(ctx, nr, deeper, size) <==> nr * deeper
            * size > ctx.tuning.deep_kc_bytes),
        ctx.tuning.deep_kc_bytes == 0 ==> (deep_engages(ctx, nr, deeper, size) <==> nr * deeper
            * size > 1 && 2 * (nr * deeper * size) >= 2 * (ctx.machine.cache.l2.effective() / 2)
            + 2),
{
    assert(nr * k * size <= nr * deeper * size) by (nonlinear_arith)
        requires
            0 <= nr,
            0 <= size,
            0 <= k <= deeper,
    ;
}

/// A product of three numbers saturates once.
proof fn lemma_saturated_product(a: int, b: int, c: int)
    requires
        a >= 0,
        b >= 0,
        c >= 0,
    ensures
        c > 0 ==> saturate(saturate(a * b) * c) == min_int(a * b * c, usize::MAX as int),
        c == 0 ==> saturate(saturate(a * b) * c) == 0,
        a * b >= 0,
        a * b * c >= 0,
{
    let p = a * b;
    assert(p >= 0) by (nonlinear_arith)
        requires
            p == a * b,
            a >= 0,
            b >= 0,
    ;
    lemma_mul_basics(p);
    lemma_mul_basics(saturate(p));
    assert(p * c >= 0) by (nonlinear_arith)
        requires
            p >= 0,
            c >= 0,
    ;
    if c > 0 && p > usize::MAX {
        assert(p * c >= p) by (nonlinear_arith)
            requires
                p >= 0,
                c > 0,
        ;
        assert(usize::MAX * c >= usize::MAX) by (nonlinear_arith)
            requires
                c > 0,
        ;
    }
}

/// The work of a product and the bytes that it touches, held at the range of a word.
pub proof fn law_work_and_bytes(r: Request)
    requires
        r.valid(),
        r.lhs_bytes > 0,
        r.rhs_bytes > 0,
        r.out_bytes > 0,
    ensures
        r.mnk() == min_int(r.m * r.n * r.k, usize::MAX as int),
        r.working_set() == min_int(
            r.m * r.k * r.lhs_bytes + r.k * r.n * r.rhs_bytes + r.m * r.n * r.out_bytes,
            usize::MAX as int,
        ),
{
    lemma_saturated_product(r.m as int, r.n as int, r.k as int);
    lemma_saturated_product(r.m as int, r.k as int, r.lhs_bytes as int);
    lemma_saturated_product(r.k as int, r.n as int, r.rhs_bytes as int);
    lemma_saturated_product(r.m as int, r.n as int, r.out_bytes as int);
}

/// The depth of a slice: that of a prepacked operand; the whole depth, where the output cannot
/// hold a partial sum; otherwise the least multiple that the panels take of the model's depth. The
/// columns of a block are whole panels.
pub proof fn law_slices_and_blocks(r: Request, ctx: Context, par: Parallelism)
    requires
        r.valid(),
    ensures
        r.packed matches Some((kc, nc)) && kc > 0 ==> r.kc(ctx) == (r.packed->0).0,
        r.packed is None && !r.out_is_acc ==> r.kc(ctx) == r.k,
        r.packed is None && r.out_is_acc && r.blocks(ctx).1 > 0 ==> r.kc(ctx) % (
        r.depth_multiple as int) == 0 && r.blocks(ctx).1 <= r.kc(ctx) < r.blocks(ctx).1
            + r.depth_multiple,
        r.nc(ctx) % (r.nr as int) == 0,
        r.nc(ctx) >= r.nr,
        r.mc(ctx, par) % (r.mr as int) == 0,
        r.mc(ctx, par) >= r.mr,
        r.mc(ctx, par) <= r.mc_model(ctx),
        r.threads(ctx, par) == 1 ==> r.mc(ctx, par) == r.mc_model(ctx),
{
    let (mr, nr, q) = (r.mr as int, r.nr as int, r.depth_multiple as int);
    lemma_blocks_of(r.blocks(ctx).0, mr);
    lemma_blocks_of(r.blocks(ctx).2, nr);
    lemma_blocks_of(r.blocks(ctx).1, q);
    if let Some((_, pnc)) = r.packed {
        lemma_blocks_of(pnc as int, nr);
    }
    let threads = r.threads(ctx, par);
    let blocks = min_int(
        div_up(
            saturate(threads * PAR_JOBS_PER_WORKER),
            r.tiles(ctx),
        ),
        div_up(r.m as int, mr),
    );
    lemma_blocks_of(div_up(r.m as int, blocks), mr);
}

proof fn lemma_blocks_of(a: int, b: int)
    requires
        b > 0,
    ensures
        max_int(round_up(a, b), b) % b == 0,
        max_int(round_up(a, b), b) >= b,
        a > 0 ==> a <= round_up(a, b) < a + b,
        a > 0 ==> round_up(a, b) % b == 0,
{
    if a > 0 {
        lemma_div_up(a, b);
    }
    lemma_mod_multiples_basic(div_up(a, b), b);
    lemma_mod_self_0(b);
}

/// What is packed. A type that asks for it has its operands packed always, and an operand that is
/// packed already is not packed again; otherwise the right operand is packed for more rows than
/// its knob, and the left one where more columns reuse a panel than its knob, or where the walk
/// along its depth is hostile. Output tiles are prefetched where the product is larger than the
/// knob, or than the last cache where the knob says nothing.
pub proof fn law_packing(r: Request, ctx: Context, par: Parallelism)
    requires
        r.valid(),
    ensures
        r.packed is Some ==> !r.pack_b(ctx),
        r.packed is None && r.force_pack_rhs ==> r.pack_b(ctx),
        r.packed is None && !r.force_pack_rhs ==> (r.pack_b(ctx) <==> r.m
            > ctx.tuning.rhs_pack_threshold),
        r.force_pack_lhs ==> r.want_pack_lhs(ctx, par),
        r.reuse_cols(ctx, par) > ctx.tuning.lhs_pack_threshold ==> r.want_pack_lhs(ctx, par),
        r.want_pack_lhs(ctx, par) && !r.force_pack_lhs && r.reuse_cols(ctx, par)
            <= ctx.tuning.lhs_pack_threshold ==> r.rsa == 1 && r.tiles(ctx)
            >= ctx.tuning.lhs_pack_reuse && abs_int(r.csa as int) * r.lhs_bytes >= min_int(
            or_auto(ctx.tuning.lhs_pack_stride, ctx.machine.page_size as int / 2),
            usize::MAX as int,
        ),
        !r.need_a_pack(ctx, par) <==> r.rsa == 1 && r.m % r.mr == 0 && !r.want_pack_lhs(ctx, par),
        r.shared_a(ctx, par) ==> r.threads(ctx, par) > 1 && r.need_a_pack(ctx, par),
        r.threads(ctx, par) > 1 && (r.rsa != 1 || r.want_pack_lhs(ctx, par)) && (r.mnk()
            >= ctx.tuning.shared_lhs_mnk || r.threads(ctx, par) >= 16) ==> r.shared_a(ctx, par),
        r.shared_a(ctx, par) ==> r.mnk() >= ctx.tuning.shared_lhs_mnk || r.threads(ctx, par) >= 16,
        ctx.tuning.prefetch_min_bytes > 0 ==> (r.prefetch_c(ctx) <==> r.working_set()
            > ctx.tuning.prefetch_min_bytes),
        ctx.tuning.prefetch_min_bytes == 0 ==> (r.prefetch_c(ctx) <==> r.working_set() > last_level(
            ctx.machine.cache,
        )),
{
}

/// The last cache of a worker: its share of the third level where there is one, and of the second
/// where there is none, at least one byte.
pub proof fn law_last_level(ctx: Context)
    ensures
        ctx.machine.cache.l3 matches Some(l) && l.effective() > 0 ==> last_level(ctx.machine.cache)
            == (ctx.machine.cache.l3->0).effective(),
        ctx.machine.cache.l3 is None && ctx.machine.cache.l2.effective() > 0 ==> last_level(
            ctx.machine.cache,
        ) == ctx.machine.cache.l2.effective(),
        last_level(ctx.machine.cache) >= 1,
{
}

/// A knob holds what it is set to, up to its bound; setting it to what it holds changes nothing,
/// and a larger value is never held as a smaller one. The targets differ in one knob alone.
pub proof fn law_knobs(v: usize, w: usize, target: Target)
    ensures
        v <= KNOB_MAX ==> knob(v) == v,
        knob(knob(v)) == knob(v),
        v <= w ==> knob(v) <= knob(w),
        knob(v) <= KNOB_MAX,
        target != Target::Aarch64 ==> target_tuning(target) == default_tuning(),
        (Tuning { kc_sizeof_div_cap: 0, ..target_tuning(target) }) == (Tuning {
            kc_sizeof_div_cap: 0,
            ..default_tuning()
        }),
{
}

/// The routes of the types: every plain product may take the vector route, and one of a narrow
/// type the deep route, with the panel width of its kernel and the size of its elements. Before an
/// epilogue a narrow type has neither, and a wide one has the vector route. Bytes have neither.
pub proof fn law_routes_of_types<T: GemmScalar>(ctx: Context)
    ensures
        plain_routes::<T>(ctx).gemv,
        T::out_is_acc_spec() ==> plain_routes::<T>(ctx).deep is None && epi_routes::<T>().gemv,
        !T::out_is_acc_spec() ==> !epi_routes::<T>().gemv && (plain_routes::<T>(ctx).deep
            matches Some((nr, size)) && nr == T::rhs_tile_spec(ctx.kernels).1 && size
            == vstd::layout::size_of::<T>() as usize),
        epi_routes::<T>().deep is None,
        !int_routes().gemv && int_routes().deep is None,
{
}

/// The depth of a slice. Only the driver splits the depth, and only of a type that can store a
/// partial sum: there it takes the least multiple of the depth multiple that holds the model's
/// depth for the shape at hand.
pub proof fn law_slice_depths<'a, T: GemmScalar>(ctx: Context, route: Route, o: Operands<'a, T>)
    requires
        ctx.kernels.valid(),
        o.m > 0,
        o.k > 0,
        o.n > 0,
        ordinary_tile(T::rhs_tile_spec(ctx.kernels)),
        vstd::layout::size_of::<T>() as usize > 0,
    ensures
        route != Route::Driver ==> route_kc(ctx, route, o) == o.k,
        !T::out_is_acc_spec() ==> route_kc(ctx, route, o) == o.k,
        T::out_is_acc_spec() && route == Route::Driver ==> {
            let (mr, nr) = T::rhs_tile_spec(ctx.kernels);
            let q = T::rhs_depth_multiple_spec(ctx.kernels) as int;
            let s = Shape {
                mr: mr as int,
                nr: nr as int,
                sizeof: vstd::layout::size_of::<T>() as usize as int,
                m: o.m as int,
                n: o.n as int,
                k: o.k as int,
            };
            let kc = ctx.machine.cache.blocking_spec(ctx.tuning, s).1;
            &&& 1 <= kc <= route_kc(ctx, route, o) < kc + q
            &&& route_kc(ctx, route, o) % q == 0
        },
{
    let (mr, nr) = T::rhs_tile_spec(ctx.kernels);
    let q = T::rhs_depth_multiple_spec(ctx.kernels);
    T::depth_multiple_is_sound(ctx.kernels);
    let r = request_spec::<Plain<T>>(mr, nr, q, o.m, o.k, o.n, o.la, None);
    law_blocks_are_whole_tiles(ctx.machine.cache, ctx.tuning, r.shape());
    lemma_blocks_of(r.blocks(ctx).1, q as int);
}

/// What the decisions about a product are made from: its shape, the strides of its left operand,
/// its tile and the sizes of its elements. Panels that hold several depths together are packed.
pub proof fn law_requests<F: KernelFamily>(
    mr: usize,
    nr: usize,
    q: usize,
    m: usize,
    k: usize,
    n: usize,
    la: Layout,
    packed: Option<(usize, usize)>,
)
    ensures
        ({
            let r = request_spec::<F>(mr, nr, q, m, k, n, la, packed);
            &&& r.mr == mr && r.nr == nr && r.depth_multiple == q
            &&& r.m == m && r.k == k && r.n == n
            &&& r.rsa == la.rs && r.csa == la.cs
            &&& r.packed == packed
            &&& r.lhs_bytes == vstd::layout::size_of::<F::Lhs>() as usize
            &&& r.rhs_bytes == vstd::layout::size_of::<F::Rhs>() as usize
            &&& r.out_bytes == vstd::layout::size_of::<F::Out>() as usize
            &&& r.out_is_acc == F::out_is_acc_spec()
            &&& q > 1 ==> r.force_pack_lhs && r.force_pack_rhs
            &&& q <= 1 ==> r.force_pack_lhs == F::force_pack_lhs_spec() && r.force_pack_rhs
                == F::force_pack_rhs_spec()
        }),
{
}

/// A detected context holds the machine, the kernels and the workers that were found, and the knobs
/// of the target. It is refused with the kernels, and for nothing else.
pub proof fn law_detected_context(
    machine: Machine,
    forced: ForcedIsa,
    cpu: Cpu,
    workers: usize,
)
    ensures
        detected_context(machine, forced, cpu, workers) is Ok <==> kernels_spec(forced, cpu) is Ok,
        detected_context(machine, forced, cpu, workers) matches Ok(c) ==> {
            &&& c.machine == machine
            &&& c.workers == workers
            &&& c.tuning == target_tuning(cpu.target)
            &&& kernels_spec(forced, cpu) == Ok::<Kernels, IsaError>(c.kernels)
        },
        detected_context(machine, forced, cpu, workers) matches Err(e) ==> kernels_spec(forced, cpu)
            == Err::<Kernels, IsaError>(e),
{
}

/// A fused product of an ordinary size is never refused as too large on an ordinary machine,
/// whatever its bias and its activation are.
pub proof fn law_ordinary_fused_runs<'a, T: FusedScalar>(
    ctx: Context,
    par: Parallelism,
    o: Operands<'a, T>,
    alpha: T,
    bias: Option<Bias<'a, T>>,
    act: Option<Activation<T>>,
)
    requires
        wide(),
        ordinary_cache(ctx.machine.cache),
        ctx.kernels.valid(),
        ordinary_tile(T::rhs_tile_spec(ctx.kernels)),
        ordinary_size(o),
        vstd::layout::size_of::<T>() as usize <= 256,
    ensures
        fused_runs(ctx, par, o, alpha, bias, act),
{
    law_ordinary_gemm_runs(ctx, par, o, alpha);
}

/// The walk along the depth of a left operand that is laid out by columns is hostile where one
/// step, the whole walk over a slice and the tiles that repeat it all reach their knobs.
pub proof fn law_hostile_walk(r: Request, ctx: Context)
    requires
        r.valid(),
        ctx.tuning.lhs_pack_stride > 0,
        ctx.tuning.lhs_pack_span > 0,
        abs_int(r.csa as int) * r.lhs_bytes * min_int(r.kc(ctx), r.k as int) <= usize::MAX,
    ensures
        r.strided_lhs(ctx) <==> {
            let step = abs_int(r.csa as int) * r.lhs_bytes;
            &&& r.rsa == 1
            &&& step >= ctx.tuning.lhs_pack_stride
            &&& step * min_int(r.kc(ctx), r.k as int) >= ctx.tuning.lhs_pack_span
            &&& r.tiles(ctx) >= ctx.tuning.lhs_pack_reuse
        },
        forall|par: Parallelism|
            r.strided_lhs(ctx) ==> #[trigger] r.want_pack_lhs(ctx, par),
{
    let step = abs_int(r.csa as int) * r.lhs_bytes;
    let d = min_int(r.kc(ctx), r.k as int);
    assert(0 <= step) by (nonlinear_arith)
        requires
            step == abs_int(r.csa as int) * r.lhs_bytes,
            abs_int(r.csa as int) >= 0,
            r.lhs_bytes >= 0,
    ;
    assert(step <= step * d) by (nonlinear_arith)
        requires
            0 <= step,
            d >= 1,
    ;
}

/// A knob of zero leaves the choice to the model, and any other one is taken as it is.
pub proof fn law_automatic_knobs(knob: usize, auto: int)
    ensures
        or_auto(0, auto) == auto,
        knob > 0 ==> or_auto(knob, auto) == knob,
{
}

/// A type that is given a kernel is given its tile, and one that is refused is refused with the
/// error of the choice.
pub proof fn law_dispatching(isa: Isa, e: IsaError, geometry: spec_fn(Isa) -> Dispatched)
    ensures
        dispatched(Ok(isa), geometry) matches Ok(d) && d == geometry(isa),
        dispatched(Err(e), geometry) matches Err(f) && f == e,
{
}

/// The integer kernels take as many depths at a time as their panels hold together.
pub proof fn law_integer_depths()
    ensures
        int_depth_spec(true) == tile4(Isa::Avx512Vnni).depth_multiple,
        int_depth_spec(false) == tile4(Isa::Avx512F).depth_multiple,
        int_depth_spec(true) == 4 && int_depth_spec(false) == 1,
{
}

/// The geometry of a packed operand: its own shape, the width and the depth multiple of the
/// kernel's panels, and column blocks of whole panels. The depth of a narrow type is not split, and
/// that of another one is split as the model splits it for more rows than a small matrix has.
pub proof fn law_packed_geometry<T: GemmScalar>(ctx: Context, k: usize, n: usize)
    requires
        ctx.kernels.valid(),
        wide(),
        ordinary_cache(ctx.machine.cache),
        ordinary_tile(T::rhs_tile_spec(ctx.kernels)),
        1 <= vstd::layout::size_of::<T>() as usize <= 256,
        1 <= k <= 0x100_0000,
        1 <= n <= 0x100_0000,
        ctx.tuning.tiny_block_dim <= KNOB_MAX,
    ensures
        ({
            let g = rhs_geometry::<T>(ctx, k, n);
            let (mr, nr) = T::rhs_tile_spec(ctx.kernels);
            let s = Shape {
                mr: mr as int,
                nr: nr as int,
                sizeof: vstd::layout::size_of::<T>() as usize as int,
                m: ctx.tuning.tiny_block_dim + 1,
                n: n as int,
                k: k as int,
            };
            let (_, kc, nc) = ctx.machine.cache.blocking_spec(ctx.tuning, s);
            &&& g.k == k && g.n == n
            &&& g.nr == nr && g.q == T::rhs_depth_multiple_spec(ctx.kernels)
            &&& !T::out_is_acc_spec() ==> g.kc == k
            &&& T::out_is_acc_spec() ==> g.kc == kc
            &&& g.nc % nr == 0 && nc <= g.nc < nc + nr
        }),
{
    let (mr, nr) = T::rhs_tile_spec(ctx.kernels);
    let sizeof = vstd::layout::size_of::<T>() as usize as int;
    T::depth_multiple_is_sound(ctx.kernels);
    let s = prepack_shape(ctx, mr, nr, sizeof, k, n);
    let nc = ctx.machine.cache.blocking_spec(ctx.tuning, s).2;
    law_blocks_are_whole_tiles(ctx.machine.cache, ctx.tuning, s);
    lemma_div_up(n as int, nr as int);
    lemma_blocks_of(nc, nr as int);
}

/// The jobs of a product: one for each row block and column tile of a column block. The tiles make
/// up the columns of a block, and the row blocks reach over all rows with none to spare. A product
/// runs on one worker where it is serial or small, and on no more workers than it has jobs.
pub proof fn law_jobs_of_a_product(r: Request, ctx: Context, par: Parallelism)
    requires
        r.valid(),
    ensures
        r.tiles(ctx) * r.nr == r.nc(ctx),
        r.tiles(ctx) >= 1,
        ({
            let (mc, blocks) = (r.mc_model(ctx), div_up(r.m as int, r.mc_model(ctx)));
            &&& r.jobs_model(ctx) == blocks * r.tiles(ctx)
            &&& blocks * mc >= r.m && (blocks - 1) * mc < r.m
        }),
        r.threads(ctx, Parallelism::Serial) == 1,
        r.mnk() < ctx.tuning.parallel_threshold ==> r.threads(ctx, par) == 1,
        r.threads(ctx, par) >= 1,
        r.threads(ctx, par) > 1 ==> r.threads(ctx, par) <= r.jobs_model(ctx),
        forall|n: usize|
            n > 1 && r.mnk() >= ctx.tuning.parallel_threshold && r.jobs_model(ctx) >= n
                ==> #[trigger] r.threads(ctx, Parallelism::Rayon(n)) == n,
        r.mnk() >= ctx.tuning.parallel_threshold && 1 < ctx.workers <= r.jobs_model(ctx)
            ==> r.threads(ctx, Parallelism::Rayon(0)) == ctx.workers,
        r.depth_multiple as int <= r.kc_pad(ctx) && r.kc(ctx) <= r.kc_pad(ctx) < r.kc(ctx)
            + r.depth_multiple,
        r.kc_pad(ctx) % (r.depth_multiple as int) == 0,
{
    let (mr, nr, q) = (r.mr as int, r.nr as int, r.depth_multiple as int);
    lemma_blocks_of(r.blocks(ctx).0, mr);
    lemma_blocks_of(r.blocks(ctx).2, nr);
    if let Some((_, pnc)) = r.packed {
        lemma_blocks_of(pnc as int, nr);
    }
    let nc = r.nc(ctx);
    lemma_div_up(nc, nr);
    lemma_fundamental_div_mod(nc, nr);
    let tiles = r.tiles(ctx);
    assert(nr * (nc / nr) == (nc / nr) * nr) by (nonlinear_arith);
    lemma_div_up(r.m as int, r.mc_model(ctx));
    lemma_div_up(r.kc(ctx), q);
    let d = div_up(r.kc(ctx), q);
    assert(d * q >= q) by (nonlinear_arith)
        requires
            d >= 1,
            q > 0,
    ;
}

/// What the kernel families ask for. Dot panels and complex operands are always packed, and the
/// others are packed where it pays. A family accumulates as its element type does; the complex one
/// conjugates an operand whose flag is set. Panels are padded with zeros. The twin of a narrow type
/// stores accumulators, and resumes from what it has stored.
pub proof fn law_families<T: GemmScalar, U: ComplexScalar>(
    acc: T::Acc,
    l: T,
    r: T,
    z: U,
    x: U,
    y: U,
)
    ensures
        !Plain::<T>::force_pack_lhs_spec() && !Plain::<T>::force_pack_rhs_spec(),
        !Twin::<T>::force_pack_lhs_spec() && !Twin::<T>::force_pack_rhs_spec(),
        IntGemm::<true>::force_pack_lhs_spec() && IntGemm::<true>::force_pack_rhs_spec(),
        !IntGemm::<false>::force_pack_lhs_spec() && !IntGemm::<false>::force_pack_rhs_spec(),
        ComplexGemm::<U, true, true>::force_pack_lhs_spec(),
        ComplexGemm::<U, true, true>::force_pack_rhs_spec(),
        Plain::<T>::madd_spec(acc, l, r) == T::madd_spec(acc, l, r),
        Twin::<T>::madd_spec(acc, l, r) == T::madd_spec(acc, l, r),
        ComplexGemm::<U, false, false>::madd_spec(z, x, y) == U::cmadd_spec(z, x, y),
        ComplexGemm::<U, true, false>::madd_spec(z, x, y) == U::cmadd_spec(z, x.conj_spec(), y),
        ComplexGemm::<U, false, true>::madd_spec(z, x, y) == U::cmadd_spec(z, x, y.conj_spec()),
        ComplexGemm::<U, true, true>::madd_spec(z, x, y) == U::cmadd_spec(
            z,
            x.conj_spec(),
            y.conj_spec(),
        ),
        Plain::<T>::lhs_pad_spec() == T::zero_spec() && Plain::<T>::rhs_pad_spec()
            == T::zero_spec(),
        Twin::<T>::lhs_pad_spec() == T::zero_spec() && Twin::<T>::rhs_pad_spec() == T::zero_spec(),
        ComplexGemm::<U, true, true>::lhs_pad_spec() == U::zero_spec(),
        ComplexGemm::<U, true, true>::rhs_pad_spec() == U::zero_spec(),
        Plain::<T>::out_is_acc_spec() == T::out_is_acc_spec() && Twin::<T>::out_is_acc_spec(),
        Twin::<T>::narrow_spec(acc) == acc && Twin::<T>::widen_spec(acc) == acc,
        Plain::<T>::narrow_spec(acc) == T::narrow_spec(acc) && Plain::<T>::widen_spec(l)
            == l.widen_spec(),
        ComplexGemm::<U, true, true>::narrow_spec(z) == z,
        ComplexGemm::<U, true, true>::widen_spec(z) == z,
{
}

/// The tiles that the types of words run with: those of 4-byte reals, and of complex numbers with
/// 4-byte parts.
pub proof fn law_tiles_of_words(k: Kernels)
    ensures
        i32::rhs_tile_spec(k) == (k.single.mr, k.single.nr),
        i32::rhs_depth_multiple_spec(k) == 1,
        GaussI32::cplx_tile_spec(k) == (k.complex_single.mr, k.complex_single.nr),
{
}

} // verus!
