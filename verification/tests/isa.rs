use gemmkit::cache::Machine;
use gemmkit::isa::{
    forced_isa, select_bf16, select_c64, select_f16, select_f32, select_f64, select_i8, Cpu,
    ForcedIsa, Isa, IsaError, Kernels,
};
use gemmkit::parallel::Target;
use gemmkit::probes::{Host, Readings};
use gemmkit::tuning::Tuning;
use gemmkit::{Context, Parallelism};

fn cpu(target: Target) -> Cpu {
    Cpu {
        target,
        avx2: false,
        fma: false,
        f16c: false,
        avx512f: false,
        avx512bw: false,
        avx512vnni: false,
        avx512bf16: false,
    }
}

#[test]
fn pins_are_read_without_regard_to_case_and_space() {
    assert_eq!(forced_isa(None), Ok(ForcedIsa::Auto));
    assert_eq!(forced_isa(Some("  ")), Ok(ForcedIsa::Auto));
    assert_eq!(forced_isa(Some(" AUTO\n")), Ok(ForcedIsa::Auto));
    assert_eq!(forced_isa(Some("Scalar")), Ok(ForcedIsa::Scalar));
    assert_eq!(forced_isa(Some("avx2")), Ok(ForcedIsa::Fma));
    assert_eq!(forced_isa(Some("FMA")), Ok(ForcedIsa::Fma));
    assert_eq!(forced_isa(Some("avx512f")), Ok(ForcedIsa::Avx512F));
    assert_eq!(forced_isa(Some("vnni")), Ok(ForcedIsa::Avx512Vnni));
    assert_eq!(forced_isa(Some("bf16")), Ok(ForcedIsa::Avx512Bf16));
    assert_eq!(forced_isa(Some("neon")), Ok(ForcedIsa::Neon));
    assert_eq!(forced_isa(Some("wasm")), Ok(ForcedIsa::Simd128));
    assert_eq!(forced_isa(Some("sse")), Err(IsaError::UnknownValue));
}

#[test]
fn the_best_kernel_that_is_reported_is_chosen() {
    let mut c = cpu(Target::X86);
    let f = |c: &Cpu| select_f32(ForcedIsa::Auto, c).unwrap();
    assert_eq!(f(&c).isa, Isa::Scalar);
    c.avx2 = true;
    assert_eq!(f(&c).isa, Isa::Scalar, "FMA needs both");
    c.fma = true;
    assert_eq!(f(&c).isa, Isa::Fma);
    assert_eq!((f(&c).mr, f(&c).nr), (16, 6));
    c.avx512f = true;
    assert_eq!((f(&c).isa, f(&c).mr, f(&c).nr), (Isa::Avx512F, 32, 12));
    assert_eq!(select_f64(ForcedIsa::Auto, &c).unwrap().mr, 16);
    assert_eq!(select_c64(ForcedIsa::Auto, &c).unwrap().nr, 6);
    assert_eq!(
        select_f32(ForcedIsa::Auto, &cpu(Target::Aarch64)).unwrap().isa,
        Isa::Neon
    );
    assert_eq!(
        select_f32(ForcedIsa::Auto, &cpu(Target::Wasm32 { simd128: true })).unwrap().isa,
        Isa::Simd128
    );
    assert_eq!(
        select_f32(ForcedIsa::Auto, &cpu(Target::Wasm32 { simd128: false })).unwrap().isa,
        Isa::Scalar
    );
}

#[test]
fn a_pin_is_honoured_or_refused() {
    let c = cpu(Target::X86);
    assert_eq!(
        select_f32(ForcedIsa::Avx512F, &c).err(),
        Some(IsaError::NotReported(ForcedIsa::Avx512F))
    );
    assert_eq!(
        select_f32(ForcedIsa::Neon, &c).err(),
        Some(IsaError::WrongTarget(ForcedIsa::Neon))
    );
    assert_eq!(
        select_f32(ForcedIsa::Fma, &cpu(Target::Aarch64)).err(),
        Some(IsaError::WrongTarget(ForcedIsa::Fma))
    );
    assert_eq!(select_f32(ForcedIsa::Scalar, &c).unwrap().isa, Isa::Scalar);
}

#[test]
fn integer_kernels_have_a_stand_in_only_when_chosen_freely() {
    let mut c = cpu(Target::X86);
    c.avx512f = true;
    c.avx512bw = true;
    c.avx512vnni = true;
    let auto = select_i8(ForcedIsa::Auto, &c).unwrap();
    assert_eq!(auto.isa, Isa::Avx512Vnni);
    assert_eq!(auto.depth_multiple, 4);
    assert_eq!(auto.small_par_fallback, Some(Isa::Avx512F));
    let pinned = select_i8(ForcedIsa::Avx512Vnni, &c).unwrap();
    assert_eq!(pinned.small_par_fallback, None);
    c.avx512bw = false;
    assert_eq!(select_i8(ForcedIsa::Auto, &c).unwrap().isa, Isa::Avx512F);
}

#[test]
fn half_kernels_need_their_conversions() {
    let mut c = cpu(Target::X86);
    c.avx2 = true;
    c.fma = true;
    assert_eq!(select_f16(ForcedIsa::Auto, &c).unwrap().isa, Isa::Scalar);
    c.f16c = true;
    assert_eq!(select_f16(ForcedIsa::Auto, &c).unwrap().isa, Isa::Fma);
    c.avx512f = true;
    c.avx512bf16 = true;
    c.avx512bw = true;
    assert_eq!(select_bf16(ForcedIsa::Auto, &c).unwrap().isa, Isa::Avx512Bf16);
}

#[test]
fn all_kernels_are_chosen_together() {
    let c = cpu(Target::Other);
    assert_eq!(Kernels::select(ForcedIsa::Auto, &c), Ok(Kernels::scalar()));
    assert_eq!(
        Kernels::select(ForcedIsa::Simd128, &c),
        Err(IsaError::WrongTarget(ForcedIsa::Simd128))
    );
}

#[test]
fn workers_are_bounded_by_jobs_and_by_the_threshold() {
    let tun = gemmkit::tuning::Tuning::new();
    let big = 1usize << 30;
    assert_eq!(Parallelism::Serial.resolve(&tun, 8, big, 100), 1);
    assert_eq!(Parallelism::Rayon(0).resolve(&tun, 8, big, 100), 8);
    assert_eq!(Parallelism::Rayon(3).resolve(&tun, 8, big, 100), 3);
    assert_eq!(Parallelism::Rayon(9).resolve(&tun, 8, big, 2), 2);
    assert_eq!(Parallelism::Rayon(9).resolve(&tun, 8, 10, 100), 1);
}

#[test]
fn a_context_is_made_of_what_was_detected() {
    let mut r = Readings::none();
    r.page_size = 65536;
    let host = Host::detect(&r);
    let mut c = cpu(Target::X86);
    c.avx512f = true;
    c.avx512bf16 = true;
    let ctx = Context::detect(&host, ForcedIsa::Auto, &c, 6).unwrap();
    assert_eq!(ctx.machine, *Machine::current(&host));
    assert_eq!(ctx.machine.page_size, 65536);
    assert_eq!(ctx.kernels, Kernels::select(ForcedIsa::Auto, &c).unwrap());
    assert_eq!((ctx.kernels.brain.isa, ctx.workers), (Isa::Avx512Bf16, 6));
    assert_eq!(ctx.tuning, Tuning::new());
    let arm = Context::detect(&host, ForcedIsa::Auto, &cpu(Target::Aarch64), 1).unwrap();
    assert_eq!(arm.tuning, Tuning::for_target(Target::Aarch64));
    assert_eq!(
        Context::detect(&host, ForcedIsa::Neon, &c, 1),
        Err(IsaError::WrongTarget(ForcedIsa::Neon))
    );
    // A machine from which nothing was read, with nothing but scalar code, is the default.
    let nothing = Host::detect(&Readings::none());
    let plain = Context::detect(&nothing, ForcedIsa::Auto, &cpu(Target::Other), 1);
    assert_eq!(plain, Ok(Context::new()));
}
