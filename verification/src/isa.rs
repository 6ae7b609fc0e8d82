//! Which kernel runs: the pin that a user may set, what the processor reports, and the ladder
//! that each element type climbs down.

use vstd::prelude::*;

use crate::parallel::Target;
use crate::text::{eq_ignore_ascii_case, same_word, trim, trimmed};

verus! {

/// An explicitly requested kernel.
#[derive(Clone, Copy, Debug, PartialEq, Eq, Structural)]
pub enum ForcedIsa {
    /// No pin: the best available kernel.
    Auto,
    Scalar,
    Fma,
    Avx512F,
    /// The `i8` dot kernel; the plain AVX-512F path for every other type.
    Avx512Vnni,
    /// The `bf16` dot kernel; the plain AVX-512F path for every other type.
    Avx512Bf16,
    Neon,
    Simd128,
}

/// Why a pin cannot be honoured. A pin never falls back to another kernel.
#[derive(Clone, Copy, Debug, PartialEq, Eq, Structural)]
pub enum IsaError {
    /// The pin names no kernel.
    UnknownValue,
    /// The processor does not report what the kernel needs.
    NotReported(ForcedIsa),
    /// The kernel does not exist on this target.
    WrongTarget(ForcedIsa),
}

/// A kernel.
#[derive(Clone, Copy, Debug, PartialEq, Eq, Structural)]
pub enum Isa {
    Scalar,
    Fma,
    Avx512F,
    Avx512Vnni,
    Avx512Bf16,
    Neon,
    Simd128,
}

/// The target and what the processor reports.
#[derive(Clone, Copy, Debug, PartialEq, Eq, Structural)]
pub struct Cpu {
    pub target: Target,
    pub avx2: bool,
    pub fma: bool,
    pub f16c: bool,
    pub avx512f: bool,
    pub avx512bw: bool,
    pub avx512vnni: bool,
    pub avx512bf16: bool,
}

/// What a pin asks for. An unset or empty pin is [`ForcedIsa::Auto`].
pub open spec fn forced_isa_spec(pin: Option<Seq<char>>) -> Result<ForcedIsa, IsaError> {
    match pin {
        None => Ok(ForcedIsa::Auto),
        Some(s) => {
            let t = trimmed(s);
            if t.len() == 0 || same_word(t, "auto"@) {
                Ok(ForcedIsa::Auto)
            } else if same_word(t, "scalar"@) {
                Ok(ForcedIsa::Scalar)
            } else if same_word(t, "fma"@) || same_word(t, "avx2"@) {
                Ok(ForcedIsa::Fma)
            } else if same_word(t, "avx512f"@) {
                Ok(ForcedIsa::Avx512F)
            } else if same_word(t, "avx512vnni"@) || same_word(t, "vnni"@) {
                Ok(ForcedIsa::Avx512Vnni)
            } else if same_word(t, "avx512bf16"@) || same_word(t, "bf16"@) {
                Ok(ForcedIsa::Avx512Bf16)
            } else if same_word(t, "neon"@) {
                Ok(ForcedIsa::Neon)
            } else if same_word(t, "simd128"@) || same_word(t, "wasm"@) {
                Ok(ForcedIsa::Simd128)
            } else {
                Err(IsaError::UnknownValue)
            }
        },
    }
}

/// Read a pin. White space around it and the case of its letters do not matter; a value that
/// names no kernel is an error, so that a misspelt pin is noticed.
pub fn forced_isa(pin: Option<&str>) -> (r: Result<ForcedIsa, IsaError>)
    ensures
        r == forced_isa_spec(
            match pin {
                Some(s) => Some(s@),
                None => None,
            },
        ),
{
    let t: Vec<char> = match pin {
        None => return Ok(ForcedIsa::Auto),
        Some(s) => trim(s),
    };
    if t.len() == 0 || eq_ignore_ascii_case(&t, "auto") {
        Ok(ForcedIsa::Auto)
    } else if eq_ignore_ascii_case(&t, "scalar") {
        Ok(ForcedIsa::Scalar)
    } else if eq_ignore_ascii_case(&t, "fma") || eq_ignore_ascii_case(&t, "avx2") {
        Ok(ForcedIsa::Fma)
    } else if eq_ignore_ascii_case(&t, "avx512f") {
        Ok(ForcedIsa::Avx512F)
    } else if eq_ignore_ascii_case(&t, "avx512vnni") || eq_ignore_ascii_case(&t, "vnni") {
        Ok(ForcedIsa::Avx512Vnni)
    } else if eq_ignore_ascii_case(&t, "avx512bf16") || eq_ignore_ascii_case(&t, "bf16") {
        Ok(ForcedIsa::Avx512Bf16)
    } else if eq_ignore_ascii_case(&t, "neon") {
        Ok(ForcedIsa::Neon)
    } else if eq_ignore_ascii_case(&t, "simd128") || eq_ignore_ascii_case(&t, "wasm") {
        Ok(ForcedIsa::Simd128)
    } else {
        Err(IsaError::UnknownValue)
    }
}

/// Whether the target has a kernel at all.
pub open spec fn on_target(isa: Isa, target: Target) -> bool {
    match isa {
        Isa::Scalar => true,
        Isa::Fma | Isa::Avx512F | Isa::Avx512Vnni | Isa::Avx512Bf16 => target is X86,
        Isa::Neon => target is Aarch64,
        Isa::Simd128 => target == Target::Wasm32 { simd128: true },
    }
}

/// Whether the processor reports what the kernel of an element type needs. `f16c` says whether
/// the type's FMA kernel converts half precision.
pub open spec fn reported(isa: Isa, cpu: Cpu, f16c: bool) -> bool {
    match isa {
        Isa::Fma => cpu.avx2 && cpu.fma && (f16c ==> cpu.f16c),
        Isa::Avx512F => cpu.avx512f,
        Isa::Avx512Vnni => cpu.avx512vnni && cpu.avx512bw && cpu.avx512f,
        Isa::Avx512Bf16 => cpu.avx512bf16 && cpu.avx512f,
        _ => true,
    }
}

/// The kernel can run.
pub open spec fn available(isa: Isa, cpu: Cpu, f16c: bool) -> bool {
    on_target(isa, cpu.target) && reported(isa, cpu, f16c)
}

/// The kernel of the target when nothing better is reported: its baseline vectors, or scalar
/// code.
pub open spec fn baseline_spec(target: Target) -> Isa {
    match target {
        Target::Aarch64 => Isa::Neon,
        Target::Wasm32 { simd128: true } => Isa::Simd128,
        _ => Isa::Scalar,
    }
}

fn baseline(target: Target) -> (r: Isa)
    ensures
        r == baseline_spec(target),
        on_target(r, target),
{
    match target {
        Target::Aarch64 => Isa::Neon,
        Target::Wasm32 { simd128 } => if simd128 {
            Isa::Simd128
        } else {
            Isa::Scalar
        },
        _ => Isa::Scalar,
    }
}

/// The kernel that a pin stands for, given which dot kernel the element type has.
pub open spec fn pinned(forced: ForcedIsa, dot: Option<Isa>) -> Isa {
    match forced {
        ForcedIsa::Auto | ForcedIsa::Scalar => Isa::Scalar,
        ForcedIsa::Fma => Isa::Fma,
        ForcedIsa::Avx512F => Isa::Avx512F,
        ForcedIsa::Avx512Vnni => if dot == Some(Isa::Avx512Vnni) {
            Isa::Avx512Vnni
        } else {
            Isa::Avx512F
        },
        ForcedIsa::Avx512Bf16 => if dot == Some(Isa::Avx512Bf16) {
            Isa::Avx512Bf16
        } else {
            Isa::Avx512F
        },
        ForcedIsa::Neon => Isa::Neon,
        ForcedIsa::Simd128 => Isa::Simd128,
    }
}

/// The kernel of an element type. A pin is honoured or refused. Without one, the type's dot
/// kernel comes first, then AVX-512F, then FMA, then the target's baseline.
pub open spec fn select_spec(
    forced: ForcedIsa,
    cpu: Cpu,
    f16c: bool,
    dot: Option<Isa>,
) -> Result<Isa, IsaError> {
    if forced != ForcedIsa::Auto {
        let isa = pinned(forced, dot);
        if !on_target(isa, cpu.target) {
            Err(IsaError::WrongTarget(forced))
        } else if !reported(isa, cpu, f16c) {
            Err(IsaError::NotReported(forced))
        } else {
            Ok(isa)
        }
    } else if dot is Some && available(dot->0, cpu, f16c) {
        Ok(dot->0)
    } else if available(Isa::Avx512F, cpu, f16c) {
        Ok(Isa::Avx512F)
    } else if available(Isa::Fma, cpu, f16c) {
        Ok(Isa::Fma)
    } else {
        Ok(baseline_spec(cpu.target))
    }
}

fn is_available(isa: Isa, cpu: &Cpu, f16c: bool) -> (r: bool)
    ensures
        r == available(isa, *cpu, f16c),
{
    let here: bool = match isa {
        Isa::Scalar => true,
        Isa::Fma | Isa::Avx512F | Isa::Avx512Vnni | Isa::Avx512Bf16 => match cpu.target {
            Target::X86 => true,
            _ => false,
        },
        Isa::Neon => match cpu.target {
            Target::Aarch64 => true,
            _ => false,
        },
        Isa::Simd128 => match cpu.target {
            Target::Wasm32 { simd128 } => simd128,
            _ => false,
        },
    };
    here && is_reported(isa, cpu, f16c)
}

fn is_reported(isa: Isa, cpu: &Cpu, f16c: bool) -> (r: bool)
    ensures
        r == reported(isa, *cpu, f16c),
{
    match isa {
        Isa::Fma => cpu.avx2 && cpu.fma && (!f16c || cpu.f16c),
        Isa::Avx512F => cpu.avx512f,
        Isa::Avx512Vnni => cpu.avx512vnni && cpu.avx512bw && cpu.avx512f,
        Isa::Avx512Bf16 => cpu.avx512bf16 && cpu.avx512f,
        _ => true,
    }
}

/// Climb down the ladder of an element type.
pub fn select(forced: ForcedIsa, cpu: &Cpu, f16c: bool, dot: Option<Isa>) -> (r: Result<
    Isa,
    IsaError,
>)
    ensures
        r == select_spec(forced, *cpu, f16c, dot),
{
    let isa: Isa = match forced {
        ForcedIsa::Auto => {
            if let Some(d) = dot {
                if is_available(d, cpu, f16c) {
                    return Ok(d);
                }
            }
            if is_available(Isa::Avx512F, cpu, f16c) {
                return Ok(Isa::Avx512F);
            }
            if is_available(Isa::Fma, cpu, f16c) {
                return Ok(Isa::Fma);
            }
            return Ok(baseline(cpu.target));
        },
        ForcedIsa::Scalar => Isa::Scalar,
        ForcedIsa::Fma => Isa::Fma,
        ForcedIsa::Avx512F => Isa::Avx512F,
        ForcedIsa::Avx512Vnni => match dot {
            Some(Isa::Avx512Vnni) => Isa::Avx512Vnni,
            _ => Isa::Avx512F,
        },
        ForcedIsa::Avx512Bf16 => match dot {
            Some(Isa::Avx512Bf16) => Isa::Avx512Bf16,
            _ => Isa::Avx512F,
        },
        ForcedIsa::Neon => Isa::Neon,
        ForcedIsa::Simd128 => Isa::Simd128,
    };
    if is_available(isa, cpu, f16c) {
        Ok(isa)
    } else if is_reported(isa, cpu, f16c) {
        Err(IsaError::WrongTarget(forced))
    } else {
        match isa {
            Isa::Fma | Isa::Avx512F | Isa::Avx512Vnni | Isa::Avx512Bf16 => match cpu.target {
                Target::X86 => Err(IsaError::NotReported(forced)),
                _ => Err(IsaError::WrongTarget(forced)),
            },
            _ => Err(IsaError::NotReported(forced)),
        }
    }
}

/// A kernel with its microtile and the depth multiple of its panels.
#[derive(Clone, Copy, Debug, PartialEq, Eq, Structural)]
pub struct Dispatched {
    pub isa: Isa,
    pub mr: usize,
    pub nr: usize,
    pub depth_multiple: usize,
}

/// The integer kernel. Where the dot kernel was chosen without a pin, `small_par_fallback`
/// stands in for it on a small product with several workers.
#[derive(Clone, Copy, Debug, PartialEq, Eq, Structural)]
pub struct IntDispatched {
    pub isa: Isa,
    pub small_par_fallback: Option<Isa>,
    pub mr: usize,
    pub nr: usize,
    pub depth_multiple: usize,
}

/// A microtile.
pub open spec fn tile(isa: Isa, mr: usize, nr: usize) -> Dispatched {
    Dispatched {
        isa,
        mr,
        nr,
        depth_multiple: if isa == Isa::Avx512Vnni {
            4
        } else if isa == Isa::Avx512Bf16 {
            2
        } else {
            1
        },
    }
}

/// The microtile of a 4-byte accumulator (`f32`, `f16`, `bf16`, `i32`).
pub open spec fn tile4(isa: Isa) -> Dispatched {
    match isa {
        Isa::Scalar => tile(isa, 4, 4),
        Isa::Fma => tile(isa, 16, 6),
        Isa::Avx512F | Isa::Avx512Vnni | Isa::Avx512Bf16 => tile(isa, 32, 12),
        Isa::Neon => tile(isa, 16, 4),
        Isa::Simd128 => tile(isa, 8, 4),
    }
}

/// The microtile of an 8-byte accumulator (`f64`).
pub open spec fn tile8(isa: Isa) -> Dispatched {
    match isa {
        Isa::Scalar => tile(isa, 4, 4),
        Isa::Fma => tile(isa, 8, 6),
        Isa::Avx512F | Isa::Avx512Vnni | Isa::Avx512Bf16 => tile(isa, 16, 12),
        Isa::Neon => tile(isa, 8, 4),
        Isa::Simd128 => tile(isa, 4, 4),
    }
}

/// The microtile of a complex number of two 4-byte parts.
pub open spec fn tile_c32(isa: Isa) -> Dispatched {
    match isa {
        Isa::Scalar => tile(isa, 4, 4),
        Isa::Fma => tile(isa, 8, 5),
        Isa::Avx512F | Isa::Avx512Vnni | Isa::Avx512Bf16 => tile(isa, 32, 6),
        Isa::Neon => tile(isa, 8, 5),
        Isa::Simd128 => tile(isa, 4, 4),
    }
}

/// The microtile of a complex number of two 8-byte parts.
pub open spec fn tile_c64(isa: Isa) -> Dispatched {
    match isa {
        Isa::Scalar => tile(isa, 4, 4),
        Isa::Fma => tile(isa, 4, 5),
        Isa::Avx512F | Isa::Avx512Vnni | Isa::Avx512Bf16 => tile(isa, 16, 6),
        Isa::Neon => tile(isa, 4, 5),
        Isa::Simd128 => tile(isa, 2, 4),
    }
}

fn make_tile(isa: Isa, mr: usize, nr: usize) -> (r: Dispatched)
    ensures
        r == tile(isa, mr, nr),
{
    let depth_multiple: usize = match isa {
        Isa::Avx512Vnni => 4,
        Isa::Avx512Bf16 => 2,
        _ => 1,
    };
    Dispatched { isa, mr, nr, depth_multiple }
}

fn make_tile4(isa: Isa) -> (r: Dispatched)
    ensures
        r == tile4(isa),
{
    match isa {
        Isa::Scalar => make_tile(isa, 4, 4),
        Isa::Fma => make_tile(isa, 16, 6),
        Isa::Avx512F | Isa::Avx512Vnni | Isa::Avx512Bf16 => make_tile(isa, 32, 12),
        Isa::Neon => make_tile(isa, 16, 4),
        Isa::Simd128 => make_tile(isa, 8, 4),
    }
}

/// The outcome of a ladder, with a tile for the kernel it chose.
pub open spec fn dispatched(
    choice: Result<Isa, IsaError>,
    geometry: spec_fn(Isa) -> Dispatched,
) -> Result<Dispatched, IsaError> {
    match choice {
        Ok(isa) => Ok(geometry(isa)),
        Err(e) => Err(e),
    }
}

/// The `f32` kernel.
pub fn select_f32(forced: ForcedIsa, cpu: &Cpu) -> (r: Result<Dispatched, IsaError>)
    ensures
        r == dispatched(select_spec(forced, *cpu, false, None), |isa: Isa| tile4(isa)),
{
    match select(forced, cpu, false, None) {
        Ok(isa) => Ok(make_tile4(isa)),
        Err(e) => Err(e),
    }
}

/// The `f64` kernel.
pub fn select_f64(forced: ForcedIsa, cpu: &Cpu) -> (r: Result<Dispatched, IsaError>)
    ensures
        r == dispatched(select_spec(forced, *cpu, false, None), |isa: Isa| tile8(isa)),
{
    match select(forced, cpu, false, None) {
        Ok(isa) => Ok(
            match isa {
                Isa::Scalar => make_tile(isa, 4, 4),
                Isa::Fma => make_tile(isa, 8, 6),
                Isa::Avx512F | Isa::Avx512Vnni | Isa::Avx512Bf16 => make_tile(isa, 16, 12),
                Isa::Neon => make_tile(isa, 8, 4),
                Isa::Simd128 => make_tile(isa, 4, 4),
            },
        ),
        Err(e) => Err(e),
    }
}

/// The `f32` kernel of the map epilogue: that of [`select_f32`].
pub fn select_map_f32(forced: ForcedIsa, cpu: &Cpu) -> (r: Result<Dispatched, IsaError>)
    ensures
        r == dispatched(select_spec(forced, *cpu, false, None), |isa: Isa| tile4(isa)),
{
    select_f32(forced, cpu)
}

/// The `f64` kernel of the map epilogue: that of [`select_f64`].
pub fn select_map_f64(forced: ForcedIsa, cpu: &Cpu) -> (r: Result<Dispatched, IsaError>)
    ensures
        r == dispatched(select_spec(forced, *cpu, false, None), |isa: Isa| tile8(isa)),
{
    select_f64(forced, cpu)
}

/// The `f16` kernel. Its FMA path converts half precision, so it needs F16C as well.
pub fn select_f16(forced: ForcedIsa, cpu: &Cpu) -> (r: Result<Dispatched, IsaError>)
    ensures
        r == dispatched(select_spec(forced, *cpu, true, None), |isa: Isa| tile4(isa)),
{
    match select(forced, cpu, true, None) {
        Ok(isa) => Ok(make_tile4(isa)),
        Err(e) => Err(e),
    }
}

/// The `bf16` kernel: the dot kernel first.
pub fn select_bf16(forced: ForcedIsa, cpu: &Cpu) -> (r: Result<Dispatched, IsaError>)
    ensures
        r == dispatched(
            select_spec(forced, *cpu, false, Some(Isa::Avx512Bf16)),
            |isa: Isa| tile4(isa),
        ),
{
    match select(forced, cpu, false, Some(Isa::Avx512Bf16)) {
        Ok(isa) => Ok(make_tile4(isa)),
        Err(e) => Err(e),
    }
}

/// The complex kernel of two `f32` parts.
pub fn select_c32(forced: ForcedIsa, cpu: &Cpu) -> (r: Result<Dispatched, IsaError>)
    ensures
        r == dispatched(select_spec(forced, *cpu, false, None), |isa: Isa| tile_c32(isa)),
{
    match select(forced, cpu, false, None) {
        Ok(isa) => Ok(
            match isa {
                Isa::Scalar => make_tile(isa, 4, 4),
                Isa::Fma => make_tile(isa, 8, 5),
                Isa::Avx512F | Isa::Avx512Vnni | Isa::Avx512Bf16 => make_tile(isa, 32, 6),
                Isa::Neon => make_tile(isa, 8, 5),
                Isa::Simd128 => make_tile(isa, 4, 4),
            },
        ),
        Err(e) => Err(e),
    }
}

/// The complex kernel of two `f64` parts.
pub fn select_c64(forced: ForcedIsa, cpu: &Cpu) -> (r: Result<Dispatched, IsaError>)
    ensures
        r == dispatched(select_spec(forced, *cpu, false, None), |isa: Isa| tile_c64(isa)),
{
    match select(forced, cpu, false, None) {
        Ok(isa) => Ok(
            match isa {
                Isa::Scalar => make_tile(isa, 4, 4),
                Isa::Fma => make_tile(isa, 4, 5),
                Isa::Avx512F | Isa::Avx512Vnni | Isa::Avx512Bf16 => make_tile(isa, 16, 6),
                Isa::Neon => make_tile(isa, 4, 5),
                Isa::Simd128 => make_tile(isa, 2, 4),
            },
        ),
        Err(e) => Err(e),
    }
}

/// The integer descriptor of a kernel.
pub open spec fn int_dispatched(forced: ForcedIsa, isa: Isa) -> IntDispatched {
    let d = tile4(isa);
    IntDispatched {
        isa,
        small_par_fallback: if forced == ForcedIsa::Auto && isa == Isa::Avx512Vnni {
            Some(Isa::Avx512F)
        } else {
            None
        },
        mr: d.mr,
        nr: d.nr,
        depth_multiple: d.depth_multiple,
    }
}

/// The integer kernel: the dot kernel first. Chosen without a pin, it hands a small product
/// with several workers to the plain kernel; a pin runs exactly what it names.
pub fn select_i8(forced: ForcedIsa, cpu: &Cpu) -> (r: Result<IntDispatched, IsaError>)
    ensures
        r == (match select_spec(forced, *cpu, false, Some(Isa::Avx512Vnni)) {
            Ok(isa) => Ok::<IntDispatched, IsaError>(int_dispatched(forced, isa)),
            Err(e) => Err(e),
        }),
{
    match select(forced, cpu, false, Some(Isa::Avx512Vnni)) {
        Ok(isa) => {
            let d: Dispatched = make_tile4(isa);
            let auto: bool = match forced {
                ForcedIsa::Auto => true,
                _ => false,
            };
            let vnni: bool = match isa {
                Isa::Avx512Vnni => true,
                _ => false,
            };
            Ok(
                IntDispatched {
                    isa,
                    small_par_fallback: if auto && vnni {
                        Some(Isa::Avx512F)
                    } else {
                        None
                    },
                    mr: d.mr,
                    nr: d.nr,
                    depth_multiple: d.depth_multiple,
                },
            )
        },
        Err(e) => Err(e),
    }
}

/// A pin is never answered with another kernel: the choice is what the pin stands for, or an
/// error.
pub proof fn law_pin_is_honoured_or_refused(
    forced: ForcedIsa,
    cpu: Cpu,
    f16c: bool,
    dot: Option<Isa>,
)
    requires
        forced != ForcedIsa::Auto,
    ensures
        match select_spec(forced, cpu, f16c, dot) {
            Ok(isa) => isa == pinned(forced, dot) && available(isa, cpu, f16c),
            Err(_) => !available(pinned(forced, dot), cpu, f16c),
        },
{
}

/// Without a pin a kernel is always found, and it can run.
pub proof fn law_auto_always_finds_a_kernel(cpu: Cpu, f16c: bool, dot: Option<Isa>)
    ensures
        select_spec(ForcedIsa::Auto, cpu, f16c, dot) matches Ok(isa) && available(
            isa,
            cpu,
            f16c,
        ),
{
}

/// The kernels that a context has settled on, one per element type.
#[derive(Clone, Copy, Debug, PartialEq, Eq, Structural)]
pub struct Kernels {
    /// 4-byte reals.
    pub single: Dispatched,
    /// 8-byte reals.
    pub double: Dispatched,
    /// IEEE half precision.
    pub half: Dispatched,
    /// Brain floating point.
    pub brain: Dispatched,
    /// Complex numbers of two 4-byte parts.
    pub complex_single: Dispatched,
    /// Complex numbers of two 8-byte parts.
    pub complex_double: Dispatched,
    /// Bytes.
    pub byte: IntDispatched,
}

/// The kernels of every element type under one pin.
pub open spec fn kernels_spec(forced: ForcedIsa, cpu: Cpu) -> Result<Kernels, IsaError> {
    let plain = select_spec(forced, cpu, false, None);
    let half = select_spec(forced, cpu, true, None);
    let brain = select_spec(forced, cpu, false, Some(Isa::Avx512Bf16));
    let byte = select_spec(forced, cpu, false, Some(Isa::Avx512Vnni));
    if plain is Err {
        Err(plain->Err_0)
    } else if half is Err {
        Err(half->Err_0)
    } else if brain is Err {
        Err(brain->Err_0)
    } else if byte is Err {
        Err(byte->Err_0)
    } else {
        Ok(
            Kernels {
                single: tile4(plain->Ok_0),
                double: tile8(plain->Ok_0),
                half: tile4(half->Ok_0),
                brain: tile4(brain->Ok_0),
                complex_single: tile_c32(plain->Ok_0),
                complex_double: tile_c64(plain->Ok_0),
                byte: int_dispatched(forced, byte->Ok_0),
            },
        )
    }
}

/// The kernels of a machine of which nothing is known: scalar code throughout.
pub open spec fn scalar_kernels() -> Kernels {
    Kernels {
        single: tile4(Isa::Scalar),
        double: tile8(Isa::Scalar),
        half: tile4(Isa::Scalar),
        brain: tile4(Isa::Scalar),
        complex_single: tile_c32(Isa::Scalar),
        complex_double: tile_c64(Isa::Scalar),
        byte: int_dispatched(ForcedIsa::Scalar, Isa::Scalar),
    }
}

impl Kernels {
    /// Every kernel has a microtile and a depth multiple.
    pub open spec fn valid(self) -> bool {
        &&& self.single.mr > 0 && self.single.nr > 0
        &&& self.double.mr > 0 && self.double.nr > 0
        &&& self.half.mr > 0 && self.half.nr > 0
        &&& self.brain.mr > 0 && self.brain.nr > 0
        &&& self.complex_single.mr > 0 && self.complex_single.nr > 0
        &&& self.complex_double.mr > 0 && self.complex_double.nr > 0
        &&& self.brain.depth_multiple == 1 || self.brain.depth_multiple == 2
        &&& self.byte.mr > 0 && self.byte.nr > 0
        &&& self.byte.depth_multiple == 1 || self.byte.depth_multiple == 4
    }

    /// Choose the kernel of every element type.
    pub fn select(forced: ForcedIsa, cpu: &Cpu) -> (r: Result<Kernels, IsaError>)
        ensures
            r == kernels_spec(forced, *cpu),
            r matches Ok(k) ==> k.valid(),
    {
        let single: Dispatched = match select_f32(forced, cpu) {
            Ok(d) => d,
            Err(e) => return Err(e),
        };
        let half: Dispatched = match select_f16(forced, cpu) {
            Ok(d) => d,
            Err(e) => return Err(e),
        };
        let brain: Dispatched = match select_bf16(forced, cpu) {
            Ok(d) => d,
            Err(e) => return Err(e),
        };
        let byte: IntDispatched = match select_i8(forced, cpu) {
            Ok(d) => d,
            Err(e) => return Err(e),
        };
        match (select_f64(forced, cpu), select_c32(forced, cpu), select_c64(forced, cpu)) {
            (Ok(double), Ok(complex_single), Ok(complex_double)) => Ok(
                Kernels { single, double, half, brain, complex_single, complex_double, byte },
            ),
            (Err(e), _, _) => Err(e),
            (_, Err(e), _) => Err(e),
            (_, _, Err(e)) => Err(e),
        }
    }

    /// Scalar code throughout.
    pub fn scalar() -> (r: Kernels)
        ensures
            r == scalar_kernels(),
            r.valid(),
    {
        let t: Dispatched = make_tile(Isa::Scalar, 4, 4);
        Kernels {
            single: t,
            double: t,
            half: t,
            brain: t,
            complex_single: t,
            complex_double: t,
            byte: IntDispatched {
                isa: Isa::Scalar,
                small_par_fallback: None,
                mr: 4,
                nr: 4,
                depth_multiple: 1,
            },
        }
    }
}

} // verus!
