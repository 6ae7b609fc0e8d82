//! Where and how wide a call runs: the target, the requested parallelism and the context that
//! every entry takes its knobs and machine facts from.

use vstd::prelude::*;

use crate::arith::{max_int, max_usize, min_int, min_usize};
use crate::cache::{fallback_machine, Machine};
use crate::isa::{kernels_spec, scalar_kernels, Cpu, ForcedIsa, IsaError, Kernels};
use crate::probes::Host;
use crate::tuning::{default_tuning, target_tuning, Tuning};

verus! {

/// The target architecture.
#[derive(Clone, Copy, Debug, PartialEq, Eq, Structural)]
pub enum Target {
    /// 32- or 64-bit x86.
    X86,
    /// 64-bit Arm.
    Aarch64,
    /// 32-bit WebAssembly, with or without 128-bit vectors compiled in.
    Wasm32 { simd128: bool },
    /// Anything else.
    Other,
}

/// The parallelism a caller asks for.
#[derive(Clone, Copy, Debug, PartialEq, Eq, Structural)]
pub enum Parallelism {
    /// One worker.
    Serial,
    /// At most this many workers; `0` takes what the machine has.
    Rayon(usize),
}

impl Parallelism {
    /// The number of workers for `mnk` multiply-adds in `n_jobs` jobs on a machine that offers
    /// `workers`.
    pub open spec fn resolved(self, tun: Tuning, workers: usize, mnk: int, n_jobs: int) -> int {
        match self {
            Parallelism::Serial => 1,
            Parallelism::Rayon(want) => if mnk < tun.parallel_threshold {
                1
            } else {
                max_int(
                    min_int(
                        if want == 0 {
                            workers as int
                        } else {
                            want as int
                        },
                        n_jobs,
                    ),
                    1,
                )
            },
        }
    }

    /// The number of workers of a call: one for a serial call or for work below the threshold,
    /// otherwise the requested number, but no more than there are jobs.
    pub fn resolve(self, tun: &Tuning, workers: usize, mnk: usize, n_jobs: usize) -> (r: usize)
        ensures
            r == self.resolved(*tun, workers, mnk as int, n_jobs as int),
            r >= 1,
    {
        match self {
            Parallelism::Serial => 1,
            Parallelism::Rayon(want) => if mnk < tun.parallel_threshold {
                1
            } else {
                max_usize(
                    min_usize(
                        if want == 0 {
                            workers
                        } else {
                            want
                        },
                        n_jobs,
                    ),
                    1,
                )
            },
        }
    }
}

/// What a call runs under: the machine, the knobs, the kernels and the number of workers on
/// offer.
#[derive(Clone, Copy, Debug, PartialEq, Eq, Structural)]
pub struct Context {
    pub machine: Machine,
    pub tuning: Tuning,
    pub kernels: Kernels,
    pub workers: usize,
}

/// The context of a process that has read nothing from its machine: the fallback machine, the
/// default knobs, scalar kernels and one worker.
pub open spec fn default_context() -> Context {
    Context {
        machine: fallback_machine(),
        tuning: default_tuning(),
        kernels: scalar_kernels(),
        workers: 1,
    }
}

/// The context of a process on a detected machine: the default knobs of its target, and the kernels
/// that its processor and the pin allow.
pub open spec fn detected_context(
    machine: Machine,
    forced: ForcedIsa,
    cpu: Cpu,
    workers: usize,
) -> Result<Context, IsaError> {
    match kernels_spec(forced, cpu) {
        Ok(kernels) => Ok(
            Context { machine, tuning: target_tuning(cpu.target), kernels, workers },
        ),
        Err(e) => Err(e),
    }
}

impl Context {
    /// See [`detected_context`]. It fails where the pin asks for a kernel that cannot run.
    pub fn detect(host: &Host, forced: ForcedIsa, cpu: &Cpu, workers: usize) -> (r: Result<
        Context,
        IsaError,
    >)
        ensures
            r == detected_context(host.machine(), forced, *cpu, workers),
            r matches Ok(c) ==> c.kernels.valid(),
    {
        match Kernels::select(forced, cpu) {
            Ok(kernels) => Ok(
                Context {
                    machine: *Machine::current(host),
                    tuning: Tuning::for_target(cpu.target),
                    kernels,
                    workers,
                },
            ),
            Err(e) => Err(e),
        }
    }

    /// The context of a process that has read nothing from its machine: the fallback machine, the
    /// default knobs, scalar kernels and one worker. For the machine at hand see
    /// [`Context::detect`].
    pub fn new() -> (r: Context)
        ensures
            r == default_context(),
            r.kernels.valid(),
    {
        Context {
            machine: Machine::fallback(),
            tuning: Tuning::new(),
            kernels: Kernels::scalar(),
            workers: 1,
        }
    }
}

} // verus!
