//! Cache topology from the integers that macOS publishes under its `hw.*` keys.
//!
//! Reading the keys is left to the caller.

use vstd::prelude::*;

use crate::cache::{CacheTopology, Level};

verus! {

/// The values of the keys; `None` for a key that does not exist. Those of the performance cores
/// come first, and the flat keys stand in for them where they are missing.
#[derive(Clone, Copy, Debug)]
pub struct SysctlKeys {
    /// `hw.cachelinesize`
    pub line: Option<u64>,
    /// `hw.perflevel0.l1dcachesize`
    pub perf_l1d: Option<u64>,
    /// `hw.l1dcachesize`
    pub flat_l1d: Option<u64>,
    /// `hw.perflevel0.l2cachesize`
    pub perf_l2: Option<u64>,
    /// `hw.l2cachesize`
    pub flat_l2: Option<u64>,
    /// `hw.perflevel0.l3cachesize`
    pub perf_l3: Option<u64>,
    /// `hw.l3cachesize`
    pub flat_l3: Option<u64>,
    /// `hw.perflevel0.cpusperl2`
    pub cpus_per_l2: Option<u64>,
}

/// The first of two values that exists.
pub open spec fn either(a: Option<u64>, b: Option<u64>) -> Option<u64> {
    match a {
        Some(v) => Some(v),
        None => b,
    }
}

fn first(a: Option<u64>, b: Option<u64>) -> (r: Option<u64>)
    ensures
        r == either(a, b),
{
    match a {
        Some(v) => Some(v),
        None => b,
    }
}

/// The topology that the keys describe; `None` without a first or a second level. The keys say
/// nothing of associativity, so typical values stand in, and a zero third level is none.
pub open spec fn topology_of(k: SysctlKeys) -> Option<CacheTopology> {
    let line = match k.line {
        Some(v) => v as usize,
        None => 64,
    };
    let shared = match k.cpus_per_l2 {
        Some(v) => if v > 0 {
            v as usize
        } else {
            1
        },
        None => 1,
    };
    match (either(k.perf_l1d, k.flat_l1d), either(k.perf_l2, k.flat_l2)) {
        (Some(l1), Some(l2)) => Some(
            CacheTopology {
                l1d: Level { bytes: l1 as usize, assoc: 8, line, shared_by: 1 },
                l2: Level { bytes: l2 as usize, assoc: 8, line, shared_by: shared },
                l3: match either(k.perf_l3, k.flat_l3) {
                    Some(b) => if b > 0 {
                        Some(Level { bytes: b as usize, assoc: 16, line, shared_by: 1 })
                    } else {
                        None
                    },
                    None => None,
                },
            },
        ),
        _ => None,
    }
}

/// The topology that the keys describe; see [`topology_of`].
pub fn detect(k: &SysctlKeys) -> (r: Option<CacheTopology>)
    ensures
        r == topology_of(*k),
{
    let line: usize = match k.line {
        Some(v) => v as usize,
        None => 64,
    };
    let l1: u64 = match first(k.perf_l1d, k.flat_l1d) {
        Some(v) => v,
        None => return None,
    };
    let l2: u64 = match first(k.perf_l2, k.flat_l2) {
        Some(v) => v,
        None => return None,
    };
    let shared: usize = match k.cpus_per_l2 {
        Some(v) => if v > 0 {
            v as usize
        } else {
            1
        },
        None => 1,
    };
    let l3: Option<Level> = match first(k.perf_l3, k.flat_l3) {
        Some(b) => if b > 0 {
            Some(Level { bytes: b as usize, assoc: 16, line, shared_by: 1 })
        } else {
            None
        },
        None => None,
    };
    Some(
        CacheTopology {
            l1d: Level { bytes: l1 as usize, assoc: 8, line, shared_by: 1 },
            l2: Level { bytes: l2 as usize, assoc: 8, line, shared_by: shared },
            l3,
        },
    )
}

} // verus!
