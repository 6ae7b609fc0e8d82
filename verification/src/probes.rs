//! The machine that its readings describe, and what two probes of one machine agree on.

use vstd::prelude::*;

use crate::cache::{
    believed_page, detect, detect_page_size, fallback_machine, first_plausible, CacheTopology,
    Level, Machine,
};
use crate::cpuid::{self, CacheParam, Leaf, LegacyCache};
use crate::sysctl::{self, SysctlKeys};
use crate::sysfs::{self, CacheEntry};

verus! {

/// What has been read from a machine, as far as it has the sources.
pub struct Readings {
    /// The leaves of the CPUID instruction.
    pub leaves: Option<Vec<Leaf>>,
    /// The cache directories of the first CPU.
    pub entries: Vec<CacheEntry>,
    /// The system's control values.
    pub keys: SysctlKeys,
    /// The page size that the system reports.
    pub page_size: usize,
}

/// What the CPUID probe finds. A table that cannot be decoded is as good as none.
pub open spec fn cpuid_probe(leaves: Option<Vec<Leaf>>) -> Option<CacheTopology> {
    match leaves {
        Some(l) => if cpuid::decodable(l@) {
            cpuid::described(l@)
        } else {
            None
        },
        None => None,
    }
}

/// The machine that readings describe: the caches of the first plausible probe, in the order of
/// CPUID, sysfs and sysctl, or else the fallback geometry; and the page size, where it can be
/// believed.
pub open spec fn probed(r: Readings) -> Machine {
    Machine {
        cache: first_plausible(
            seq![
                cpuid_probe(r.leaves),
                sysfs::topology_of(r.entries@),
                sysctl::topology_of(r.keys),
            ],
        ),
        page_size: believed_page(r.page_size),
    }
}

impl Machine {
    /// The machine that readings describe; see [`probed`]. It never fails.
    pub fn probe(r: &Readings) -> (m: Machine)
        ensures
            m == probed(*r),
    {
        let by_cpuid: Option<CacheTopology> = match &r.leaves {
            Some(l) => if cpuid::is_decodable(l.as_slice()) {
                cpuid::detect(l.as_slice())
            } else {
                None
            },
            None => None,
        };
        let probes: [Option<CacheTopology>; 3] = [
            by_cpuid,
            sysfs::detect(r.entries.as_slice()),
            sysctl::detect(&r.keys),
        ];
        proof {
            assert(probes@ =~= seq![
                cpuid_probe(r.leaves),
                sysfs::topology_of(r.entries@),
                sysctl::topology_of(r.keys),
            ]);
        }
        Machine { cache: detect(&probes), page_size: detect_page_size(r.page_size) }
    }
}

impl Readings {
    /// Nothing has been read.
    pub fn none() -> (r: Readings)
        ensures
            probed(r) == fallback_machine(),
    {
        let r: Readings = Readings {
            leaves: None,
            entries: Vec::new(),
            keys: SysctlKeys {
                line: None,
                perf_l1d: None,
                flat_l1d: None,
                perf_l2: None,
                flat_l2: None,
                perf_l3: None,
                flat_l3: None,
                cpus_per_l2: None,
            },
            page_size: 4096,
        };
        proof {
            law_nothing_read_is_the_fallback(r);
        }
        r
    }
}

/// A machine that none of its sources describes counts as the fallback machine.
pub proof fn law_nothing_read_is_the_fallback(r: Readings)
    requires
        cpuid_probe(r.leaves) is None,
        sysfs::topology_of(r.entries@) is None,
        sysctl::topology_of(r.keys) is None,
        r.page_size == 4096,
    ensures
        probed(r) == fallback_machine(),
{
    reveal_with_fuel(first_plausible, 5);
}

/// What has been found out about a machine, once and for all.
pub struct Host {
    machine: Machine,
}

impl Host {
    /// The machine that was found.
    pub closed spec fn machine(self) -> Machine {
        self.machine
    }

    /// Find out what readings describe; see [`probed`].
    pub fn detect(r: &Readings) -> (h: Host)
        ensures
            h.machine() == probed(*r),
    {
        Host { machine: Machine::probe(r) }
    }

    /// The machine that was found.
    pub(crate) fn detected(&self) -> (r: &Machine)
        ensures
            *r == self.machine(),
    {
        &self.machine
    }
}

/// Two readings of one cache: the same size and the same line.
pub open spec fn same_cache(a: Level, b: Level) -> bool {
    a.bytes == b.bytes && a.line == b.line
}

/// Two lists of caches of one machine: at the first and at the second level, what they list are
/// readings of the same caches.
pub open spec fn same_caches(es: Seq<CacheEntry>, ps: Seq<CacheParam>) -> bool {
    forall|i: int, j: int, level: u8|
        0 <= i < sysfs::listed(es, 0) && 0 <= j < ps.len() && 1 <= level <= 2
            && #[trigger] es[i].stands_at(level as usize) && #[trigger] ps[j].stands_at(level)
            ==> same_cache((es[i].as_level()->0).0, ps[j].as_level())
}

/// The same of the legacy leaves, which name one cache of each level.
pub open spec fn same_legacy(es: Seq<CacheEntry>, l1d: LegacyCache, l2: LegacyCache) -> bool {
    forall|i: int|
        #![trigger es[i]]
        0 <= i < sysfs::listed(es, 0) ==> {
            &&& es[i].stands_at(1) ==> same_cache(
                (es[i].as_level()->0).0,
                cpuid::legacy_level(l1d, 1024),
            )
            &&& es[i].stands_at(2) ==> same_cache(
                (es[i].as_level()->0).0,
                cpuid::legacy_level(l2, 1024),
            )
        }
}

/// What sysfs finds at a level is one of its entries.
proof fn lemma_sysfs_entry(es: Seq<CacheEntry>, i: int, n: int, level: usize) -> (x: int)
    requires
        sysfs::first_at(es, i, n, level) is Some,
    ensures
        i <= x < n,
        0 <= x,
        es[x].stands_at(level),
        sysfs::first_at(es, i, n, level) == es[x].as_level(),
    decreases n - i,
{
    if es[i].stands_at(level) {
        i
    } else {
        lemma_sysfs_entry(es, i + 1, n, level)
    }
}

/// What CPUID finds at a level is one of its entries.
proof fn lemma_cpuid_entry(ps: Seq<CacheParam>, i: int, n: int, level: u8) -> (x: int)
    requires
        cpuid::first_at(ps, i, n, level) is Some,
    ensures
        i <= x < n,
        0 <= x,
        ps[x].stands_at(level),
        cpuid::first_at(ps, i, n, level) == Some(ps[x].as_level()),
    decreases n - i,
{
    if ps[i].stands_at(level) {
        i
    } else {
        lemma_cpuid_entry(ps, i + 1, n, level)
    }
}

/// The first two levels agree in size and line, and the first topology counts its first and third
/// level as private. The third levels need not agree: one source may report a whole package and
/// the other what one core reaches.
pub open spec fn probes_agree(sf: CacheTopology, cp: CacheTopology) -> bool {
    &&& same_cache(sf.l1d, cp.l1d)
    &&& same_cache(sf.l2, cp.l2)
    &&& sf.l1d.shared_by == 1
    &&& sf.l2.shared_by >= 1
    &&& sf.l3 matches Some(l) ==> l.shared_by == 1
}

/// Where sysfs and the topology leaf list the same physical caches, and both probes find
/// something, they agree on the size and the line of the first two levels.
pub proof fn law_sysfs_agrees_with_cpuid(
    es: Seq<CacheEntry>,
    ps: Seq<CacheParam>,
    sf: CacheTopology,
    cp: CacheTopology,
)
    requires
        same_caches(es, ps),
        sysfs::topology_of(es) == Some(sf),
        cpuid::topology_of(ps) == Some(cp),
    ensures
        probes_agree(sf, cp),
{
    let n = sysfs::listed(es, 0);
    let k = ps.len() as int;
    let i1 = lemma_sysfs_entry(es, 0, n, 1);
    let i2 = lemma_sysfs_entry(es, 0, n, 2);
    let j1 = lemma_cpuid_entry(ps, 0, k, 1);
    let j2 = lemma_cpuid_entry(ps, 0, k, 2);
    assert(es[i1].stands_at(1u8 as usize) && ps[j1].stands_at(1));
    assert(es[i2].stands_at(2u8 as usize) && ps[j2].stands_at(2));
}

/// The same of the legacy leaves, where there is no topology leaf.
pub proof fn law_sysfs_agrees_with_legacy_cpuid(
    es: Seq<CacheEntry>,
    l1d: LegacyCache,
    l2: LegacyCache,
    l3: LegacyCache,
    sf: CacheTopology,
    cp: CacheTopology,
)
    requires
        same_legacy(es, l1d, l2),
        sysfs::topology_of(es) == Some(sf),
        cpuid::legacy_topology(Some(l1d), Some(l2), Some(l3)) == Some(cp),
    ensures
        probes_agree(sf, cp),
{
    let n = sysfs::listed(es, 0);
    let i1 = lemma_sysfs_entry(es, 0, n, 1);
    let i2 = lemma_sysfs_entry(es, 0, n, 2);
    assert(es[i1].stands_at(1) && es[i2].stands_at(2));
}

} // verus!
