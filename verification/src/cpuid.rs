//! Cache topology from the leaves of the CPUID instruction.
//!
//! The leaves come as a table, read from the machine or made up, and `raw-cpuid` decodes them.
//! What is made of the decoded caches is here.

use vstd::prelude::*;

use raw_cpuid::{Associativity, CacheType, CpuId, CpuIdResult};

use crate::arith::{saturate, saturating_mul};
use crate::cache::{CacheTopology, Level};

verus! {

/// The four registers that CPUID returns.
#[derive(Clone, Copy, Debug, PartialEq, Eq, Structural)]
pub struct Regs {
    pub eax: u32,
    pub ebx: u32,
    pub ecx: u32,
    pub edx: u32,
}

/// What CPUID returned for one leaf and sub-leaf.
#[derive(Clone, Copy, Debug, PartialEq, Eq, Structural)]
pub struct Leaf {
    pub leaf: u32,
    pub sub: u32,
    pub regs: Regs,
}

/// The registers of a leaf: those of the first entry that names it from entry `i` on, and zeros
/// for a leaf that no entry names.
pub open spec fn regs_of(leaves: Seq<Leaf>, i: int, leaf: u32, sub: u32) -> Regs
    decreases leaves.len() - i,
{
    if i < 0 || i >= leaves.len() {
        Regs { eax: 0, ebx: 0, ecx: 0, edx: 0 }
    } else if leaves[i].leaf == leaf && leaves[i].sub == sub {
        leaves[i].regs
    } else {
        regs_of(leaves, i + 1, leaf, sub)
    }
}

/// See [`regs_of`].
pub fn lookup(leaves: &[Leaf], leaf: u32, sub: u32) -> (r: Regs)
    ensures
        r == regs_of(leaves@, 0, leaf, sub),
{
    let mut i: usize = 0;
    while i < leaves.len()
        invariant
            i <= leaves@.len(),
            regs_of(leaves@, i as int, leaf, sub) == regs_of(leaves@, 0, leaf, sub),
        decreases leaves@.len() - i,
    {
        let e: Leaf = leaves[i];
        if e.leaf == leaf && e.sub == sub {
            return e.regs;
        }
        i = i + 1;
    }
    Regs { eax: 0, ebx: 0, ecx: 0, edx: 0 }
}

/// What a cache holds.
#[derive(Clone, Copy, Debug, PartialEq, Eq, Structural)]
pub enum Holds {
    Nothing,
    Data,
    Instructions,
    Both,
    Reserved,
}

/// One cache of the topology leaf.
#[derive(Clone, Copy, Debug, PartialEq, Eq, Structural)]
pub struct CacheParam {
    pub holds: Holds,
    pub level: u8,
    pub ways: usize,
    pub line: usize,
    pub sets: usize,
    pub partitions: usize,
}

/// Associativity as the legacy leaves encode it.
#[derive(Clone, Copy, Debug, PartialEq, Eq, Structural)]
pub enum Ways {
    Disabled,
    DirectMapped,
    NWay(u8),
    FullyAssociative,
    Unknown,
}

/// One cache of the legacy leaves. The unit of the size depends on the level.
#[derive(Clone, Copy, Debug, PartialEq, Eq, Structural)]
pub struct LegacyCache {
    pub size: u16,
    pub ways: Ways,
    pub line: u8,
}

/// The caches that `raw-cpuid` decodes from the topology leaf (4, or 0x8000_001D on AMD) of a
/// table, in the order of the sub-leaves; `None` where the leaf is not supported.
pub uninterp spec fn cache_parameters(leaves: Seq<Leaf>) -> Option<Seq<CacheParam>>;

/// The registers of leaf 0 spell the name of a vendor that has the legacy leaf of the first level:
/// "AuthenticAMD" or "HygonGenuine", in the order `ebx`, `edx`, `ecx` and each with its low byte
/// first.
pub open spec fn spells_amd(r: Regs) -> bool {
    ||| r.ebx == 0x6874_7541 && r.edx == 0x6974_6e65 && r.ecx == 0x444d_4163
    ||| r.ebx == 0x6f67_7948 && r.edx == 0x6e65_476e && r.ecx == 0x656e_6975
}

/// Whether an extended leaf is one of those that leaf 0x8000_0000 announces.
pub open spec fn announced(leaves: Seq<Leaf>, leaf: u32) -> bool {
    leaf <= regs_of(leaves, 0, 0x8000_0000, 0).eax
}

/// The associativity of the first level, which is a way count of its own.
pub open spec fn l1_ways(code: u8) -> Ways {
    if code == 0 {
        Ways::Disabled
    } else if code == 1 {
        Ways::DirectMapped
    } else if code == 0xff {
        Ways::FullyAssociative
    } else {
        Ways::NWay(code)
    }
}

/// The associativity of the other levels, which is a code.
pub open spec fn l2_ways(code: u8) -> Ways {
    match code {
        0x0 => Ways::Disabled,
        0x1 => Ways::DirectMapped,
        0x2 => Ways::NWay(2),
        0x4 => Ways::NWay(4),
        0x5 => Ways::NWay(6),
        0x6 => Ways::NWay(8),
        0x8 => Ways::NWay(16),
        0xa => Ways::NWay(32),
        0xb => Ways::NWay(48),
        0xc => Ways::NWay(64),
        0xd => Ways::NWay(96),
        0xe => Ways::NWay(128),
        0xf => Ways::FullyAssociative,
        _ => Ways::Unknown,
    }
}

/// The first-level data cache in `ecx` of leaf 0x8000_0005: bits 24..32 for the size, 16..24 for
/// the associativity and 0..8 for the line. Only an AMD processor has the leaf.
pub open spec fn legacy_l1d(leaves: Seq<Leaf>) -> Option<LegacyCache> {
    let r = regs_of(leaves, 0, 0x8000_0005, 0).ecx as int;
    if spells_amd(regs_of(leaves, 0, 0, 0)) && announced(leaves, 0x8000_0005) {
        Some(
            LegacyCache {
                size: (r / 0x100_0000) as u16,
                ways: l1_ways((r / 0x1_0000 % 0x100) as u8),
                line: (r % 0x100) as u8,
            },
        )
    } else {
        None
    }
}

/// The second-level cache in `ecx` of leaf 0x8000_0006: bits 16..32 for the size, 12..16 for the
/// associativity and 0..8 for the line.
pub open spec fn legacy_l2(leaves: Seq<Leaf>) -> Option<LegacyCache> {
    let r = regs_of(leaves, 0, 0x8000_0006, 0).ecx as int;
    if announced(leaves, 0x8000_0006) {
        Some(
            LegacyCache {
                size: (r / 0x1_0000) as u16,
                ways: l2_ways((r / 0x1000 % 0x10) as u8),
                line: (r % 0x100) as u8,
            },
        )
    } else {
        None
    }
}

/// The third-level cache in `edx` of leaf 0x8000_0006: bits 18..32 for the size, 12..16 for the
/// associativity and 0..8 for the line.
pub open spec fn legacy_l3(leaves: Seq<Leaf>) -> Option<LegacyCache> {
    let r = regs_of(leaves, 0, 0x8000_0006, 0).edx as int;
    if announced(leaves, 0x8000_0006) {
        Some(
            LegacyCache {
                size: (r / 0x4_0000) as u16,
                ways: l2_ways((r / 0x1000 % 0x10) as u8),
                line: (r % 0x100) as u8,
            },
        )
    } else {
        None
    }
}

/// The caches of the topology leaf, as `raw_cpuid::CpuId::get_cache_parameters` and the accessors
/// of its items give them for a reader that looks leaves up in the table.
///
/// Claimed: the result depends on the table alone. A set count is decoded as `ecx + 1`, and the
/// walk counts its sub-leaves in 32 bits until one is missing, so a table that would overflow
/// either is left out.
#[verifier::external_body]
fn get_cache_parameters(leaves: &[Leaf]) -> (r: Option<Vec<CacheParam>>)
    requires
        decodable(leaves@),
    ensures
        match cache_parameters(leaves@) {
            Some(s) => r matches Some(v) && v@ == s,
            None => r is None,
        },
{
    let read = |a: u32, c: u32| {
        let r = lookup(leaves, a, c);
        CpuIdResult { eax: r.eax, ebx: r.ebx, ecx: r.ecx, edx: r.edx }
    };
    CpuId::with_cpuid_fn(read).get_cache_parameters().map(|it| it.map(|c| CacheParam {
        holds: match c.cache_type() {
            CacheType::Null => Holds::Nothing,
            CacheType::Data => Holds::Data,
            CacheType::Instruction => Holds::Instructions,
            CacheType::Unified => Holds::Both,
            CacheType::Reserved => Holds::Reserved,
        },
        level: c.level(), ways: c.associativity(), line: c.coherency_line_size(),
        sets: c.sets(), partitions: c.physical_line_partitions(),
    }).collect())
}

/// The first-level data cache, as `raw_cpuid::CpuId::get_l1_cache_and_tlb_info` and the
/// `dcache_*` accessors of its result give it for a reader that looks leaves up in the table.
///
/// Claimed: it is there for an AMD vendor whose extended leaves reach 0x8000_0005, and its fields
/// are those of [`legacy_l1d`]. The vendor is read from the memory of the registers, so this is
/// said of machines that store the low byte first, as those with the instruction do.
#[verifier::external_body]
fn get_legacy_l1d(leaves: &[Leaf]) -> (r: Option<LegacyCache>)
    ensures
        r == legacy_l1d(leaves@),
{
    let read = |a: u32, c: u32| {
        let r = lookup(leaves, a, c);
        CpuIdResult { eax: r.eax, ebx: r.ebx, ecx: r.ecx, edx: r.edx }
    };
    CpuId::with_cpuid_fn(read).get_l1_cache_and_tlb_info().map(|l| LegacyCache {
        size: l.dcache_size() as u16, line: l.dcache_line_size(),
        ways: match l.dcache_associativity() {
            Associativity::Disabled => Ways::Disabled,
            Associativity::DirectMapped => Ways::DirectMapped,
            Associativity::NWay(n) => Ways::NWay(n),
            Associativity::FullyAssociative => Ways::FullyAssociative,
            Associativity::Unknown => Ways::Unknown,
        },
    })
}

/// The second-level cache, as `raw_cpuid::CpuId::get_l2_l3_cache_and_tlb_info` and the
/// `l2cache_*` accessors of its result give it for a reader that looks leaves up in the table.
///
/// Claimed: it is there where the extended leaves reach 0x8000_0006, whatever the vendor, and its
/// fields are those of [`legacy_l2`].
#[verifier::external_body]
fn get_legacy_l2(leaves: &[Leaf]) -> (r: Option<LegacyCache>)
    ensures
        r == legacy_l2(leaves@),
{
    let read = |a: u32, c: u32| {
        let r = lookup(leaves, a, c);
        CpuIdResult { eax: r.eax, ebx: r.ebx, ecx: r.ecx, edx: r.edx }
    };
    CpuId::with_cpuid_fn(read).get_l2_l3_cache_and_tlb_info().map(|l| LegacyCache {
        size: l.l2cache_size(), line: l.l2cache_line_size(),
        ways: match l.l2cache_associativity() {
            Associativity::Disabled => Ways::Disabled,
            Associativity::DirectMapped => Ways::DirectMapped,
            Associativity::NWay(n) => Ways::NWay(n),
            Associativity::FullyAssociative => Ways::FullyAssociative,
            Associativity::Unknown => Ways::Unknown,
        },
    })
}

/// The third-level cache, as `raw_cpuid::CpuId::get_l2_l3_cache_and_tlb_info` and the
/// `l3cache_*` accessors of its result give it for a reader that looks leaves up in the table.
///
/// Claimed: it is there where the extended leaves reach 0x8000_0006, whatever the vendor, and its
/// fields are those of [`legacy_l3`].
#[verifier::external_body]
fn get_legacy_l3(leaves: &[Leaf]) -> (r: Option<LegacyCache>)
    ensures
        r == legacy_l3(leaves@),
{
    let read = |a: u32, c: u32| {
        let r = lookup(leaves, a, c);
        CpuIdResult { eax: r.eax, ebx: r.ebx, ecx: r.ecx, edx: r.edx }
    };
    CpuId::with_cpuid_fn(read).get_l2_l3_cache_and_tlb_info().map(|l| LegacyCache {
        size: l.l3cache_size(), line: l.l3cache_line_size(),
        ways: match l.l3cache_associativity() {
            Associativity::Disabled => Ways::Disabled,
            Associativity::DirectMapped => Ways::DirectMapped,
            Associativity::NWay(n) => Ways::NWay(n),
            Associativity::FullyAssociative => Ways::FullyAssociative,
            Associativity::Unknown => Ways::Unknown,
        },
    })
}

/// An associativity as a way count. A fully associative cache counts as one that no way count
/// constrains, and an unknown associativity as a typical one.
pub open spec fn ways_spec(a: Ways) -> usize {
    match a {
        Ways::DirectMapped => 1,
        Ways::NWay(n) => n as usize,
        Ways::FullyAssociative => 64,
        _ => 8,
    }
}

/// See [`ways_spec`].
pub fn assoc_num(a: Ways) -> (r: usize)
    ensures
        r == ways_spec(a),
{
    match a {
        Ways::DirectMapped => 1,
        Ways::NWay(n) => n as usize,
        Ways::FullyAssociative => 64,
        _ => 8,
    }
}

impl CacheParam {
    /// The cache holds data and stands at a level.
    pub open spec fn stands_at(self, level: u8) -> bool {
        (self.holds == Holds::Data || self.holds == Holds::Both) && self.level == level
    }

    /// The cache as a level: its size is `ways * line * sets * partitions`.
    pub open spec fn as_level(self) -> Level {
        Level {
            bytes: saturate(
                saturate(saturate(self.ways * self.line) * self.sets) * self.partitions,
            ) as usize,
            assoc: self.ways,
            line: self.line,
            shared_by: 1,
        }
    }

    fn to_level(&self) -> (r: Level)
        ensures
            r == self.as_level(),
    {
        Level {
            bytes: saturating_mul(
                saturating_mul(saturating_mul(self.ways, self.line), self.sets),
                self.partitions,
            ),
            assoc: self.ways,
            line: self.line,
            shared_by: 1,
        }
    }
}

/// The first cache among the entries `i..n` that holds data at a level.
pub open spec fn first_at(ps: Seq<CacheParam>, i: int, n: int, level: u8) -> Option<Level>
    decreases n - i,
{
    if i < 0 || i >= n {
        None
    } else if ps[i].stands_at(level) {
        Some(ps[i].as_level())
    } else {
        first_at(ps, i + 1, n, level)
    }
}

/// Looking one entry further.
proof fn lemma_first_at_grows(ps: Seq<CacheParam>, i: int, n: int, level: u8)
    requires
        0 <= i <= n,
    ensures
        first_at(ps, i, n + 1, level) == (match first_at(ps, i, n, level) {
            Some(e) => Some(e),
            None => if ps[n].stands_at(level) {
                Some(ps[n].as_level())
            } else {
                None
            },
        }),
    decreases n - i,
{
    if i < n {
        lemma_first_at_grows(ps, i + 1, n, level);
    } else {
        assert(first_at(ps, n + 1, n + 1, level) is None);
    }
}

/// The topology of the caches of the topology leaf: the first that holds data at each level.
/// `None` without a first or a second level.
pub open spec fn topology_of(ps: Seq<CacheParam>) -> Option<CacheTopology> {
    let n = ps.len() as int;
    match (first_at(ps, 0, n, 1), first_at(ps, 0, n, 2)) {
        (Some(l1d), Some(l2)) => Some(CacheTopology { l1d, l2, l3: first_at(ps, 0, n, 3) }),
        _ => None,
    }
}

/// See [`topology_of`].
pub fn topology_from(params: &[CacheParam]) -> (r: Option<CacheTopology>)
    ensures
        r == topology_of(params@),
{
    let ghost ps = params@;
    let mut l1d: Option<Level> = None;
    let mut l2: Option<Level> = None;
    let mut l3: Option<Level> = None;
    let mut i: usize = 0;
    while i < params.len()
        invariant
            ps == params@,
            i <= ps.len(),
            l1d == first_at(ps, 0, i as int, 1),
            l2 == first_at(ps, 0, i as int, 2),
            l3 == first_at(ps, 0, i as int, 3),
        decreases ps.len() - i,
    {
        let c: CacheParam = params[i];
        proof {
            lemma_first_at_grows(ps, 0, i as int, 1);
            lemma_first_at_grows(ps, 0, i as int, 2);
            lemma_first_at_grows(ps, 0, i as int, 3);
        }
        match c.holds {
            Holds::Data | Holds::Both => {
                if c.level == 1 && l1d.is_none() {
                    l1d = Some(c.to_level());
                } else if c.level == 2 && l2.is_none() {
                    l2 = Some(c.to_level());
                } else if c.level == 3 && l3.is_none() {
                    l3 = Some(c.to_level());
                }
            },
            _ => {},
        }
        i = i + 1;
    }
    match (l1d, l2) {
        (Some(l1d), Some(l2)) => Some(CacheTopology { l1d, l2, l3 }),
        _ => None,
    }
}

/// A legacy cache as a level, its size in units of `unit` bytes.
pub open spec fn legacy_level(c: LegacyCache, unit: usize) -> Level {
    Level {
        bytes: saturate(c.size * unit) as usize,
        assoc: ways_spec(c.ways),
        line: c.line as usize,
        shared_by: 1,
    }
}

fn level_from(c: LegacyCache, unit: usize) -> (r: Level)
    ensures
        r == legacy_level(c, unit),
{
    Level {
        bytes: saturating_mul(c.size as usize, unit),
        assoc: assoc_num(c.ways),
        line: c.line as usize,
        shared_by: 1,
    }
}

/// The topology of the legacy leaves, which must both be there. The third level counts in units
/// of 512 KiB, the others in KiB, and a zero third level is none.
pub open spec fn legacy_topology(
    l1d: Option<LegacyCache>,
    l2: Option<LegacyCache>,
    l3: Option<LegacyCache>,
) -> Option<CacheTopology> {
    match (l1d, l2, l3) {
        (Some(l1d), Some(l2), Some(l3)) => Some(
            CacheTopology {
                l1d: legacy_level(l1d, 1024),
                l2: legacy_level(l2, 1024),
                l3: if l3.size > 0 {
                    Some(legacy_level(l3, 524288))
                } else {
                    None
                },
            },
        ),
        _ => None,
    }
}

/// See [`legacy_topology`].
pub fn legacy_from(
    l1d: Option<LegacyCache>,
    l2: Option<LegacyCache>,
    l3: Option<LegacyCache>,
) -> (r: Option<CacheTopology>)
    ensures
        r == legacy_topology(l1d, l2, l3),
{
    match (l1d, l2, l3) {
        (Some(l1d), Some(l2), Some(l3)) => Some(
            CacheTopology {
                l1d: level_from(l1d, 1024),
                l2: level_from(l2, 1024),
                l3: if l3.size > 0 {
                    Some(level_from(l3, 524288))
                } else {
                    None
                },
            },
        ),
        _ => None,
    }
}

/// What the topology leaf of a table describes.
pub open spec fn topology_leaf(leaves: Seq<Leaf>) -> Option<CacheTopology> {
    match cache_parameters(leaves) {
        Some(ps) => topology_of(ps),
        None => None,
    }
}

/// No set count of a topology leaf overflows when it is decoded, and the table has too few entries
/// for a walk over the sub-leaves of a leaf to run out of numbers.
pub open spec fn decodable(leaves: Seq<Leaf>) -> bool {
    &&& leaves.len() <= u32::MAX
    &&& forall|i: int| 0 <= i < leaves.len() ==> counts_sets(#[trigger] leaves[i])
}

/// A topology leaf does not have a set count that overflows.
pub open spec fn counts_sets(l: Leaf) -> bool {
    l.leaf == 4 || l.leaf == 0x8000_001d ==> l.regs.ecx < u32::MAX
}

/// The topology of the topology leaf.
pub fn detect_topology_leaf(leaves: &[Leaf]) -> (r: Option<CacheTopology>)
    requires
        decodable(leaves@),
    ensures
        r == topology_leaf(leaves@),
{
    match get_cache_parameters(leaves) {
        Some(params) => topology_from(params.as_slice()),
        None => None,
    }
}

/// The topology of the legacy leaves.
pub fn detect_amd_legacy(leaves: &[Leaf]) -> (r: Option<CacheTopology>)
    ensures
        r == legacy_topology(legacy_l1d(leaves@), legacy_l2(leaves@), legacy_l3(leaves@)),
{
    legacy_from(get_legacy_l1d(leaves), get_legacy_l2(leaves), get_legacy_l3(leaves))
}

/// The topology that a table of leaves describes: the topology leaf, which tells the caches that
/// one core reaches, and otherwise the legacy leaves.
pub open spec fn described(leaves: Seq<Leaf>) -> Option<CacheTopology> {
    match topology_leaf(leaves) {
        Some(t) => Some(t),
        None => legacy_topology(legacy_l1d(leaves), legacy_l2(leaves), legacy_l3(leaves)),
    }
}

/// See [`decodable`].
pub fn is_decodable(leaves: &[Leaf]) -> (r: bool)
    ensures
        r == decodable(leaves@),
{
    if leaves.len() > u32::MAX as usize {
        return false;
    }
    let mut i: usize = 0;
    while i < leaves.len()
        invariant
            i <= leaves@.len() <= u32::MAX,
            forall|x: int| 0 <= x < i ==> counts_sets(#[trigger] leaves@[x]),
        decreases leaves@.len() - i,
    {
        let l: Leaf = leaves[i];
        if (l.leaf == 4 || l.leaf == 0x8000_001d) && l.regs.ecx == u32::MAX {
            return false;
        }
        i = i + 1;
    }
    true
}

/// See [`described`].
pub fn detect(leaves: &[Leaf]) -> (r: Option<CacheTopology>)
    requires
        decodable(leaves@),
    ensures
        r == described(leaves@),
{
    match detect_topology_leaf(leaves) {
        Some(t) => Some(t),
        None => detect_amd_legacy(leaves),
    }
}

} // verus!
