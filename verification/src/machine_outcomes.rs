//! What the readings of a machine tell about its caches.

use vstd::arithmetic::div_mod::*;
use vstd::arithmetic::power2::*;
use vstd::prelude::*;

use crate::cache::{
    believed_page, doubled_to, first_plausible, next_pow2, plausible_spec, zen5_fallback_spec,
    CacheTopology, Level,
};
use crate::cpuid::{
    counts_sets, decodable, described, l1_ways, l2_ways, legacy_l1d, legacy_l2, legacy_l3,
    legacy_topology, regs_of, topology_leaf, ways_spec, CacheParam, Holds, Leaf, LegacyCache,
    Regs, Ways,
};
use crate::probes::{cpuid_probe, probed, Readings};
use crate::sysctl::SysctlKeys;
use crate::sysfs::{ids_of_list, listed, size_of_text, CacheEntry};
use crate::text::{parsed, trimmed};
use crate::{cpuid, sysctl, sysfs};

verus! {

/// What a worker can count on of a shared cache: its share, rounded down.
pub proof fn law_share_of_a_cache(l: Level)
    ensures
        l.shared_by > 0 ==> l.shared_by * l.effective() <= l.bytes < l.shared_by * (l.effective()
            + 1),
        l.shared_by <= 1 ==> l.effective() == l.bytes,
{
    lemma_div_basics(l.bytes as int);
    if l.shared_by > 0 {
        let (b, s) = (l.bytes as int, l.shared_by as int);
        lemma_fundamental_div_mod(b, s);
        lemma_mod_bound(b, s);
        let q = l.effective();
        assert(s * (q + 1) == s * q + s) by (nonlinear_arith);
    }
}

/// A leaf is looked up in the first entry that names it, and reads as zeros where none does.
pub proof fn law_leaf_lookup(leaves: Seq<Leaf>, i: int, leaf: u32, sub: u32, from: int)
    requires
        0 <= from <= i <= leaves.len(),
        forall|x: int|
            from <= x < i ==> (#[trigger] leaves[x]).leaf != leaf || leaves[x].sub != sub,
        i < leaves.len() ==> leaves[i].leaf == leaf && leaves[i].sub == sub,
    ensures
        regs_of(leaves, from, leaf, sub) == (if i < leaves.len() {
            leaves[i].regs
        } else {
            Regs { eax: 0, ebx: 0, ecx: 0, edx: 0 }
        }),
    decreases i - from,
{
    if from < i {
        assert(leaves[from].leaf != leaf || leaves[from].sub != sub);
        law_leaf_lookup(leaves, i, leaf, sub, from + 1);
    }
}

/// The first-level data cache of an AMD processor: the fields of a register put together from a
/// size, an associativity, the lines of a tag and a line.
pub proof fn law_legacy_first_level(leaves: Seq<Leaf>, size: u8, ways: u8, tag: u8, line: u8)
    requires
        regs_of(leaves, 0, 0x8000_0005, 0).ecx == size * 0x100_0000 + ways * 0x1_0000 + tag * 0x100
            + line,
    ensures
        ({
            let name = regs_of(leaves, 0, 0, 0);
            let amd = name.ebx == 0x6874_7541 && name.edx == 0x6974_6e65 && name.ecx == 0x444d_4163;
            let hygon = name.ebx == 0x6f67_7948 && name.edx == 0x6e65_476e && name.ecx
                == 0x656e_6975;
            legacy_l1d(leaves) == (if (amd || hygon) && regs_of(leaves, 0, 0x8000_0000, 0).eax
                >= 0x8000_0005 {
                Some(LegacyCache { size: size as u16, ways: l1_ways(ways), line })
            } else {
                None
            })
        }),
{
}

/// The fields of a register.
proof fn lemma_fields(r: int, high: int, code: int, tag: int, line: int)
    requires
        r == high * 0x1_0000 + code * 0x1000 + tag * 0x100 + line,
        0 <= high,
        0 <= code < 16,
        0 <= tag < 16,
        0 <= line < 256,
    ensures
        r / 0x1_0000 == high,
        r / 0x1000 % 0x10 == code,
        r % 0x100 == line,
{
    assert(r / 0x1000 == high * 16 + code);
}

/// The second- and the third-level cache, likewise. `low` are the bits of the third level's
/// register that no field uses.
pub proof fn law_legacy_other_levels(
    leaves: Seq<Leaf>,
    size2: u16,
    code2: u8,
    tag2: u8,
    line2: u8,
    size3: u16,
    low: u8,
    code3: u8,
    tag3: u8,
    line3: u8,
)
    requires
        code2 < 16,
        tag2 < 16,
        size3 < 0x4000,
        low < 4,
        code3 < 16,
        tag3 < 16,
        regs_of(leaves, 0, 0x8000_0006, 0).ecx == size2 * 0x1_0000 + code2 * 0x1000 + tag2 * 0x100
            + line2,
        regs_of(leaves, 0, 0x8000_0006, 0).edx == size3 * 0x4_0000 + low * 0x1_0000 + code3 * 0x1000
            + tag3 * 0x100 + line3,
    ensures
        ({
            let there = regs_of(leaves, 0, 0x8000_0000, 0).eax >= 0x8000_0006;
            &&& legacy_l2(leaves) == (if there {
                Some(LegacyCache { size: size2, ways: l2_ways(code2), line: line2 })
            } else {
                None
            })
            &&& legacy_l3(leaves) == (if there {
                Some(LegacyCache { size: size3, ways: l2_ways(code3), line: line3 })
            } else {
                None
            })
        }),
{
    let (c, d) = (
        regs_of(leaves, 0, 0x8000_0006, 0).ecx as int,
        regs_of(leaves, 0, 0x8000_0006, 0).edx as int,
    );
    lemma_fields(c, size2 as int, code2 as int, tag2 as int, line2 as int);
    lemma_fields(d, size3 * 4 + low, code3 as int, tag3 as int, line3 as int);
    assert(d / 0x4_0000 == size3);
}

/// The codes of an associativity. An even code from 2 to 14 stands for a power of two, and each
/// of the odd ones that have a meaning for half as much again as the code before it. The first
/// level gives the number itself.
pub proof fn law_way_codes(e: nat, n: u8)
    ensures
        1 <= e <= 7 ==> l2_ways((2 * e) as u8) == Ways::NWay(pow2(e) as u8),
        ways_spec(l2_ways(5)) * 2 == ways_spec(l2_ways(4)) * 3,
        ways_spec(l2_ways(11)) * 2 == ways_spec(l2_ways(10)) * 3,
        ways_spec(l2_ways(13)) * 2 == ways_spec(l2_ways(12)) * 3,
        l2_ways(0) == Ways::Disabled,
        l2_ways(1) == Ways::DirectMapped,
        l2_ways(15) == Ways::FullyAssociative,
        n == 3 || n == 7 || n == 9 || n > 15 ==> l2_ways(n) == Ways::Unknown,
        1 < n < 255 ==> l1_ways(n) == Ways::NWay(n),
        l1_ways(0) == Ways::Disabled,
        l1_ways(1) == Ways::DirectMapped,
        l1_ways(255) == Ways::FullyAssociative,
        ways_spec(Ways::NWay(n)) == n,
        ways_spec(Ways::DirectMapped) == 1,
        ways_spec(Ways::Disabled) == ways_spec(Ways::Unknown),
        ways_spec(Ways::Unknown) == ways_spec(Ways::NWay(8)),
        ways_spec(Ways::FullyAssociative) == ways_spec(Ways::NWay(64)),
{
    lemma2_to64();
}

/// The levels that the legacy leaves describe: kibibytes, and units of 512 kibibytes at the third
/// level, which a size of zero leaves out. All three must have been read.
pub proof fn law_legacy_sizes(
    l1d: Option<LegacyCache>,
    l2: Option<LegacyCache>,
    l3: Option<LegacyCache>,
)
    requires
        0xffff * 0x8_0000 <= usize::MAX,
    ensures
        legacy_topology(l1d, l2, l3) is Some <==> l1d is Some && l2 is Some && l3 is Some,
        legacy_topology(l1d, l2, l3) matches Some(t) ==> {
            &&& t.l1d.bytes == 1024 * l1d->0.size && t.l1d.line == l1d->0.line
            &&& t.l2.bytes == 1024 * l2->0.size && t.l2.line == l2->0.line
            &&& t.l1d.assoc == ways_spec(l1d->0.ways) && t.l2.assoc == ways_spec(l2->0.ways)
            &&& t.l1d.shared_by == 1 && t.l2.shared_by == 1
            &&& t.l3 is Some <==> l3->0.size > 0
            &&& t.l3 matches Some(l) ==> l.bytes == 512 * (1024 * l3->0.size) && l.line
                == l3->0.line && l.assoc == ways_spec(l3->0.ways) && l.shared_by == 1
        },
{
}

/// What the topology leaf finds at a level: the first cache there that holds data. Its size is the
/// product of its dimensions, where that fits, and it counts as private.
pub proof fn law_cpuid_level(ps: Seq<CacheParam>, i: int, n: int, level: u8, from: int)
    requires
        0 <= from <= i <= n <= ps.len(),
        forall|x: int|
            from <= x < i ==> (#[trigger] ps[x]).level != level || ps[x].holds == Holds::Nothing
                || ps[x].holds == Holds::Instructions || ps[x].holds == Holds::Reserved,
        i < n ==> ps[i].level == level && (ps[i].holds == Holds::Data || ps[i].holds
            == Holds::Both),
    ensures
        cpuid::first_at(ps, from, n, level) is Some <==> i < n,
        cpuid::first_at(ps, from, n, level) matches Some(l) ==> {
            let p = ps[i];
            &&& l.assoc == p.ways
            &&& l.line == p.line
            &&& l.shared_by == 1
            &&& p.ways * p.line * p.sets * p.partitions <= usize::MAX && p.sets > 0 && p.partitions
                > 0 ==> l.bytes == p.ways * p.line * p.sets * p.partitions
        },
    decreases i - from,
{
    if from < i {
        assert(!ps[from].stands_at(level));
        law_cpuid_level(ps, i, n, level, from + 1);
    } else if i < n {
        let p = ps[i];
        let (a, b, c) = (p.ways * p.line, p.sets as int, p.partitions as int);
        assert(a >= 0) by (nonlinear_arith)
            requires
                a == p.ways * p.line,
                p.ways >= 0,
                p.line >= 0,
        ;
        if a * b * c <= usize::MAX && b > 0 && c > 0 {
            assert(a <= a * b && a * b <= a * b * c) by (nonlinear_arith)
                requires
                    a >= 0,
                    b > 0,
                    c > 0,
            ;
        }
    }
}

/// The topology leaf needs a first and a second level, and a third one may be missing. What it
/// tells is preferred to the legacy leaves.
pub proof fn law_cpuid_sources(leaves: Seq<Leaf>, ps: Seq<CacheParam>)
    ensures
        ({
            let n = ps.len() as int;
            let (l1, l2) = (cpuid::first_at(ps, 0, n, 1), cpuid::first_at(ps, 0, n, 2));
            &&& cpuid::topology_of(ps) is Some <==> l1 is Some && l2 is Some
            &&& cpuid::topology_of(ps) matches Some(t) ==> Some(t.l1d) == l1 && Some(t.l2) == l2
                && t.l3 == cpuid::first_at(ps, 0, n, 3)
        }),
        topology_leaf(leaves) is Some ==> described(leaves) == topology_leaf(leaves),
        topology_leaf(leaves) is None ==> described(leaves) == legacy_topology(
            legacy_l1d(leaves),
            legacy_l2(leaves),
            legacy_l3(leaves),
        ),
{
}

/// An entry of sysfs that describes a cache: each of its files reads as said, and one of the first
/// level holds data.
pub open spec fn entry_reads(e: CacheEntry, level: usize, l: Level, cpus: int) -> bool {
    &&& e.level matches Some(s) && parsed(trimmed(s@)) == Some(level)
    &&& e.size matches Some(s) && size_of_text(trimmed(s@)) == Some(l.bytes)
    &&& e.ways matches Some(s) && parsed(trimmed(s@)) == Some(l.assoc)
    &&& e.line matches Some(s) && parsed(trimmed(s@)) == Some(l.line)
    &&& e.shared is None ==> cpus == 1
    &&& e.shared matches Some(s) ==> ({
        let ids = ids_of_list(trimmed(s@));
        cpus == if ids < 1 {
            1
        } else if ids > usize::MAX {
            usize::MAX as int
        } else {
            ids
        }
    })
    &&& l.bytes > 0
    &&& l.assoc > 0
    &&& l.line > 0
    &&& level == 1 ==> (e.kind matches Some(s) && (trimmed(s@) == "Data"@ || trimmed(s@)
        == "Unified"@))
}

/// No entry among `from..to` describes a cache of a level.
pub open spec fn none_reads(es: Seq<CacheEntry>, from: int, to: int, level: usize) -> bool {
    forall|x: int, l: Level, cpus: int|
        from <= x < to ==> !#[trigger] entry_reads(es[x], level, l, cpus)
}

proof fn lemma_entry_reads(e: CacheEntry, level: usize)
    ensures
        e.stands_at(level) ==> (e.as_level() matches Some((l, c)) && entry_reads(
            e,
            level,
            l,
            c as int,
        )),
{
}

proof fn lemma_reads_level(e: CacheEntry, level: usize, l: Level, cpus: int)
    requires
        entry_reads(e, level, l, cpus),
    ensures
        e.stands_at(level),
        e.as_level() == Some((Level { shared_by: 1, ..l }, cpus as usize)),
        1 <= cpus <= usize::MAX,
{
}

proof fn lemma_sysfs_first(es: Seq<CacheEntry>, i: int, n: int, level: usize, from: int)
    requires
        0 <= from <= i <= n,
        none_reads(es, from, i, level),
        i < n ==> es[i].stands_at(level),
    ensures
        sysfs::first_at(es, from, n, level) == (if i < n {
            es[i].as_level()
        } else {
            None
        }),
    decreases i - from,
{
    if from < i {
        lemma_entry_reads(es[from], level);
        lemma_sysfs_first(es, i, n, level, from + 1);
    }
}

/// Where the list of entries ends: at the first that has no readable level, and at 64 entries.
pub proof fn law_sysfs_end(es: Seq<CacheEntry>, n: int, from: int)
    requires
        0 <= from <= n <= es.len(),
        n <= 64,
        forall|x: int|
            from <= x < n ==> ((#[trigger] es[x]).level matches Some(s) && parsed(trimmed(s@))
                is Some),
        n < es.len() && n < 64 ==> (es[n].level matches Some(s) ==> parsed(trimmed(s@)) is None),
    ensures
        listed(es, from) == n,
    decreases n - from,
{
    if from < n {
        assert(es[from].level is Some);
        law_sysfs_end(es, n, from + 1);
    }
}

/// The topology that sysfs describes: the first entry of each level that reads as a cache. The
/// second level is shared by as many workers as it has CPUs for each CPU of the first, rounded
/// down and at least one; the others count as private. `i3` is past the end where there is no
/// third level.
pub proof fn law_sysfs_levels(
    es: Seq<CacheEntry>,
    n: int,
    i1: int,
    l1: Level,
    c1: int,
    i2: int,
    l2: Level,
    c2: int,
    i3: int,
    l3: Level,
    c3: int,
)
    requires
        n == listed(es, 0),
        0 <= i1 < n,
        0 <= i2 < n,
        0 <= i3 <= n,
        none_reads(es, 0, i1, 1),
        none_reads(es, 0, i2, 2),
        none_reads(es, 0, i3, 3),
        entry_reads(es[i1], 1, l1, c1),
        entry_reads(es[i2], 2, l2, c2),
        i3 < n ==> entry_reads(es[i3], 3, l3, c3),
    ensures
        sysfs::topology_of(es) matches Some(t) && {
            &&& t.l1d == (Level { shared_by: 1, ..l1 })
            &&& t.l2 == (Level { shared_by: t.l2.shared_by, ..l2 })
            &&& t.l2.shared_by >= 1
            &&& t.l2.shared_by > 1 ==> t.l2.shared_by * c1 <= c2
            &&& c2 < (t.l2.shared_by + 1) * c1
            &&& t.l3 == (if i3 < n {
                Some(Level { shared_by: 1, ..l3 })
            } else {
                None
            })
        },
{
    lemma_reads_level(es[i1], 1, l1, c1);
    lemma_reads_level(es[i2], 2, l2, c2);
    if i3 < n {
        lemma_reads_level(es[i3], 3, l3, c3);
    }
    lemma_sysfs_first(es, i1, n, 1, 0);
    lemma_sysfs_first(es, i2, n, 2, 0);
    lemma_sysfs_first(es, i3, n, 3, 0);
    let q = c2 / c1;
    lemma_fundamental_div_mod(c2, c1);
    lemma_mod_bound(c2, c1);
    lemma_div_pos_is_pos(c2, c1);
    assert(c1 * q == q * c1) by (nonlinear_arith);
    assert((q + 1) * c1 == q * c1 + c1) by (nonlinear_arith);
    assert(q <= c2) by {
        lemma_div_is_ordered_by_denominator(c2, 1, c1);
        lemma_div_basics(c2);
    }
    if q == 0 {
        assert((1 + 1) * c1 == 2 * c1);
    }
}

/// Without a first or without a second level sysfs describes nothing.
pub proof fn law_sysfs_needs_two_levels(es: Seq<CacheEntry>)
    ensures
        none_reads(es, 0, listed(es, 0), 1) || none_reads(es, 0, listed(es, 0), 2)
            ==> sysfs::topology_of(es) is None,
{
    lemma_listed_nonneg(es, 0);
    let n = listed(es, 0);
    if none_reads(es, 0, n, 1) {
        lemma_sysfs_first(es, n, n, 1, 0);
    }
    if none_reads(es, 0, n, 2) {
        lemma_sysfs_first(es, n, n, 2, 0);
    }
}

proof fn lemma_listed_nonneg(es: Seq<CacheEntry>, i: int)
    ensures
        listed(es, i) >= i,
    decreases es.len() - i,
{
    if 0 <= i < es.len() {
        lemma_listed_nonneg(es, i + 1);
    }
}

/// The keys of the performance cores come first, and the flat keys stand in where they are
/// missing: a flat key changes nothing beside the other one, and everything in its place. A first
/// and a second level are needed. A third level of no bytes is none.
pub proof fn law_sysctl_keys(k: SysctlKeys, v: u64, w: Option<u64>)
    ensures
        k.perf_l1d is Some ==> sysctl::topology_of(k) == sysctl::topology_of(
            SysctlKeys { flat_l1d: w, ..k },
        ),
        k.perf_l2 is Some ==> sysctl::topology_of(k) == sysctl::topology_of(
            SysctlKeys { flat_l2: w, ..k },
        ),
        k.perf_l3 is Some ==> sysctl::topology_of(k) == sysctl::topology_of(
            SysctlKeys { flat_l3: w, ..k },
        ),
        sysctl::topology_of(SysctlKeys { perf_l1d: None, flat_l1d: w, ..k })
            == sysctl::topology_of(SysctlKeys { perf_l1d: w, ..k }) || w is None,
        sysctl::topology_of(SysctlKeys { perf_l2: None, flat_l2: w, ..k }) == sysctl::topology_of(
            SysctlKeys { perf_l2: w, ..k },
        ) || w is None,
        sysctl::topology_of(SysctlKeys { perf_l3: None, flat_l3: w, ..k }) == sysctl::topology_of(
            SysctlKeys { perf_l3: w, ..k },
        ) || w is None,
        sysctl::topology_of(SysctlKeys { perf_l3: Some(0), ..k }) == sysctl::topology_of(
            SysctlKeys { perf_l3: None, flat_l3: None, ..k },
        ),
        sysctl::topology_of(SysctlKeys { line: None, ..k }) == sysctl::topology_of(
            SysctlKeys { line: Some(64), ..k },
        ),
        sysctl::topology_of(SysctlKeys { cpus_per_l2: None, ..k }) == sysctl::topology_of(
            SysctlKeys { cpus_per_l2: Some(1), ..k },
        ),
        sysctl::topology_of(SysctlKeys { cpus_per_l2: Some(0), ..k }) == sysctl::topology_of(
            SysctlKeys { cpus_per_l2: Some(1), ..k },
        ),
        sysctl::topology_of(k) is Some <==> (k.perf_l1d is Some || k.flat_l1d is Some) && (k.perf_l2
            is Some || k.flat_l2 is Some),
{
}

/// What the keys say is taken over: the sizes, the line of every level, and by how many CPUs the
/// second level is shared. The others count as private.
pub proof fn law_sysctl_values(k: SysctlKeys, l1: u64, l2: u64, l3: u64, line: u64, cpus: u64)
    requires
        k.perf_l1d == Some(l1),
        k.perf_l2 == Some(l2),
        k.perf_l3 == Some(l3),
        k.line == Some(line),
        k.cpus_per_l2 == Some(cpus),
        cpus > 0,
        l3 > 0,
        l1 <= usize::MAX,
        l2 <= usize::MAX,
        l3 <= usize::MAX,
        line <= usize::MAX,
        cpus <= usize::MAX,
    ensures
        sysctl::topology_of(k) matches Some(t) && {
            &&& t.l1d.bytes == l1 && t.l1d.line == line && t.l1d.shared_by == 1
            &&& t.l2.bytes == l2 && t.l2.line == line && t.l2.shared_by == cpus
            &&& t.l1d.assoc == t.l2.assoc && t.l2.assoc == 8
            &&& t.l3 matches Some(l) && l.bytes == l3 && l.line == line && l.shared_by == 1
                && l.assoc == 2 * t.l2.assoc
        },
{
}

/// The first reading that can be believed is taken, in the order in which they are given, and the
/// fallback geometry where none can.
pub proof fn law_first_plausible(probes: Seq<Option<CacheTopology>>, i: int)
    requires
        0 <= i <= probes.len(),
        forall|x: int|
            0 <= x < i ==> ((#[trigger] probes[x]) matches Some(t) ==> !plausible_spec(t)),
        i < probes.len() ==> (probes[i] matches Some(t) && plausible_spec(t)),
    ensures
        i < probes.len() ==> Some(first_plausible(probes)) == probes[i],
        i == probes.len() ==> first_plausible(probes) == zen5_fallback_spec(),
    decreases i,
{
    if i > 0 {
        let rest = probes.skip(1);
        assert(probes[0] == probes[0]);
        assert forall|x: int| 0 <= x < i - 1 implies ((#[trigger] rest[x]) matches Some(t)
            ==> !plausible_spec(t)) by {
            assert(rest[x] == probes[x + 1]);
        }
        if i < probes.len() {
            assert(rest[i - 1] == probes[i]);
        }
        law_first_plausible(rest, i - 1);
    }
}

/// CPUID is asked first, then sysfs, then sysctl.
pub proof fn law_order_of_the_probes(r: Readings)
    ensures
        ({
            let (a, b, c) = (
                cpuid_probe(r.leaves),
                sysfs::topology_of(r.entries@),
                sysctl::topology_of(r.keys),
            );
            let m = probed(r).cache;
            let (ok_a, ok_b, ok_c) = (
                a is Some && plausible_spec(a->0),
                b is Some && plausible_spec(b->0),
                c is Some && plausible_spec(c->0),
            );
            &&& ok_a ==> Some(m) == a
            &&& !ok_a && ok_b ==> Some(m) == b
            &&& !ok_a && !ok_b && ok_c ==> Some(m) == c
            &&& !ok_a && !ok_b && !ok_c ==> m == zen5_fallback_spec()
        }),
        probed(r).page_size == believed_page(r.page_size),
{
    reveal_with_fuel(first_plausible, 5);
    let s = seq![
        cpuid_probe(r.leaves),
        sysfs::topology_of(r.entries@),
        sysctl::topology_of(r.keys),
    ];
    assert(s.skip(1)[0] == s[1]);
    assert(s.skip(1).skip(1)[0] == s[2]);
}

/// A reading is believed exactly when every level that it has, of which the third may be missing,
/// has at least 4 KiB, lines of at least 16 bytes, and a way. A larger cache is as good.
pub proof fn law_plausible_readings(t: CacheTopology, more: CacheTopology)
    requires
        more.l1d.bytes >= t.l1d.bytes,
        more.l1d.line >= t.l1d.line,
        more.l1d.assoc >= t.l1d.assoc,
        more.l2.bytes >= t.l2.bytes,
        more.l2.line >= t.l2.line,
        more.l2.assoc >= t.l2.assoc,
        more.l3 is None,
    ensures
        plausible_spec(t) ==> plausible_spec(more),
        plausible_spec(more) <==> more.l1d.bytes >= 4096 && more.l2.bytes >= 4096 && more.l1d.line
            >= 16 && more.l2.line >= 16 && more.l1d.assoc > 0 && more.l2.assoc > 0,
        forall|l: Level|
            #![trigger l.bytes]
            plausible_spec(CacheTopology { l3: Some(l), ..more }) <==> plausible_spec(more)
                && plausible_spec(CacheTopology { l1d: l, ..more }),
        plausible_spec(zen5_fallback_spec()),
{
    assert forall|l: Level|
        #![trigger l.bytes]
        plausible_spec(CacheTopology { l3: Some(l), ..more }) <==> plausible_spec(more)
            && plausible_spec(CacheTopology { l1d: l, ..more }) by {}
}

proof fn lemma_doubled_to_pow2(e: nat, d: nat)
    requires
        d <= e,
    ensures
        doubled_to(pow2(d) as int, pow2(e) as int) == pow2(e),
    decreases e - d,
{
    lemma_pow2_pos(d);
    if d < e {
        lemma_pow2_strictly_increases(d, e);
        lemma_pow2_unfold(d + 1);
        lemma_doubled_to_pow2(e, d + 1);
    }
}

proof fn lemma_doubled_to_is_pow2(d: nat, x: int) -> (e: nat)
    ensures
        d <= e,
        doubled_to(pow2(d) as int, x) == pow2(e),
        pow2(e) >= x,
        e > d ==> pow2((e - 1) as nat) < x,
    decreases (if pow2(d) < x { x - pow2(d) } else { 0 }),
{
    lemma_pow2_pos(d);
    if pow2(d) < x {
        lemma_pow2_unfold(d + 1);
        let e = lemma_doubled_to_is_pow2(d + 1, x);
        if e == d + 1 {
            assert(pow2((e - 1) as nat) < x);
        }
        e
    } else {
        d
    }
}

/// The least power of two that is at least `x`, for a positive `x`.
pub proof fn law_next_power_of_two(x: int, e: nat)
    requires
        x > 0,
    ensures
        next_pow2(x) >= x,
        next_pow2(x) < 2 * x,
        exists|f: nat| next_pow2(x) == #[trigger] pow2(f),
        next_pow2(pow2(e) as int) == pow2(e),
{
    lemma2_to64();
    let f = lemma_doubled_to_is_pow2(0, x);
    lemma_doubled_to_pow2(e, 0);
    if f > 0 {
        lemma_pow2_unfold(f);
    }
}

/// A reported page size is believed exactly when it is a power of two from 4 KiB to 2 MiB.
pub proof fn law_believed_pages(reported: usize, e: nat)
    ensures
        12 <= e <= 21 ==> believed_page(pow2(e) as usize) == pow2(e),
        (forall|f: nat| 12 <= f <= 21 ==> #[trigger] pow2(f) != reported) ==> believed_page(
            reported,
        ) == 4096,
{
    lemma2_to64();
    if 12 <= e <= 21 {
        lemma_doubled_to_pow2(e, 0);
        if e < 21 {
            lemma_pow2_strictly_increases(e, 21);
        }
        if e > 12 {
            lemma_pow2_strictly_increases(12, e);
        }
    }
    if 4096 <= reported <= 2097152 && next_pow2(reported as int) == reported {
        let f = lemma_doubled_to_is_pow2(0, reported as int);
        if f < 12 {
            lemma_pow2_strictly_increases(f, 12);
        }
        if f > 21 {
            lemma_pow2_strictly_increases(21, f);
        }
    }
}

/// A table is decoded exactly when it is no longer than sub-leaves can be counted, and no leaf of
/// the topology has a set count that is the largest number. Tables that differ in other leaves, or
/// in their other registers, are decoded alike.
pub proof fn law_decodable_tables(leaves: Seq<Leaf>, i: int, other: Leaf)
    requires
        0 <= i < leaves.len() <= u32::MAX,
    ensures
        (leaves[i].leaf == 4 || leaves[i].leaf == 0x8000_001d) && leaves[i].regs.ecx == u32::MAX
            ==> !decodable(leaves),
        decodable(leaves) && (other.regs.ecx < u32::MAX || (other.leaf != 4 && other.leaf
            != 0x8000_001d)) ==> decodable(leaves.update(i, other)),
        decodable(Seq::<Leaf>::empty()),
{
    let t = leaves.update(i, other);
    if decodable(leaves) {
        assert(counts_sets(leaves[i]));
        if other.regs.ecx < u32::MAX || (other.leaf != 4 && other.leaf != 0x8000_001d) {
            assert forall|x: int| 0 <= x < t.len() implies counts_sets(#[trigger] t[x]) by {
                if x != i {
                    assert(counts_sets(leaves[x]));
                }
            }
        }
    }
}

} // verus!
