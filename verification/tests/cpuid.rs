use gemmkit::cpuid::{
    assoc_num, detect, detect_amd_legacy, detect_topology_leaf, legacy_from, lookup, topology_from,
    CacheParam, Holds, Leaf, LegacyCache, Regs, Ways,
};

fn leaf(leaf: u32, sub: u32, eax: u32, ebx: u32, ecx: u32, edx: u32) -> Leaf {
    Leaf {
        leaf,
        sub,
        regs: Regs { eax, ebx, ecx, edx },
    }
}

/// One sub-leaf of the topology leaf, in the layout of the registers: type and level in `eax`,
/// line size, partitions and ways in `ebx`, sets in `ecx`, the last four biased by 1.
fn leaf04(
    id: u32,
    sub: u32,
    ctype: u32,
    level: u32,
    line: u32,
    parts: u32,
    ways: u32,
    sets: u32,
) -> Leaf {
    leaf(
        id,
        sub,
        ctype | (level << 5),
        (line - 1) | ((parts - 1) << 12) | ((ways - 1) << 22),
        sets - 1,
        0,
    )
}

#[test]
fn detect_topology_leaf_from_canned_intel_leaf04() {
    let leaves = [
        // "GenuineIntel" across ebx/edx/ecx, and a largest basic leaf past 4
        leaf(0x0, 0, 0x16, 0x756e_6547, 0x6c65_746e, 0x4965_6e69),
        leaf04(0x4, 0, 1, 1, 64, 1, 12, 64),    // Data,  L1: 12*64*64      = 48 KiB
        leaf04(0x4, 1, 2, 1, 64, 1, 8, 64),     // Instruction, L1
        leaf04(0x4, 2, 3, 2, 64, 1, 8, 2048),   // Unified, L2: 8*64*2048  = 1 MiB
        leaf04(0x4, 3, 3, 3, 64, 1, 16, 32768), // Unified, L3: 16*64*32768 = 32 MiB
    ];
    let t = detect_topology_leaf(&leaves).expect("canned Intel leaf-04h must detect");

    assert_eq!(t.l1d.bytes, 48 * 1024, "L1d size");
    assert_eq!(t.l1d.assoc, 12, "L1d ways");
    assert_eq!(t.l1d.line, 64, "L1d line");
    assert_eq!(t.l1d.shared_by, 1, "L1d shared_by is fixed at 1");
    assert_eq!(t.l2.bytes, 1024 * 1024, "L2 size");
    assert_eq!(t.l2.assoc, 8, "L2 ways");
    let l3 = t.l3.expect("L3 present");
    assert_eq!(l3.bytes, 32 * 1024 * 1024, "L3 size");
    assert_eq!(l3.assoc, 16, "L3 ways");
    assert_eq!(detect(&leaves), Some(t));
}

fn amd_legacy_leaves() -> Vec<Leaf> {
    vec![
        // "AuthenticAMD" across ebx/edx/ecx
        leaf(0x0, 0, 0x10, 0x6874_7541, 0x444d_4163, 0x6974_6e65),
        leaf(0x8000_0000, 0, 0x8000_0008, 0, 0, 0),
        // size(KiB) << 24 | assoc << 16 | line; assoc 0x01 is direct mapped
        leaf(0x8000_0005, 0, 0, 0, (64 << 24) | (0x01 << 16) | 64, 0),
        // assoc 0xF is fully associative, in both registers
        leaf(
            0x8000_0006,
            0,
            0,
            0,
            (512 << 16) | (0xF << 12) | 64,
            (16 << 18) | (0xF << 12) | 64,
        ),
    ]
}

#[test]
fn detect_amd_legacy_exotic_associativities() {
    let leaves = amd_legacy_leaves();
    let t = detect_amd_legacy(&leaves).expect("canned AMD leaves must detect");

    assert_eq!(t.l1d.bytes, 64 * 1024, "L1d size");
    assert_eq!(t.l1d.assoc, 1, "DirectMapped L1d folds to assoc 1");
    assert_eq!(t.l2.bytes, 512 * 1024, "L2 size");
    assert_eq!(t.l2.assoc, 64, "FullyAssociative L2 folds to assoc 64");
    let l3 = t.l3.expect("L3 present");
    assert_eq!(l3.bytes, 16 * 512 * 1024, "L3 size (units of 512 KiB)");
    assert_eq!(l3.assoc, 64, "FullyAssociative L3 folds to assoc 64");
    assert_eq!(t.l1d.line, 64);
    assert_eq!(t.l2.line, 64);
    assert_eq!(l3.line, 64);
    // Without a topology leaf, the legacy leaves are what is left.
    assert_eq!(detect(&leaves), Some(t));
}

#[test]
fn detect_topology_leaf_from_canned_amd_leaf1d() {
    let leaves = [
        leaf(0x0, 0, 0x10, 0x6874_7541, 0x444d_4163, 0x6974_6e65),
        leaf(0x8000_0000, 0, 0x8000_0020, 0, 0, 0),
        // The legacy leaf, with a 64 MiB package total for L3
        leaf(
            0x8000_0006,
            0,
            0,
            0,
            (1024 << 16) | (0x6 << 12) | 64,
            (128 << 18) | (0x9 << 12) | 64,
        ),
        leaf04(0x8000_001D, 0, 1, 1, 64, 1, 12, 64), // Data, L1: 48 KiB
        leaf04(0x8000_001D, 1, 2, 1, 64, 1, 8, 64),  // Instruction, L1
        leaf04(0x8000_001D, 2, 3, 2, 64, 1, 16, 1024), // Unified, L2: 1 MiB
        leaf04(0x8000_001D, 3, 3, 3, 64, 1, 16, 32768), // Unified, L3: 32 MiB
    ];
    let t = detect_topology_leaf(&leaves).expect("canned AMD leaf-1Dh must detect");

    assert_eq!(t.l1d.bytes, 48 * 1024, "L1d size");
    assert_eq!(t.l1d.assoc, 12, "L1d ways");
    assert_eq!(t.l2.bytes, 1024 * 1024, "L2 size");
    assert_eq!(t.l2.assoc, 16, "L2 ways");
    let l3 = t.l3.expect("L3 present");
    assert_eq!(
        l3.bytes,
        32 * 1024 * 1024,
        "L3 is the per-CCD slice, not the total"
    );
    assert_eq!(l3.assoc, 16, "L3 ways read exactly, not guessed");
    assert_eq!(l3.shared_by, 1, "L3 shared_by is fixed at 1");
}

#[test]
fn legacy_fields_are_cut_out_of_their_registers() {
    // "HygonGenuine" across ebx/edx/ecx
    let vendor = leaf(0x0, 0, 0x10, 0x6f67_7948, 0x656e_6975, 0x6e65_476e);
    let table = |l1: u32, l2: u32, l3: u32, last: u32| {
        [
            vendor,
            leaf(0x8000_0000, 0, last, 0, 0, 0),
            leaf(0x8000_0005, 0, !0, !0, l1, !0),
            leaf(0x8000_0006, 0, !0, !0, l2, l3),
        ]
    };
    let ways = [8, 1, 2, 8, 4, 6, 8, 8, 16, 8, 32, 48, 64, 96, 128, 64];
    for code in 0..16u32 {
        let t = detect_amd_legacy(&table(
            0x20AB_CD40,
            0x1234_0F20 | (code << 12),
            0xFFFF_0F80 | (code << 12),
            0x8000_0006,
        ))
        .unwrap();
        assert_eq!((t.l1d.bytes, t.l1d.assoc, t.l1d.line), (0x20 * 1024, 0xAB, 0x40));
        assert_eq!((t.l2.bytes, t.l2.line), (0x1234 * 1024, 0x20));
        assert_eq!(t.l2.assoc, ways[code as usize]);
        let l3 = t.l3.unwrap();
        assert_eq!((l3.bytes, l3.line), (0x3FFF * 524288, 0x80));
        assert_eq!(l3.assoc, ways[code as usize]);
    }
    for (code, want) in [(0x00, 8), (0x01, 1), (0x02, 2), (0xFE, 254), (0xFF, 64)] {
        let t = detect_amd_legacy(&table(code << 16, 0, 0, 0x8000_0006)).unwrap();
        assert_eq!((t.l1d.assoc, t.l3), (want, None));
    }
    // The leaves must be announced, and the first one belongs to the vendor.
    assert_eq!(detect_amd_legacy(&table(0, 0, 0, 0x8000_0005)), None);
    let mut other = table(0, 0, 0, 0x8000_0006);
    other[0] = leaf(0x0, 0, 0x16, 0x756e_6547, 0x6c65_746e, 0x4965_6e69);
    assert_eq!(detect_amd_legacy(&other), None);
}

#[test]
fn masked_leaves_detect_nothing() {
    assert_eq!(detect(&[]), None);
    // A vendor without any cache leaf.
    let leaves = [leaf(0x0, 0, 0x1, 0x756e_6547, 0x6c65_746e, 0x4965_6e69)];
    assert_eq!(detect(&leaves), None);
}

#[test]
fn legacy_leaves_with_other_associativities() {
    let mut leaves = amd_legacy_leaves();
    // 6 is 8-way, 9 says nothing, and an L3 of size zero is none.
    leaves[3] = leaf(
        0x8000_0006,
        0,
        0,
        0,
        (1024 << 16) | (0x6 << 12) | 64,
        0x9 << 12,
    );
    let t = detect_amd_legacy(&leaves).expect("both leaves are there");
    assert_eq!(t.l2.assoc, 8);
    assert_eq!(t.l2.bytes, 1024 * 1024);
    assert_eq!(t.l3, None);
}

#[test]
fn the_first_cache_at_a_level_counts() {
    let l1 = CacheParam {
        holds: Holds::Data,
        level: 1,
        ways: 8,
        line: 64,
        sets: 64,
        partitions: 1,
    };
    let l2 = CacheParam {
        holds: Holds::Both,
        level: 2,
        ways: 8,
        line: 64,
        sets: 1024,
        partitions: 2,
    };
    let other = CacheParam { sets: 1, ..l2 };
    let code = CacheParam {
        holds: Holds::Instructions,
        sets: 7,
        ..l1
    };
    let t = topology_from(&[code, l1, l2, other]).expect("both levels are there");
    assert_eq!(t.l1d.bytes, 8 * 64 * 64);
    assert_eq!(t.l2.bytes, 8 * 64 * 1024 * 2);
    assert_eq!(t.l3, None);
    assert_eq!(topology_from(&[l1]), None);
    assert_eq!(topology_from(&[code, l2]), None);
}

#[test]
fn legacy_levels_need_every_leaf() {
    let c = LegacyCache {
        size: 32,
        ways: Ways::NWay(4),
        line: 64,
    };
    assert_eq!(legacy_from(None, Some(c), Some(c)), None);
    assert_eq!(legacy_from(Some(c), None, None), None);
    let t = legacy_from(Some(c), Some(c), Some(c)).unwrap();
    assert_eq!(t.l1d.bytes, 32 * 1024);
    assert_eq!(t.l3.unwrap().bytes, 32 * 512 * 1024);
}

#[test]
fn way_counts() {
    assert_eq!(assoc_num(Ways::DirectMapped), 1);
    assert_eq!(assoc_num(Ways::NWay(12)), 12);
    assert_eq!(assoc_num(Ways::FullyAssociative), 64);
    assert_eq!(assoc_num(Ways::Disabled), 8);
    assert_eq!(assoc_num(Ways::Unknown), 8);
}

#[test]
fn lookups_take_the_first_entry() {
    let leaves = [leaf(4, 1, 9, 8, 7, 6), leaf(4, 1, 1, 1, 1, 1)];
    assert_eq!(lookup(&leaves, 4, 1).eax, 9);
    assert_eq!(lookup(&leaves, 4, 0).eax, 0);
}
