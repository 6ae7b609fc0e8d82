use gemmkit::cache::{zen5_fallback, Machine};
use gemmkit::cpuid::{self, Leaf, Regs};
use gemmkit::probes::Readings;
use gemmkit::sysctl::{self, SysctlKeys};
use gemmkit::sysfs::{count_cpu_list, detect, parse_size, read_level, CacheEntry};

fn entry(level: &str, kind: &str, size: &str, ways: &str, shared: &str) -> CacheEntry {
    CacheEntry {
        level: Some(format!("{level}\n")),
        kind: Some(format!("{kind}\n")),
        size: Some(format!("{size}\n")),
        ways: Some(format!("{ways}\n")),
        line: Some("64\n".to_string()),
        shared: Some(format!("{shared}\n")),
    }
}

/// What one machine lists for its first CPU.
fn listed() -> Vec<CacheEntry> {
    vec![
        entry("1", "Data", "48K", "12", "0,16"),
        entry("1", "Instruction", "32K", "8", "0,16"),
        entry("2", "Unified", "1024K", "16", "0,16"),
        entry("3", "Unified", "32768K", "16", "0-7,16-23"),
    ]
}

/// What the CPUID instruction of that machine returns.
fn leaves() -> Vec<Leaf> {
    let cache = |sub: u32, ctype: u32, level: u32, ways: u32, sets: u32| Leaf {
        leaf: 0x8000_001D,
        sub,
        regs: Regs {
            eax: ctype | (level << 5),
            ebx: 63 | ((ways - 1) << 22),
            ecx: sets - 1,
            edx: 0,
        },
    };
    let plain = |leaf: u32, eax: u32, ebx: u32, ecx: u32, edx: u32| Leaf {
        leaf,
        sub: 0,
        regs: Regs { eax, ebx, ecx, edx },
    };
    vec![
        plain(0x0, 0x10, 0x6874_7541, 0x444d_4163, 0x6974_6e65),
        plain(0x8000_0000, 0x8000_0020, 0, 0, 0),
        cache(0, 1, 1, 12, 64),
        cache(1, 2, 1, 8, 64),
        cache(2, 3, 2, 16, 1024),
        cache(3, 3, 3, 16, 32768),
    ]
}

#[test]
fn sysfs_agrees_with_cpuid() {
    let (Some(sf), Some(cp)) = (detect(&listed()), cpuid::detect(&leaves())) else {
        panic!("both backends have what they need");
    };
    assert_eq!(sf.l1d.bytes, cp.l1d.bytes, "L1d size mismatch");
    assert_eq!(sf.l2.bytes, cp.l2.bytes, "L2 size mismatch");
    assert_eq!(sf.l1d.line, cp.l1d.line, "L1d line mismatch");
    assert_eq!(sf.l2.line, cp.l2.line, "L2 line mismatch");
    assert_eq!(sf.l1d.shared_by, 1, "L1d shared_by must be 1");
    assert!(
        sf.l2.shared_by >= 1,
        "L2 shared_by must be a positive count"
    );
    if let Some(s3) = sf.l3 {
        assert_eq!(s3.shared_by, 1, "L3 shared_by must be 1");
    }
}

#[test]
fn parse_size_all_arms() {
    assert_eq!(parse_size("48K"), Some(48 * 1024));
    assert_eq!(parse_size("1024k"), Some(1024 * 1024));
    assert_eq!(parse_size("32M"), Some(32 * 1024 * 1024));
    assert_eq!(parse_size("8m"), Some(8 * 1024 * 1024));
    assert_eq!(parse_size("2G"), Some(2 * 1024 * 1024 * 1024));
    assert_eq!(parse_size("1g"), Some(1024 * 1024 * 1024));
    assert_eq!(parse_size("123"), Some(123)); // bare byte count
    assert_eq!(parse_size("  64K  "), Some(64 * 1024)); // trimmed
    assert_eq!(parse_size(""), None); // empty string
    assert_eq!(parse_size("K"), None); // suffix with no digits
    assert_eq!(parse_size("notanumber"), None);
    // The multiply overflows usize and is rejected, not wrapped
    assert_eq!(parse_size(&format!("{}G", usize::MAX)), None);
}

#[test]
fn count_cpu_list_all_arms() {
    assert_eq!(count_cpu_list("0-7,16-23"), 16); // 2 ranges
    assert_eq!(count_cpu_list("0-7"), 8); // 1 range
    assert_eq!(count_cpu_list("0,16"), 2); // 2 single ids
    assert_eq!(count_cpu_list("3"), 1); // 1 single id
    assert_eq!(count_cpu_list(""), 1); // empty -> clamp to 1
    assert_eq!(count_cpu_list("  "), 1); // whitespace -> clamp to 1
    assert_eq!(count_cpu_list("5-2"), 1); // reversed range ignored -> clamp to 1
    assert_eq!(count_cpu_list("0-3,,8"), 5); // empty part skipped: 4 + 1
}

#[test]
fn sizes_take_a_plus_sign_and_inner_space() {
    assert_eq!(parse_size("+4K"), Some(4096));
    assert_eq!(parse_size("4 K"), Some(4096));
    assert_eq!(parse_size("-4K"), None);
    assert_eq!(parse_size("+"), None);
    assert_eq!(parse_size(&format!("{}0", usize::MAX)), None);
}

#[test]
fn cpu_lists_saturate_and_skip_junk() {
    assert_eq!(count_cpu_list(&format!("0-{0},0-{0}", usize::MAX)), usize::MAX);
    assert_eq!(count_cpu_list("a-3, 4 - 5 ,x,1-2-3"), 2);
}

#[test]
fn the_second_level_is_shared_by_cores_not_threads() {
    let mut es = listed();
    // Four cores of two threads each share the second level.
    es[2] = entry("2", "Unified", "2M", "16", "0-3,16-19");
    let t = detect(&es).unwrap();
    assert_eq!(t.l2.shared_by, 4);
    assert_eq!(t.l2.bytes, 2 * 1024 * 1024);
    assert_eq!(t.l1d.bytes, 48 * 1024);
    assert_eq!(t.l3.unwrap().bytes, 32 * 1024 * 1024);
}

#[test]
fn the_list_ends_where_no_level_is_named() {
    let mut es = listed();
    es.insert(
        2,
        CacheEntry {
            level: None,
            kind: None,
            size: None,
            ways: None,
            line: None,
            shared: None,
        },
    );
    assert_eq!(detect(&es), None);
    assert_eq!(detect(&[]), None);
}

#[test]
fn entries_without_a_size_are_passed_over() {
    let mut e = entry("2", "Unified", "1M", "8", "0");
    assert!(read_level(&e).is_some());
    e.ways = Some("0".to_string());
    assert_eq!(read_level(&e), None);
    e.ways = Some("8".to_string());
    e.line = None;
    assert_eq!(read_level(&e), None);
    e.line = Some("64".to_string());
    e.shared = None;
    let (l, shared) = read_level(&e).unwrap();
    assert_eq!((l.bytes, l.assoc, l.line, l.shared_by, shared), (1 << 20, 8, 64, 1, 1));
    // The first complete entry at a level counts.
    let mut es = listed();
    let mut broken = entry("2", "Unified", "x", "8", "0");
    broken.size = Some("x".to_string());
    es.insert(2, broken);
    assert_eq!(detect(&es).unwrap().l2.bytes, 1 << 20);
}

fn keys() -> SysctlKeys {
    SysctlKeys {
        line: Some(128),
        perf_l1d: Some(131072),
        flat_l1d: Some(65536),
        perf_l2: Some(16777216),
        flat_l2: Some(4194304),
        perf_l3: None,
        flat_l3: Some(0),
        cpus_per_l2: Some(6),
    }
}

#[test]
fn sysctl_prefers_the_performance_cores() {
    let t = sysctl::detect(&keys()).unwrap();
    assert_eq!((t.l1d.bytes, t.l1d.assoc, t.l1d.line, t.l1d.shared_by), (131072, 8, 128, 1));
    assert_eq!((t.l2.bytes, t.l2.assoc, t.l2.line, t.l2.shared_by), (16777216, 8, 128, 6));
    assert_eq!(t.l3, None, "a zero reading is none");
}

#[test]
fn sysctl_falls_back_to_the_flat_keys() {
    let k = SysctlKeys {
        line: None,
        perf_l1d: None,
        perf_l2: None,
        flat_l3: Some(8388608),
        cpus_per_l2: Some(0),
        ..keys()
    };
    let t = sysctl::detect(&k).unwrap();
    assert_eq!((t.l1d.bytes, t.l1d.line), (65536, 64));
    assert_eq!((t.l2.bytes, t.l2.shared_by), (4194304, 1));
    assert_eq!(t.l3.unwrap().assoc, 16);
    assert_eq!(sysctl::detect(&SysctlKeys { flat_l1d: None, ..k }), None);
    assert_eq!(sysctl::detect(&SysctlKeys { flat_l2: None, ..k }), None);
}

fn no_keys() -> SysctlKeys {
    SysctlKeys {
        line: None,
        perf_l1d: None,
        flat_l1d: None,
        perf_l2: None,
        flat_l2: None,
        perf_l3: None,
        flat_l3: None,
        cpus_per_l2: None,
    }
}

#[test]
fn the_first_plausible_probe_describes_the_machine() {
    let mut r = Readings {
        leaves: Some(leaves()),
        entries: listed(),
        keys: no_keys(),
        page_size: 16384,
    };
    // CPUID comes first. A different reading of sysfs shows which of the two was taken.
    r.entries[2].size = Some("2M".to_string());
    let m = Machine::probe(&r);
    assert_eq!(Some(m.cache), cpuid::detect(&leaves()));
    assert_eq!(m.page_size, 16384);
    // A table that cannot be decoded is as good as none.
    r.leaves.as_mut().unwrap()[2].regs.ecx = u32::MAX;
    let m = Machine::probe(&r);
    assert_eq!(m.cache.l2.bytes, 2 * 1024 * 1024);
    r.leaves = None;
    assert_eq!(Machine::probe(&r).cache, m.cache);
    // Without sysfs the control values count, and without anything the fallback.
    r.entries.clear();
    r.keys.flat_l1d = Some(65536);
    r.keys.flat_l2 = Some(4 * 1024 * 1024);
    assert_eq!(Machine::probe(&r).cache.l2.bytes, 4 * 1024 * 1024);
    r.keys = no_keys();
    r.page_size = 12345;
    let m = Machine::probe(&r);
    assert_eq!((m.cache, m.page_size), (zen5_fallback(), 4096));
}
