use gemmkit::cache::{
    deep_k_engage_bytes, detect, detect_page_size, lhs_pack_stride_bytes, page_size, plausible,
    prefetch_ws_bytes, topology, zen5_fallback, CacheTopology, Level, Machine,
};
use gemmkit::parallel::Target;
use gemmkit::probes::{Host, Readings};
use gemmkit::sysfs::CacheEntry;
use gemmkit::tuning::{Tuning, KC_SIZEOF_DIV_CAP};

/// A machine of which two cache levels and the page size could be read.
fn host() -> Host {
    let entry = |level: &str, kind: &str, size: &str, ways: &str| CacheEntry {
        level: Some(format!("{level}\n")),
        kind: Some(format!("{kind}\n")),
        size: Some(format!("{size}\n")),
        ways: Some(format!("{ways}\n")),
        line: Some("64\n".to_string()),
        shared: Some("0\n".to_string()),
    };
    let mut r = Readings::none();
    r.entries = vec![
        entry("1", "Data", "64K", "4"),
        entry("2", "Unified", "2048K", "8"),
    ];
    r.page_size = 16384;
    Host::detect(&r)
}

#[test]
fn cache_machine_aggregates_and_memoizes() {
    let host = host();
    let m = Machine::current(&host);
    assert!(
        core::ptr::eq(m, Machine::current(&host)),
        "current() must return the one memoized instance"
    );
    assert_eq!(&m.cache, topology(&host), "topology() must read through Machine");
    assert_eq!(
        m.page_size,
        page_size(&host),
        "page_size() must read through Machine"
    );
}

#[test]
fn cache_page_size_is_plausible() {
    let host = host();
    let p = page_size(&host);
    assert!(p.is_power_of_two(), "page size {p} is not a power of two");
    assert!(
        (4096..=2 * 1024 * 1024).contains(&p),
        "page size {p} out of range"
    );
}

#[test]
fn cache_lhs_pack_stride_gate_auto_and_override() {
    let host = host();
    let machine = Machine::current(&host);
    let mut tun = Tuning::new();
    tun.set_lhs_pack_stride(0);
    let auto = lhs_pack_stride_bytes(&tun, machine);
    assert_eq!(auto, page_size(&host) / 2, "auto gate must be half the page");
    assert!(auto > 0, "auto gate must be non-zero");
    tun.set_lhs_pack_stride(4096);
    assert_eq!(
        lhs_pack_stride_bytes(&tun, machine),
        4096,
        "override must pass through"
    );
}

#[test]
fn deep_k_engage_gate_auto_and_override() {
    let host = host();
    let t = topology(&host);
    let mut tun = Tuning::new();
    tun.set_deep_kc_bytes(0);
    let auto = deep_k_engage_bytes(&tun, t);
    assert_eq!(
        auto,
        (topology(&host).l2.effective_bytes() / 2).max(1),
        "auto gate must be half the L2 effective bytes"
    );
    assert!(auto > 0, "auto gate must be non-zero");
    tun.set_deep_kc_bytes(4096);
    assert_eq!(
        deep_k_engage_bytes(&tun, t),
        4096,
        "override must pass through"
    );
}

#[test]
fn prefetch_ws_gate_auto_and_override() {
    let host = host();
    let t = topology(&host);
    let mut tun = Tuning::new();
    tun.set_prefetch_min_bytes(0);
    let auto = prefetch_ws_bytes(&tun, t);
    let expect = match t.l3 {
        Some(l3) => l3.effective_bytes().max(1),
        None => t.l2.effective_bytes().max(1),
    };
    assert_eq!(auto, expect, "auto gate must be the per-core-reachable LLC");
    assert!(auto > 0, "auto gate must be non-zero");
    tun.set_prefetch_min_bytes(4096);
    assert_eq!(
        prefetch_ws_bytes(&tun, t),
        4096,
        "override must pass through"
    );
}

#[test]
fn blocking_zero_dim_early_return() {
    let host = host();
    let t = topology(&host);
    let tun = Tuning::new();
    let (mr, nr) = (16usize, 4usize);
    // m == 0
    let b = t.blocking(&tun, mr, nr, 4, 0, 8, 8);
    assert_eq!((b.mc, b.kc, b.nc), (mr, 8, 8));
    // n == 0
    let b = t.blocking(&tun, mr, nr, 4, 8, 0, 8);
    assert_eq!((b.mc, b.kc, b.nc), (16, 8, nr));
    // k == 0
    let b = t.blocking(&tun, mr, nr, 4, 8, 8, 0);
    assert_eq!((b.mc, b.kc, b.nc), (16, 1, 8));
}

#[test]
fn tiny_shortcut_deepens_the_block_for_a_narrow_element() {
    let host = host();
    let t = topology(&host);
    let tun = Tuning::new();
    let tiny = tun.tiny_block_dim;
    // k far past any ceiling, so the ceiling binds instead of k
    let (m, n, k) = (tiny, tiny, 1usize << 22);
    let f32_kc = t.blocking(&tun, 16, 4, 4, m, n, k).kc;
    let budget = f32_kc * 4;
    for sizeof in [1usize, 2] {
        let bytes = t.blocking(&tun, 16, 4, sizeof, m, n, k).kc * sizeof;
        assert!(
            bytes <= budget && bytes + sizeof > budget,
            "sizeof {sizeof}: {bytes} panel bytes against a {budget} budget"
        );
    }
}

#[test]
fn tiny_shortcut_bounds_the_block_for_a_wide_element() {
    let host = host();
    let t = topology(&host);
    let tun = Tuning::new();
    let tiny = tun.tiny_block_dim;
    let (m, n, k) = (tiny, tiny, 1usize << 22);
    let f32_kc = t.blocking(&tun, 16, 4, 4, m, n, k).kc;
    let mut prev = f32_kc;
    for sizeof in [8usize, 16] {
        let kc = t.blocking(&tun, 16, 4, sizeof, m, n, k).kc;
        assert!(
            kc <= f32_kc && kc >= f32_kc * 4 / sizeof,
            "sizeof {sizeof}: depth {kc} outside [{}, {f32_kc}]",
            f32_kc * 4 / sizeof
        );
        assert!(kc <= prev, "sizeof {sizeof}: depth rose with the width");
        prev = kc;
    }
    let kc16 = t.blocking(&tun, 16, 4, 16, m, n, k).kc;
    if KC_SIZEOF_DIV_CAP <= 4 {
        assert_eq!(kc16, f32_kc, "a wide element must keep the whole ceiling");
    } else {
        assert!(
            kc16 * 16 <= f32_kc * 4 && kc16 * 16 + 16 > f32_kc * 4,
            "a wide element must hold the panel bytes"
        );
    }
}

#[test]
fn a_wide_element_keeps_the_whole_ceiling_on_aarch64() {
    let tun = Tuning::for_target(Target::Aarch64);
    assert_eq!([1, 2, 4, 8, 16].map(|s| tun.tiny_kc(s)), [2048, 1024, 512, 512, 512]);
    for target in [Target::X86, Target::Wasm32 { simd128: true }, Target::Other] {
        let tun = Tuning::for_target(target);
        assert_eq!(tun, Tuning::new());
        assert_eq!([1, 2, 4, 8, 16, 32].map(|s| tun.tiny_kc(s)), [2048, 1024, 512, 256, 128, 128]);
    }
}

#[test]
fn blocking_no_l3_nc_arm() {
    let tun = Tuning::new();
    let topo = CacheTopology {
        l1d: Level {
            bytes: 48 * 1024,
            assoc: 12,
            line: 64,
            shared_by: 1,
        },
        l2: Level {
            bytes: 1024 * 1024,
            assoc: 16,
            line: 64,
            shared_by: 1,
        },
        l3: None,
    };
    let (mr, nr) = (16usize, 4usize);
    // Above tiny_block_dim, so this takes the full model
    let (m, n, k) = (512usize, 512usize, 512usize);
    let b = topo.blocking(&tun, mr, nr, 4, m, n, k);
    // No L3: NC is nc_no_l3_panels * nr, capped by the rounded-up N
    let expect_nc = (tun.nc_no_l3_panels * nr)
        .min(n.next_multiple_of(nr))
        .max(nr);
    assert_eq!(b.nc, expect_nc, "no-L3 NC must use the panel-count cap");
    assert!(
        b.mc >= mr && b.mc % mr == 0,
        "mc must be a positive mr multiple"
    );
    assert!(b.kc >= 1 && b.kc <= k, "kc must be within [1, k]");
}

#[test]
fn mod_machine_aggregates_and_memoizes() {
    let host = host();
    let m = Machine::current(&host);
    assert!(
        core::ptr::eq(m, Machine::current(&host)),
        "current() must return the one memoized instance"
    );
    assert_eq!(&m.cache, topology(&host), "topology() must read through Machine");
    assert_eq!(
        m.page_size,
        page_size(&host),
        "page_size() must read through Machine"
    );
}

#[test]
fn mod_page_size_is_plausible() {
    let host = host();
    let p = page_size(&host);
    assert!(p.is_power_of_two(), "page size {p} is not a power of two");
    assert!(
        (4096..=2 * 1024 * 1024).contains(&p),
        "page size {p} out of range"
    );
}

#[test]
fn mod_lhs_pack_stride_gate_auto_and_override() {
    let host = host();
    let machine = Machine::current(&host);
    let mut tun = Tuning::new();
    tun.set_lhs_pack_stride(0);
    let auto = lhs_pack_stride_bytes(&tun, machine);
    assert_eq!(auto, page_size(&host) / 2, "auto gate must be half the page");
    assert!(auto > 0, "auto gate must be non-zero");
    tun.set_lhs_pack_stride(4096);
    assert_eq!(
        lhs_pack_stride_bytes(&tun, machine),
        4096,
        "override must pass through"
    );
}

#[test]
fn blocking_of_a_square_on_the_fallback_machine() {
    // kc: L1d 48 KiB / 12 ways / 64-byte lines gives 64 sets, 4096 bytes per way.
    // gcd(16*4, 4096) = 64, unit 64, 1 + 4*64*4/4096 = 1 way each, 12/2 = 6 -> 8,
    // 64 * 8 = 512, so one slice of 512.
    let tun = Tuning::new();
    let b = Machine::fallback().cache.blocking(&tun, 16, 4, 4, 512, 512, 512);
    assert_eq!(b.kc, 512);
    // mc is held at 8 register panels.
    assert_eq!(b.mc, 128);
    // nc: 15/16 of 32 MiB over 2048 bytes a column is far more than 512.
    assert_eq!(b.nc, 512);
}

#[test]
fn implausible_probes_fall_through() {
    let good = Level {
        bytes: 32 * 1024,
        assoc: 8,
        line: 64,
        shared_by: 1,
    };
    let tiny = Level { bytes: 1024, ..good };
    let bad = CacheTopology {
        l1d: tiny,
        l2: good,
        l3: None,
    };
    let fine = CacheTopology {
        l1d: good,
        l2: good,
        l3: None,
    };
    assert!(!plausible(&bad));
    assert!(plausible(&fine));
    assert_eq!(detect(&[None, Some(bad), Some(fine)]), fine);
    assert_eq!(detect(&[None, Some(bad)]), zen5_fallback());
    assert_eq!(detect(&[]), zen5_fallback());
}

#[test]
fn page_sizes_out_of_range_fall_back() {
    assert_eq!(detect_page_size(16384), 16384);
    assert_eq!(detect_page_size(0), 4096);
    assert_eq!(detect_page_size(5000), 4096);
    assert_eq!(detect_page_size(4 * 1024 * 1024), 4096);
}

#[test]
fn shared_levels_count_per_worker() {
    let l = Level {
        bytes: 4096,
        assoc: 8,
        line: 64,
        shared_by: 4,
    };
    assert_eq!(l.effective_bytes(), 1024);
    assert_eq!(
        Level { shared_by: 0, ..l }.effective_bytes(),
        4096,
        "a zero count is taken as one"
    );
}

#[test]
fn knobs_hold_at_their_ceiling() {
    let mut tun = Tuning::new();
    tun.set_kc(usize::MAX);
    assert_eq!(tun.kc, usize::MAX - 1);
    tun.set_kc(7);
    assert_eq!(tun.kc, 7);
}

#[test]
fn the_current_machine_is_the_detected_one() {
    let host = host();
    let m = Machine::current(&host);
    assert_eq!(m.page_size, 16384);
    assert_eq!((m.cache.l1d.bytes, m.cache.l2.bytes, m.cache.l3), (65536, 2097152, None));
    let nothing = Host::detect(&Readings::none());
    assert_eq!(*Machine::current(&nothing), Machine::fallback());
    assert_eq!(*topology(&nothing), zen5_fallback());
    assert_eq!(page_size(&nothing), 4096);
}

#[test]
fn macro_panels_fit_their_caches() {
    let tun = Tuning::new();
    let c = Machine::fallback().cache;
    let l3 = c.l3.unwrap();
    for sizeof in [1usize, 2, 4, 8, 16] {
        for (mr, nr) in [(16, 4), (32, 12), (4, 4), (48, 8)] {
            for (m, n, k) in [(65, 1, 1), (300, 4000, 900), (5000, 70, 20000), (100, 100000, 513)] {
                let b = c.blocking(&tun, mr, nr, sizeof, m, n, k);
                let a_panel = b.mc * b.kc * sizeof * c.l2.assoc;
                assert!(b.mc <= mr || a_panel <= (c.l2.assoc - 1) * c.l2.bytes, "{b:?}");
                let b_panel = b.nc * b.kc * sizeof * l3.assoc;
                assert!(b.nc == nr || b_panel <= (l3.assoc - 1) * l3.bytes, "{b:?}");
                // The depth is spread evenly over its slices.
                assert_eq!(b.kc, k.div_ceil(k.div_ceil(b.kc)));
            }
        }
    }
}

#[test]
fn a_small_block_never_deepens_with_the_element() {
    let c = Machine::fallback().cache;
    for target in [Target::Aarch64, Target::X86] {
        for knob in [0, 1, 3, 100, 512] {
            let mut tun = Tuning::for_target(target);
            tun.set_kc(knob);
            for k in [1, 50, 1000, 1 << 22] {
                let kc = |s: usize| c.blocking(&tun, 16, 4, s, 64, 64, k).kc;
                for s in 1..32 {
                    assert!(kc(s + 1) <= kc(s));
                }
                for s in 4..32 {
                    assert!(kc(s) >= kc(4) * 4 / s);
                    if tun.kc_sizeof_div_cap <= 4 {
                        assert_eq!(kc(s), kc(4));
                    }
                }
                for s in 1..=tun.kc_sizeof_div_cap {
                    if 4 * knob >= s && k >= 4 * knob {
                        assert!(kc(s) * s <= kc(4) * 4 && kc(s) * s + s > kc(4) * 4);
                    }
                }
            }
        }
    }
}
