use gemmkit::fuzz::api_validation::{
    drive_validation, in_bounds, mirror_extent, mirror_self_aliases, sat3, DimClass, EntryKind,
    StrideClass, ValidationPlan, Verdict,
};
use gemmkit::fuzz::classes::{
    dim_class, entry_class, knob_class, knob_par_class, layout_class, packed_type_class, par_class,
    scenario_class, stride_class, type_class,
};
use gemmkit::fuzz::common::{
    assert_no_gap_writes, build_operand, extent_of, i8_ab, LayoutPlan, Rng, Source, SENTINEL,
};
use gemmkit::fuzz::differential::{differential_gemm_i8, differential_packed_b_i8};
use gemmkit::fuzz::exact_drivers::{
    assert_batched_no_gap_writes, differential_batched_real, differential_gemm_real,
    differential_packed_a_real, differential_packed_b_real,
};
use gemmkit::fuzz::plans::{
    run_batched, run_gemm, run_knobs, run_prepack, BatchedPlan, GemmPlan, Job, KnobsPlan,
    PrepackPlan, Scenario, TypeTag, N_KNOBS,
};
use gemmkit::fuzz::reference::{dense_i32, dense_i32_from_i8, i8_gate, ref_gemm_i8};
use gemmkit::fuzz::separate_views::batched_slice_real;
use gemmkit::{Context, GemmError, Operand, Parallelism};

#[test]
fn the_generator_is_a_xorshift() {
    let mut r = Rng::new(0);
    let mut s: u64 = 0x9E3779B97F4A7C15;
    for _ in 0..100 {
        s ^= s << 13;
        s ^= s >> 7;
        s ^= s << 17;
        assert_eq!(r.next_i8(), (s >> 24) as u8 as i8);
    }
    assert_eq!(Rng::new(u64::MAX).state, 0x9E3779B97F4A7C14);
}

#[test]
fn strides_of_layout_plans() {
    assert_eq!(LayoutPlan::RowIsh { il: 2, pad: 3 }.strides(4, 5), (13, 2));
    assert_eq!(LayoutPlan::ColIsh { il: 3, pad: 1 }.strides(4, 5), (3, 13));
    assert_eq!(LayoutPlan::BroadcastRow.strides(4, 5), (0, 1));
    assert_eq!(extent_of(4, 5, 13, 2), 3 * 13 + 4 * 2 + 1);
    assert_eq!(extent_of(0, 5, 13, 2), 0);
}

#[test]
fn operands_are_filled_in_row_order() {
    let mut r = Rng::new(7);
    let (buf, rs, cs): (Vec<i32>, isize, isize) = build_operand(
        2,
        2,
        LayoutPlan::RowIsh { il: 2, pad: 1 },
        SENTINEL,
        &mut r,
    );
    assert_eq!((rs, cs, buf.len()), (5, 2, 8));
    let mut again = Rng::new(7);
    let draw = |r: &mut Rng| -> i32 { Source::<i32>::draw(r) };
    let want = [draw(&mut again), draw(&mut again), draw(&mut again), draw(&mut again)];
    assert_eq!([buf[0], buf[2], buf[5], buf[7]], want);
    assert_eq!([buf[1], buf[3], buf[4], buf[6]], [SENTINEL; 4]);
    assert_eq!(assert_no_gap_writes(&buf, 2, 2, rs, cs), Ok(()));
    let mut touched = buf.clone();
    touched[4] = 0;
    touched[6] = 0;
    assert_eq!(assert_no_gap_writes(&touched, 2, 2, rs, cs), Err(4));
}

#[test]
fn gaps_between_the_elements_of_a_batch() {
    let mut buf = vec![SENTINEL; 10];
    for x in [0, 2, 5, 7] {
        buf[x] = 1;
    }
    // Elements of 1 x 2 with a gap inside, 5 apart.
    assert_eq!(assert_batched_no_gap_writes(&buf, 2, 1, 2, 1, 2, 5), Ok(()));
    buf[9] = 1;
    buf[3] = 1;
    assert_eq!(assert_batched_no_gap_writes(&buf, 2, 1, 2, 1, 2, 5), Err(3));
}

#[test]
fn the_reference_and_its_gate() {
    let a = [1i8, 2, 3, 4];
    let da = dense_i32_from_i8(&a, 2, 2, 1, 2);
    assert_eq!(da, [1, 3, 2, 4]);
    let c = [10, 0, 20, 30, 0, 40];
    let dc = dense_i32(&c, 2, 2, 3, 2);
    assert_eq!(dc, [10, 20, 30, 40]);
    let r = ref_gemm_i8(&da, &da, &dc, 2, 2, 2, 2, -1);
    assert_eq!(r, [2 * 7 - 10, 2 * 15 - 20, 2 * 10 - 30, 2 * 22 - 40]);
    assert_eq!(i8_gate(&r, 2, 1, 2, 2, &r), Ok(()));
    let mut off = r.clone();
    off[1] += 1;
    off[2] += 1;
    assert_eq!(i8_gate(&off, 2, 1, 2, 2, &r), Err((0, 1)));
}

fn layouts() -> Vec<LayoutPlan> {
    vec![
        LayoutPlan::RowIsh { il: 1, pad: 0 },
        LayoutPlan::ColIsh { il: 2, pad: 3 },
        LayoutPlan::BroadcastRow,
    ]
}

#[test]
fn exact_drivers_find_no_difference() {
    let ctx = Context::new();
    let lc = LayoutPlan::RowIsh { il: 2, pad: 1 };
    let mut seed = 0;
    for (m, k, n) in [(0, 3, 2), (1, 20, 5), (7, 100, 9), (33, 12, 17)] {
        for la in layouts() {
            for lb in layouts() {
                seed += 1;
                let par = Parallelism::Rayon(2);
                assert_eq!(
                    differential_gemm_i8(&ctx, m, k, n, la, lb, lc, 3, -2, par, seed, 5, 6),
                    Ok(())
                );
                assert_eq!(
                    differential_gemm_real(&ctx, m, k, n, la, lb, lc, 3, -2, par, seed, 5, 6),
                    Ok(())
                );
                assert_eq!(
                    differential_packed_b_real(&ctx, m, k, n, la, lb, -1, 2, par, seed, 5, 6),
                    Ok(())
                );
                assert_eq!(
                    differential_packed_a_real(&ctx, m, k, n, la, lb, -1, 2, par, seed, 5, 6),
                    Ok(())
                );
                assert_eq!(
                    differential_packed_b_i8(&ctx, m, k, n, la, lb, 2, 0, par, seed, 5, 6),
                    Ok(())
                );
                for batch in [0, 1, 3] {
                    assert_eq!(
                        differential_batched_real(
                            &ctx, batch, m, k, n, la, lb, lc, batch == 3, false, 2, 0, 4, 1, 1,
                            par, seed,
                        ),
                        Ok(())
                    );
                }
            }
        }
    }
}

fn plan(ty: TypeTag) -> GemmPlan {
    GemmPlan {
        ty,
        m: 3,
        k: 4,
        n: 5,
        la: LayoutPlan::BroadcastRow,
        lb: LayoutPlan::RowIsh { il: 1, pad: 2 },
        lc: LayoutPlan::ColIsh { il: 2, pad: 0 },
        alpha_i: 2,
        beta_i: 4,
        alpha_im_i: 1,
        beta_im_i: 5,
        nan_c: true,
        conj_a: true,
        conj_b: false,
        ws_reuse: true,
        par: Parallelism::Rayon(2),
        a_seed: 1,
        b_seed: 2,
        c_seed: 3,
    }
}

#[test]
fn plans_go_to_the_driver_of_their_type() {
    for ty in [TypeTag::F32, TypeTag::F64, TypeTag::F16, TypeTag::Bf16] {
        let Job::Real(j) = run_gemm(&plan(ty)) else {
            panic!("{ty:?} is a real type");
        };
        assert_eq!((j.ty, j.m, j.k, j.n, j.nan_c, j.ws_reuse), (ty, 3, 4, 5, true, true));
    }
    for ty in [TypeTag::C32, TypeTag::C64] {
        let Job::Cplx(j) = run_gemm(&plan(ty)) else {
            panic!("{ty:?} is a complex type");
        };
        assert_eq!((j.ty, j.alpha_im_i, j.beta_im_i, j.conj_a, j.conj_b), (ty, 1, 5, true, false));
    }
    let Job::I8(j) = run_gemm(&plan(TypeTag::I8)) else {
        panic!("the integer type has a driver of its own");
    };
    assert_eq!((j.alpha, j.beta), (-1, 3));
    assert_eq!(j.run(&Context::new()), Ok(()));
    assert_eq!([0, 1, 2, 3, 4, 5].map(i8_ab), [0, 1, -1, 2, 3, -2]);
}

#[test]
fn scenarios_of_a_knobs_plan() {
    let mut p = KnobsPlan {
        values: [0; N_KNOBS],
        scenario: Scenario::SmallMn,
        m: 20,
        k: 10,
        n: 4,
        la: LayoutPlan::RowIsh { il: 1, pad: 0 },
        lb: LayoutPlan::RowIsh { il: 1, pad: 0 },
        alpha_i: 1,
        beta_i: 2,
        par: Parallelism::Serial,
        seed: 0x100,
    };
    p.values[18] = usize::MAX;
    p.values[22] = 77;
    let (tun, job) = run_knobs(&p);
    assert_eq!((tun.kc, tun.i8_vnni_min_par_mnk, tun.small_mn_dim), (usize::MAX - 1, 77, 0));
    // Every knob comes from its own value.
    let mut q = p;
    for i in 0..N_KNOBS {
        q.values[i] = 1000 + i;
    }
    let t = run_knobs(&q).0;
    assert_eq!(
        [
            t.parallel_threshold,
            t.rhs_pack_threshold,
            t.lhs_pack_threshold,
            t.lhs_pack_stride,
            t.gemv_threshold,
            t.small_k_threshold,
            t.small_mn_dim,
            t.gemv_parallel_bytes,
            t.gemv_thread_cap,
            t.parallel_oversample,
            t.thread_dim_stride,
            t.shared_lhs_mnk,
            t.k_stream_max,
            t.seq_internal_bytes_per_worker,
            t.packed_oversample,
            t.mc_reg_panels,
            t.nc_no_l3_panels,
            t.tiny_block_dim,
            t.kc,
            t.kc_min,
            t.pack_transpose_tile,
            t.deep_kc_bytes,
            t.i8_vnni_min_par_mnk,
            t.lhs_pack_span,
            t.lhs_pack_reuse,
            t.small_mn_pack_min_k,
            t.prefetch_min_bytes,
        ],
        q.values
    );
    let Job::Real(j) = job else {
        panic!("a small product is a plain run");
    };
    assert_eq!((j.m, j.k, j.n), (8, 32, 4));
    assert_eq!((j.a_seed, j.b_seed, j.c_seed), (0x111, 0x122, 0x133));
    p.scenario = Scenario::Gemv;
    assert!(matches!(run_knobs(&p).1, Job::Real(j) if (j.m, j.k, j.n) == (20, 10, 1)));
    p.scenario = Scenario::Batched;
    assert!(matches!(run_knobs(&p).1, Job::Batched(j) if j.batch == 3 && j.seed == 0x100));
    p.scenario = Scenario::PrepackA;
    assert!(matches!(run_knobs(&p).1, Job::PackedA(j) if j.c_seed == 0x133));
    p.scenario = Scenario::PrepackB;
    assert!(matches!(run_knobs(&p).1, Job::PackedB(_)));
    p.scenario = Scenario::PlainF32;
    assert!(matches!(run_knobs(&p).1, Job::Real(j) if j.n == 4 && !j.nan_c));
    // The integer scenario runs under any knobs.
    p.scenario = Scenario::I8;
    for v in [0, 1, 17, 4096, 1 << 33, 1 << 48, usize::MAX] {
        p.values = [v; N_KNOBS];
        let (tuning, job) = run_knobs(&p);
        let mut ctx = Context::new();
        ctx.tuning = tuning;
        let Job::I8(j) = job else {
            panic!("the integer scenario has its own run");
        };
        assert_eq!(j.run(&ctx), Ok(()), "knobs {v}");
    }
}

#[test]
fn batch_and_prepack_plans_hand_their_fields_on() {
    let p = BatchedPlan {
        ty64: true,
        batch: 2,
        m: 3,
        k: 4,
        n: 5,
        la: LayoutPlan::BroadcastRow,
        lb: LayoutPlan::BroadcastRow,
        lc: LayoutPlan::RowIsh { il: 1, pad: 1 },
        a_broadcast: true,
        b_broadcast: false,
        a_bs_pad: 6,
        b_bs_pad: 7,
        c_bs_pad: 8,
        alpha_i: 1,
        beta_i: 2,
        par: Parallelism::Serial,
        seed: 9,
    };
    let j = run_batched(&p);
    assert_eq!((j.ty, j.batch, j.a_bs_pad, j.b_bs_pad, j.c_bs_pad), (TypeTag::F64, 2, 6, 7, 8));
    assert_eq!(run_batched(&BatchedPlan { ty64: false, ..p }).ty, TypeTag::F32);
    let p = PrepackPlan {
        ty: TypeTag::F16,
        m: 1,
        k: 2,
        n: 3,
        la: LayoutPlan::BroadcastRow,
        lb: LayoutPlan::BroadcastRow,
        alpha_i: 0,
        beta_i: 0,
        par: Parallelism::Serial,
        seed: 0,
    };
    assert_eq!(run_prepack(&p).ty, TypeTag::Bf16);
    assert_eq!(run_prepack(&PrepackPlan { ty: TypeTag::F64, ..p }).ty, TypeTag::F64);
    assert_eq!(run_prepack(&p).b_seed, 0x22);
}

fn geometry(entry: EntryKind) -> ValidationPlan {
    ValidationPlan {
        entry,
        len_a: 12,
        len_b: 12,
        len_c: 12,
        m: DimClass::Small(3),
        k: DimClass::Small(2),
        n: DimClass::Small(4),
        mc: DimClass::Small(3),
        nc: DimClass::Small(4),
        rsa: StrideClass::PSmall(2),
        csa: StrideClass::P1,
        rsb: StrideClass::PSmall(4),
        csb: StrideClass::P1,
        rsc: StrideClass::PSmall(4),
        csc: StrideClass::P1,
        batch: DimClass::One,
        a_bs: StrideClass::Zero,
        b_bs: StrideClass::Zero,
        c_bs: StrideClass::IMax,
        alpha_i: 1,
        beta_i: 0,
        conj_a: true,
        conj_b: false,
        par: Parallelism::Serial,
    }
}

#[test]
fn classes_stand_for_the_ends_of_their_ranges() {
    assert_eq!(DimClass::Zero.get(), 0);
    assert_eq!(DimClass::P31.get(), 1 << 31);
    assert_eq!(DimClass::P32p1.get(), (1 << 32) + 1);
    assert_eq!(DimClass::P33.get(), 1 << 33);
    assert_eq!(DimClass::HalfMax.get(), usize::MAX / 2);
    assert_eq!(DimClass::Max.get(), usize::MAX);
    assert_eq!(StrideClass::N1.get(), -1);
    assert_eq!(StrideClass::NSmall(5).get(), -5);
    assert_eq!(StrideClass::N31.get(), -(1 << 31));
    assert_eq!(StrideClass::P33.get(), 1 << 33);
    assert_eq!(StrideClass::N33.get(), -(1 << 33));
    assert_eq!(StrideClass::IMin.get(), isize::MIN);
    assert_eq!(StrideClass::IMax.get(), isize::MAX);
}

#[test]
fn adversarial_geometry_is_refused_skipped_or_run() {
    let ctx = Context::new();
    for entry in [
        EntryKind::Gemm,
        EntryKind::GemmI8,
        EntryKind::GemmCplx,
        EntryKind::Batched,
        EntryKind::PrepackB,
        EntryKind::PrepackA,
    ] {
        let p = geometry(entry);
        assert_eq!(drive_validation(&ctx, &p), Verdict::Ran, "{entry:?}");
    }
    let mut p = geometry(EntryKind::Gemm);
    p.mc = DimClass::P33;
    assert_eq!(
        drive_validation(&ctx, &p),
        Verdict::Refused(GemmError::RowsMismatch { a_rows: 3, c_rows: 1 << 33 })
    );
    let mut p = geometry(EntryKind::GemmI8);
    p.rsa = StrideClass::IMax;
    assert_eq!(
        drive_validation(&ctx, &p),
        Verdict::Refused(GemmError::Unaddressable { view: Operand::A })
    );
    // A depth that only a broadcast can have passes the checks, and is skipped.
    let mut p = geometry(EntryKind::GemmCplx);
    p.k = DimClass::P33;
    p.rsa = StrideClass::Zero;
    p.csa = StrideClass::Zero;
    p.rsb = StrideClass::Zero;
    p.csb = StrideClass::Zero;
    assert_eq!(drive_validation(&ctx, &p), Verdict::Skipped);
    let mut p = geometry(EntryKind::Batched);
    p.batch = DimClass::Zero;
    p.mc = DimClass::Max;
    assert_eq!(drive_validation(&ctx, &p), Verdict::Ran);
    p.batch = DimClass::Small(2);
    assert!(matches!(drive_validation(&ctx, &p), Verdict::Refused(_)));
    // A pack that no buffer holds is refused, one that is merely huge is skipped.
    let mut p = geometry(EntryKind::PrepackB);
    p.rsb = StrideClass::Zero;
    p.csb = StrideClass::Zero;
    p.k = DimClass::HalfMax;
    p.n = DimClass::HalfMax;
    assert_eq!(drive_validation(&ctx, &p), Verdict::Refused(GemmError::TooLarge));
    p.n = DimClass::One;
    assert_eq!(drive_validation(&ctx, &p), Verdict::Skipped);
}

#[test]
fn mirrored_checks() {
    assert_eq!(mirror_extent(3, 4, 10, 2), Some(27));
    assert_eq!(mirror_extent(3, 4, -10, 2), None);
    assert_eq!(mirror_extent(usize::MAX, 1, 1, 1), None);
    assert!(in_bounds(3, 4, 4, 1, 12));
    assert!(!in_bounds(3, 4, 4, 1, 11));
    assert!(mirror_self_aliases(2, 2, 1, 1));
    assert!(!mirror_self_aliases(2, 2, 2, 1));
    assert_eq!(sat3(usize::MAX, 2, 1), usize::MAX);
    assert_eq!(sat3(2, 3, 4), 24);
}

#[test]
fn a_batch_over_separate_views_agrees_with_its_reference() {
    let ctx = Context::new();
    let shapes = [(0, 3, 4, 5), (1, 1, 20, 1), (3, 7, 30, 6), (4, 40, 70, 33), (2, 2, 0, 3)];
    for (batch, m, k, n) in shapes {
        for (alpha, beta) in [(1, 0), (-2, 3), (0, 1)] {
            let r = batched_slice_real(&ctx, batch, m, k, n, alpha, beta, Parallelism::Serial, 7);
            assert_eq!(r, Ok(()), "{batch} of {m}x{k}x{n}");
        }
    }
}

#[test]
fn numbers_stand_for_classes() {
    assert_eq!(
        [0, 1, 2, 3, 4, 5, 6, 7, 8].map(|c| knob_class(c, 33)),
        [0, 1, 33, 33, 4096, 1 << 33, 1 << 48, usize::MAX - 1, usize::MAX]
    );
    assert_eq!(dim_class(2, 9), DimClass::Small(9));
    assert_eq!(dim_class(7, 9), DimClass::Max);
    assert_eq!(stride_class(4, 5), StrideClass::NSmall(5));
    assert_eq!(stride_class(9, 5), StrideClass::IMin);
    assert_eq!(layout_class(1, 2, 3), LayoutPlan::ColIsh { il: 2, pad: 3 });
    assert_eq!(layout_class(2, 2, 3), LayoutPlan::BroadcastRow);
    assert_eq!(type_class(3), TypeTag::Bf16);
    assert_eq!(packed_type_class(2), TypeTag::Bf16);
    assert_eq!(scenario_class(5), Scenario::I8);
    assert_eq!(entry_class(4), EntryKind::PrepackB);
    assert_eq!(
        [0, 1, 2, 3].map(par_class),
        [
            Parallelism::Serial,
            Parallelism::Serial,
            Parallelism::Rayon(1),
            Parallelism::Rayon(2)
        ]
    );
    assert_eq!(knob_par_class(5), Parallelism::Rayon(0));
}

#[test]
fn a_scale_outside_the_table_makes_a_plan_invalid() {
    let mut p = plan(TypeTag::F32);
    p.alpha_im_i = 6;
    assert!(p.is_valid());
    p.ty = TypeTag::C64;
    assert!(!p.is_valid());
    p = plan(TypeTag::I8);
    p.beta_i = 6;
    assert!(!p.is_valid());
    let Job::I8(mut j) = run_gemm(&plan(TypeTag::I8)) else {
        panic!("the integer type has a driver of its own");
    };
    assert!(j.can_run());
    j.lc = LayoutPlan::BroadcastRow;
    assert!(!j.can_run());
    j.lc = LayoutPlan::RowIsh { il: usize::MAX, pad: 1 };
    assert!(!j.can_run());
}
