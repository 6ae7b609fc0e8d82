use gemmkit::layout::Layout;
use gemmkit::{
    gemm, gemm_fused, gemm_i8, gemm_i8_packed_b, gemm_i8_packed_b_with, gemm_packed_a,
    gemm_packed_a_fused, gemm_packed_a_unchecked, gemm_packed_b, gemm_packed_b_fused,
    gemm_packed_b_fused_unchecked, gemm_packed_b_unchecked, prepack_lhs, prepack_lhs_unchecked,
    prepack_rhs, prepack_rhs_i8, prepack_rhs_unchecked, Activation, Bias, BiasDim, Context,
    GemmError, MatMut, MatRef, Operand, PackedConsume, Parallelism,
};

fn lcg(seed: u64, n: usize) -> Vec<i32> {
    let mut s = seed;
    (0..n)
        .map(|_| {
            s = s.wrapping_mul(6364136223846793005).wrapping_add(1442695040888963407);
            (s >> 33) as i32 - (1 << 30)
        })
        .collect()
}

fn bytes(seed: u64, n: usize) -> Vec<i8> {
    lcg(seed, n).into_iter().map(|v| (v >> 7) as i8).collect()
}

#[test]
fn a_prepacked_right_operand_gives_the_plain_product() {
    let ctx = Context::new();
    for (m, k, n) in [(1, 3, 4), (9, 30, 7), (40, 1200, 33), (5, 0, 4)] {
        let a = lcg(1, m * k);
        let b = lcg(2, k * n);
        let c0 = lcg(3, m * n);
        let packed = prepack_rhs(&ctx, MatRef::from_row_major(&b, k, n)).unwrap();
        assert_eq!((packed.rows(), packed.cols()), (k, n));
        let mut want = c0.clone();
        gemm(
            7,
            MatRef::from_row_major(&a, m, k),
            MatRef::from_row_major(&b, k, n),
            -2,
            MatMut::from_col_major(&mut want, m, n),
            Parallelism::Serial,
        )
        .unwrap();
        // The same pack serves several products.
        for par in [Parallelism::Serial, Parallelism::Rayon(3)] {
            let mut c = c0.clone();
            gemm_packed_b(
                7,
                MatRef::from_row_major(&a, m, k),
                &packed,
                -2,
                MatMut::from_col_major(&mut c, m, n),
                par,
            )
            .unwrap();
            assert_eq!(c, want, "{m}x{k}x{n}");
        }
    }
}

#[test]
fn a_prepacked_left_operand_gives_the_plain_product() {
    let ctx = Context::new();
    for (m, k, n) in [(4, 3, 1), (9, 30, 7), (33, 1200, 40), (5, 0, 4)] {
        let a = lcg(1, m * k);
        let b = lcg(2, k * n);
        let c0 = lcg(3, m * n);
        let packed = prepack_lhs(&ctx, MatRef::from_col_major(&a, m, k)).unwrap();
        assert_eq!((packed.rows(), packed.cols()), (m, k));
        let mut want = c0.clone();
        gemm(
            7,
            MatRef::from_col_major(&a, m, k),
            MatRef::from_row_major(&b, k, n),
            -2,
            MatMut::from_row_major(&mut want, m, n),
            Parallelism::Serial,
        )
        .unwrap();
        let mut c = c0.clone();
        gemm_packed_a(
            7,
            &packed,
            MatRef::from_row_major(&b, k, n),
            -2,
            MatMut::from_row_major(&mut c, m, n),
            Parallelism::Serial,
        )
        .unwrap();
        assert_eq!(c, want, "{m}x{k}x{n}");
    }
}

#[test]
fn fused_products_with_a_prepacked_operand() {
    let ctx = Context::new();
    let (m, k, n) = (11, 50, 9);
    let a = lcg(1, m * k);
    let b = lcg(2, k * n);
    let c0 = lcg(3, m * n);
    let row = lcg(4, m);
    let col = lcg(5, n);
    let pb = prepack_rhs(&ctx, MatRef::from_row_major(&b, k, n)).unwrap();
    let pa = prepack_lhs(&ctx, MatRef::from_row_major(&a, m, k)).unwrap();
    for bias in [Some(Bias::PerRow(&row[..])), Some(Bias::PerCol(&col[..])), None] {
        let again = || match &bias {
            Some(Bias::PerRow(s)) => Some(Bias::PerRow(*s)),
            Some(Bias::PerCol(s)) => Some(Bias::PerCol(*s)),
            None => None,
        };
        let mut want = c0.clone();
        gemm_fused(
            3,
            MatRef::from_row_major(&a, m, k),
            MatRef::from_row_major(&b, k, n),
            1,
            MatMut::from_col_major(&mut want, m, n),
            again(),
            Some(Activation::Relu),
            Parallelism::Serial,
        )
        .unwrap();
        let mut c = c0.clone();
        gemm_packed_b_fused(
            3,
            MatRef::from_row_major(&a, m, k),
            &pb,
            1,
            MatMut::from_col_major(&mut c, m, n),
            again(),
            Some(Activation::Relu),
            Parallelism::Serial,
        )
        .unwrap();
        assert_eq!(c, want);
        let mut want = c0.clone();
        gemm_fused(
            3,
            MatRef::from_row_major(&a, m, k),
            MatRef::from_row_major(&b, k, n),
            1,
            MatMut::from_row_major(&mut want, m, n),
            again(),
            Some(Activation::LeakyRelu(2)),
            Parallelism::Serial,
        )
        .unwrap();
        let mut c = c0.clone();
        gemm_packed_a_fused(
            3,
            &pa,
            MatRef::from_row_major(&b, k, n),
            1,
            MatMut::from_row_major(&mut c, m, n),
            again(),
            Some(Activation::LeakyRelu(2)),
            Parallelism::Serial,
        )
        .unwrap();
        assert_eq!(c, want);
    }
}

#[test]
fn without_an_epilogue_the_fused_entry_is_the_plain_one() {
    let ctx = Context::new();
    let (m, k, n) = (6, 20, 5);
    let a = lcg(1, m * k);
    let b = lcg(2, k * n);
    let pb = prepack_rhs(&ctx, MatRef::from_row_major(&b, k, n)).unwrap();
    let mut plain = lcg(3, m * n);
    let mut fused = plain.clone();
    gemm_packed_b(
        2,
        MatRef::from_row_major(&a, m, k),
        &pb,
        3,
        MatMut::from_col_major(&mut plain, m, n),
        Parallelism::Serial,
    )
    .unwrap();
    gemm_packed_b_fused(
        2,
        MatRef::from_row_major(&a, m, k),
        &pb,
        3,
        MatMut::from_col_major(&mut fused, m, n),
        None,
        None,
        Parallelism::Serial,
    )
    .unwrap();
    assert_eq!(plain, fused);
}

#[test]
fn a_prepacked_integer_operand_gives_the_plain_product() {
    let (m, k, n) = (19, 130, 26);
    let a = bytes(1, m * k);
    let b = bytes(2, k * n);
    let c0 = lcg(3, m * n);
    let mut want = c0.clone();
    gemm_i8(
        -5,
        MatRef::from_row_major(&a, m, k),
        MatRef::from_row_major(&b, k, n),
        3,
        MatMut::from_col_major(&mut want, m, n),
        Parallelism::Serial,
    )
    .unwrap();
    let mut dot = Context::new();
    dot.kernels.byte.depth_multiple = 4;
    for ctx in [Context::new(), dot] {
        let packed = prepack_rhs_i8(&ctx, MatRef::from_row_major(&b, k, n)).unwrap();
        let mut c = c0.clone();
        gemm_i8_packed_b_with(
            &ctx,
            -5,
            MatRef::from_row_major(&a, m, k),
            &packed,
            3,
            MatMut::from_col_major(&mut c, m, n),
            Parallelism::Serial,
        )
        .unwrap();
        assert_eq!(c, want);
        // A zero alpha leaves only the scaled C.
        let mut c = c0.clone();
        gemm_i8_packed_b(
            0,
            MatRef::from_row_major(&a, m, k),
            &packed,
            3,
            MatMut::from_col_major(&mut c, m, n),
            Parallelism::Serial,
        )
        .unwrap();
        assert_eq!(c[0], c0[0].wrapping_mul(3));
    }
}

#[test]
fn refusals_of_the_prepacked_entries() {
    let ctx = Context::new();
    let x = [1; 12];
    let pb = prepack_rhs(&ctx, MatRef::from_row_major(&x, 3, 2)).unwrap();
    let pa = prepack_lhs(&ctx, MatRef::from_row_major(&x, 2, 3)).unwrap();
    let by_b = |a: (usize, usize), c: (usize, usize, isize, isize)| {
        let mut out = [5; 8];
        let r = gemm_packed_b(
            1,
            MatRef::from_row_major(&x, a.0, a.1),
            &pb,
            0,
            MatMut::new(&mut out, c.0, c.1, c.2, c.3),
            Parallelism::Serial,
        );
        assert!(r.is_ok() || out == [5; 8]);
        r
    };
    assert_eq!(
        by_b((2, 2), (2, 2, 1, 2)),
        Err(GemmError::InnerMismatch { a_cols: 2, b_rows: 3 })
    );
    assert_eq!(
        by_b((2, 3), (2, 3, 1, 2)),
        Err(GemmError::ColsMismatch { b_cols: 2, c_cols: 3 })
    );
    assert_eq!(
        by_b((2, 3), (3, 2, 1, 3)),
        Err(GemmError::RowsMismatch { a_rows: 2, c_rows: 3 })
    );
    assert_eq!(by_b((2, 3), (2, 2, 2, 1)), Err(GemmError::Orientation));
    assert_eq!(by_b((2, 3), (2, 2, 1, 2)), Ok(()));
    let by_a = |b: (usize, usize), c: (usize, usize, isize, isize)| {
        let mut out = [5; 8];
        gemm_packed_a(
            1,
            &pa,
            MatRef::from_row_major(&x, b.0, b.1),
            0,
            MatMut::new(&mut out, c.0, c.1, c.2, c.3),
            Parallelism::Serial,
        )
    };
    assert_eq!(
        by_a((2, 2), (2, 2, 2, 1)),
        Err(GemmError::InnerMismatch { a_cols: 3, b_rows: 2 })
    );
    assert_eq!(
        by_a((3, 2), (3, 2, 2, 1)),
        Err(GemmError::RowsMismatch { a_rows: 2, c_rows: 3 })
    );
    assert_eq!(by_a((3, 2), (2, 2, 1, 2)), Err(GemmError::Orientation));
    assert_eq!(by_a((3, 2), (2, 2, 2, 1)), Ok(()));
    // A view that leaves its slice, and one whose pack would overflow.
    assert_eq!(
        prepack_rhs(&ctx, MatRef::from_row_major(&x, 5, 5)).err(),
        Some(GemmError::OutOfBounds { view: Operand::B, need: 25, len: 12 })
    );
    assert_eq!(
        prepack_lhs(&ctx, MatRef::new(&x, 2, 3, -3, 1)).err(),
        Some(GemmError::Unaddressable { view: Operand::A })
    );
    let huge = isize::MAX as usize;
    assert_eq!(
        prepack_rhs(&ctx, MatRef::new(&x, huge, huge, 0, 0)).err(),
        Some(GemmError::TooLarge)
    );
    let b8 = [1i8; 4];
    assert_eq!(
        prepack_rhs_i8(&ctx, MatRef::new(&b8, huge, huge, 0, 0)).err(),
        Some(GemmError::TooLarge)
    );
}

#[test]
fn prepacked_operands_without_checks() {
    let ctx = Context::new();
    let x = [9, 1, 2, 3, 4];
    let l = Layout { off: 1, rs: 2, cs: 1 };
    let packed = prepack_rhs_unchecked(&ctx, &x, l, 2, 2).unwrap();
    let mut c = [0; 4];
    gemm_packed_b_unchecked(
        PackedConsume {
            m: 2,
            alpha: 1,
            a: &x,
            la: l,
            packed: &packed,
            beta: 0,
            lc: Layout { off: 0, rs: 1, cs: 2 },
        },
        &mut c,
        Parallelism::Serial,
    )
    .unwrap();
    assert_eq!(c, [7, 15, 10, 22]);
    let mut d = [0; 4];
    gemm_packed_b_fused_unchecked(
        PackedConsume {
            m: 2,
            alpha: 1,
            a: &x,
            la: l,
            packed: &packed,
            beta: 0,
            lc: Layout { off: 0, rs: 1, cs: 2 },
        },
        &mut d,
        &[100, 200],
        BiasDim::PerCol,
        true,
        None,
        Parallelism::Serial,
    )
    .unwrap();
    assert_eq!(d, [107, 115, 210, 222]);
    let left = prepack_lhs_unchecked(&ctx, &x, l, 2, 2).unwrap();
    let mut e = [0; 4];
    gemm_packed_a_unchecked(
        1,
        &left,
        2,
        &x,
        l,
        0,
        &mut e,
        Layout { off: 0, rs: 2, cs: 1 },
        Parallelism::Serial,
    )
    .unwrap();
    assert_eq!(e, [7, 10, 15, 22]);
}
