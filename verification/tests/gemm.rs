use gemmkit::cache::{CacheTopology, Level};
use gemmkit::dispatch::Operands;
use gemmkit::isa::Kernels;
use gemmkit::layout::Layout;
use gemmkit::{
    gemm, gemm_i8, gemm_i8_unchecked, gemm_i8_with, gemm_unchecked, gemm_with, Context, GemmError,
    MatMut, MatRef, Operand, Parallelism,
};

fn lcg(seed: u64, n: usize) -> Vec<i32> {
    let mut s = seed;
    (0..n)
        .map(|_| {
            s = s.wrapping_mul(6364136223846793005).wrapping_add(1442695040888963407);
            (s >> 33) as i32 - (1 << 30)
        })
        .collect()
}

/// `alpha*A*B + beta*C` by three loops, modulo `2^32`.
fn naive(
    a: &dyn Fn(usize, usize) -> i32,
    b: &dyn Fn(usize, usize) -> i32,
    c: &dyn Fn(usize, usize) -> i32,
    (m, k, n): (usize, usize, usize),
    alpha: i32,
    beta: i32,
) -> Vec<i32> {
    let mut out = Vec::new();
    for i in 0..m {
        for j in 0..n {
            let mut s = 0i32;
            for p in 0..k {
                s = s.wrapping_add(a(i, p).wrapping_mul(b(p, j)));
            }
            out.push(alpha.wrapping_mul(s).wrapping_add(beta.wrapping_mul(c(i, j))));
        }
    }
    out
}

#[test]
fn the_product_of_two_small_matrices() {
    let a = [1, 2, 3, 4, 5, 6];
    let b = [7, 8, 9, 10, 11, 12];
    let mut c = [0; 4];
    let r = gemm(
        1,
        MatRef::from_row_major(&a, 2, 3),
        MatRef::from_row_major(&b, 3, 2),
        0,
        MatMut::from_row_major(&mut c, 2, 2),
        Parallelism::Serial,
    );
    assert_eq!(r, Ok(()));
    assert_eq!(c, [58, 64, 139, 154]);
}

#[test]
fn a_transposed_operand_needs_no_copy() {
    // The same A, stored by columns.
    let a = [1, 4, 2, 5, 3, 6];
    let b = [7, 8, 9, 10, 11, 12];
    let mut c = [1000; 4];
    gemm(
        2,
        MatRef::from_col_major(&a, 2, 3),
        MatRef::from_row_major(&b, 3, 2),
        -1,
        MatMut::from_col_major(&mut c, 2, 2),
        Parallelism::Serial,
    )
    .unwrap();
    assert_eq!(c, [116 - 1000, 278 - 1000, 128 - 1000, 308 - 1000]);
}

#[test]
fn every_route_and_split_gives_the_exact_result() {
    // Shapes that go to the matrix-vector route, the small routes, the shallow route and the
    // blocked driver, with a cache so small that the driver splits every dimension.
    let level = |bytes: usize| Level {
        bytes,
        assoc: 2,
        line: 64,
        shared_by: 1,
    };
    let mut ctx = Context::new();
    ctx.machine.cache = CacheTopology {
        l1d: level(4096),
        l2: level(8192),
        l3: Some(level(16384)),
    };
    ctx.tuning.set_tiny_block_dim(0);
    ctx.tuning.set_kc_min(1);
    ctx.tuning.set_mc_reg_panels(2);
    ctx.tuning.set_rhs_pack_threshold(8);
    ctx.tuning.set_lhs_pack_threshold(4);
    ctx.workers = 4;
    for (m, k, n) in [
        (1, 40, 30),
        (30, 40, 1),
        (3, 90, 5),
        (20, 5, 20),
        (37, 700, 29),
        (17, 1000, 41),
    ] {
        let a = lcg(1, m * k);
        let b = lcg(2, k * n);
        let c0 = lcg(3, m * n);
        let want = naive(
            &|i, p| a[i * k + p],
            &|p, j| b[p * n + j],
            &|i, j| c0[i * n + j],
            (m, k, n),
            3,
            -5,
        );
        for par in [
            Parallelism::Serial,
            Parallelism::Rayon(1),
            Parallelism::Rayon(3),
            Parallelism::Rayon(0),
        ] {
            let mut c = c0.clone();
            gemm_with(
                &ctx,
                3,
                MatRef::from_row_major(&a, m, k),
                MatRef::from_row_major(&b, k, n),
                -5,
                MatMut::from_row_major(&mut c, m, n),
                par,
            )
            .unwrap();
            assert_eq!(c, want, "{m}x{k}x{n} {par:?}");
            // The same by columns.
            let mut t = vec![0; m * n];
            for i in 0..m {
                for j in 0..n {
                    t[j * m + i] = c0[i * n + j];
                }
            }
            gemm_with(
                &ctx,
                3,
                MatRef::from_row_major(&a, m, k),
                MatRef::from_row_major(&b, k, n),
                -5,
                MatMut::from_col_major(&mut t, m, n),
                par,
            )
            .unwrap();
            for i in 0..m {
                for j in 0..n {
                    assert_eq!(t[j * m + i], want[i * n + j]);
                }
            }
        }
    }
}

#[test]
fn degenerate_products_scale_c() {
    let a: [i32; 0] = [];
    for (beta, want) in [(0, 0), (1, 7), (3, 21)] {
        let mut c = [7; 6];
        gemm(
            5,
            MatRef::from_row_major(&a, 2, 0),
            MatRef::from_row_major(&a, 0, 3),
            beta,
            MatMut::from_row_major(&mut c, 2, 3),
            Parallelism::Serial,
        )
        .unwrap();
        assert_eq!(c, [want; 6]);
        let x = [1, 2, 3, 4, 5, 6];
        let mut c = [7; 4];
        gemm(
            0,
            MatRef::from_row_major(&x, 2, 3),
            MatRef::from_row_major(&x, 3, 2),
            beta,
            MatMut::from_row_major(&mut c, 2, 2),
            Parallelism::Serial,
        )
        .unwrap();
        assert_eq!(c, [want; 4]);
    }
    // An empty output is left alone.
    let mut c = [9; 3];
    gemm(
        1,
        MatRef::new(&a, 0, 5, 1, 1),
        MatRef::new(&[1; 25], 5, 5, 5, 1),
        0,
        MatMut::new(&mut c, 0, 5, 1, 1),
        Parallelism::Serial,
    )
    .unwrap();
    assert_eq!(c, [9; 3]);
}

#[test]
fn what_lies_outside_the_view_is_untouched() {
    let a = [1, 2, 3, 4];
    let mut c = [-1; 10];
    // Rows 5 apart, columns 2 apart.
    gemm(
        1,
        MatRef::from_row_major(&a, 2, 2),
        MatRef::from_row_major(&a, 2, 2),
        0,
        MatMut::new(&mut c, 2, 2, 5, 2),
        Parallelism::Serial,
    )
    .unwrap();
    assert_eq!(c, [7, -1, 10, -1, -1, 15, -1, 22, -1, -1]);
}

#[test]
fn refusals_of_the_plain_entry() {
    let x = [0; 12];
    let call = |a: (usize, usize, isize, isize),
                b: (usize, usize, isize, isize),
                c: (usize, usize, isize, isize)| {
        let mut out = [5; 6];
        let r = gemm(
            1,
            MatRef::new(&x, a.0, a.1, a.2, a.3),
            MatRef::new(&x, b.0, b.1, b.2, b.3),
            0,
            MatMut::new(&mut out, c.0, c.1, c.2, c.3),
            Parallelism::Serial,
        );
        if r.is_err() {
            assert_eq!(out, [5; 6], "a refused call writes nothing");
        }
        r
    };
    let ok = (2, 3, 3, 1);
    assert_eq!(
        call(ok, (2, 2, 2, 1), (2, 2, 2, 1)),
        Err(GemmError::InnerMismatch { a_cols: 3, b_rows: 2 })
    );
    assert_eq!(
        call(ok, (3, 2, 2, 1), (3, 2, 2, 1)),
        Err(GemmError::RowsMismatch { a_rows: 2, c_rows: 3 })
    );
    assert_eq!(
        call(ok, (3, 2, 2, 1), (2, 3, 3, 1)),
        Err(GemmError::ColsMismatch { b_cols: 2, c_cols: 3 })
    );
    assert_eq!(
        call((2, 3, 10, 1), (3, 2, 2, 1), (2, 2, 2, 1)),
        Err(GemmError::OutOfBounds { view: Operand::A, need: 13, len: 12 })
    );
    assert_eq!(
        call(ok, (3, 2, -2, 1), (2, 2, 2, 1)),
        Err(GemmError::Unaddressable { view: Operand::B })
    );
    assert_eq!(
        call(ok, (3, 2, 2, 1), (2, 2, 5, 1)),
        Err(GemmError::OutOfBounds { view: Operand::C, need: 7, len: 6 })
    );
    assert_eq!(
        call(ok, (3, 2, 2, 1), (2, 2, 0, 1)),
        Err(GemmError::SelfAliasing)
    );
    // A broadcast operand may alias itself, an output may not.
    assert_eq!(call((2, 3, 0, 1), (3, 2, 2, 1), (2, 2, 2, 1)), Ok(()));
    // A dimension of length 1 may have any stride.
    assert_eq!(call((2, 3, 3, 1), (3, 1, 1, -7), (2, 1, 1, -9)), Ok(()));
}

#[test]
fn a_broadcast_depth_that_no_buffer_holds_is_too_large() {
    let x = [1i32; 1];
    let mut c = [0i32; 256];
    let k = isize::MAX as usize;
    let mut ctx = Context::new();
    ctx.tuning.set_kc_min(usize::MAX);
    ctx.tuning.set_tiny_block_dim(0);
    ctx.tuning.set_gemv_threshold(0);
    ctx.tuning.set_small_mn_dim(0);
    let r = gemm_with(
        &ctx,
        1,
        MatRef::new(&x, 16, k, 0, 0),
        MatRef::new(&x, k, 16, 0, 0),
        0,
        MatMut::from_row_major(&mut c, 16, 16),
        Parallelism::Serial,
    );
    assert_eq!(r, Err(GemmError::TooLarge));
    assert_eq!(c, [0; 256]);
}

#[test]
fn negative_strides_go_through_the_unchecked_entry() {
    let a = [1, 2, 3, 4, 5, 6];
    let b = [7, 8, 9, 10, 11, 12];
    let mut c = [0; 4];
    // Both rows and columns of A and C reversed.
    gemm_unchecked(
        1,
        Operands {
            m: 2,
            k: 3,
            n: 2,
            a: &a,
            la: Layout { off: 5, rs: -3, cs: -1 },
            b: &b,
            lb: Layout { off: 0, rs: 2, cs: 1 },
            lc: Layout { off: 3, rs: -2, cs: -1 },
        },
        0,
        &mut c,
        Parallelism::Serial,
    )
    .unwrap();
    // A reversed is [6 5 4; 3 2 1].
    assert_eq!(c, [56, 50, 146, 131]);
}

#[test]
fn the_integer_product_wraps() {
    let a = [127i8, -128, 1, -1];
    let b = [127i8, -128, 2, 3];
    let mut c = [i32::MAX, 5, -7, i32::MIN];
    gemm_i8(
        65536,
        MatRef::from_row_major(&a, 2, 2),
        MatRef::from_row_major(&b, 2, 2),
        3,
        MatMut::from_row_major(&mut c, 2, 2),
        Parallelism::Serial,
    )
    .unwrap();
    let dot = [
        127 * 127 - 128 * 2,
        -127 * 128 - 128 * 3,
        127 - 2,
        -128 - 3,
    ];
    let old = [i32::MAX, 5, -7, i32::MIN];
    for x in 0..4 {
        assert_eq!(
            c[x],
            65536i32.wrapping_mul(dot[x]).wrapping_add(3i32.wrapping_mul(old[x]))
        );
    }
}

fn bytes(seed: u64, n: usize) -> Vec<i8> {
    lcg(seed, n).into_iter().map(|v| (v >> 7) as i8).collect()
}

#[test]
fn the_kernel_does_not_show_in_an_integer_product() {
    let (m, k, n) = (33, 130, 27);
    let a = bytes(4, m * k);
    let b = bytes(5, k * n);
    let c0 = lcg(6, m * n);
    let want = naive(
        &|i, p| a[i * k + p] as i32,
        &|p, j| b[p * n + j] as i32,
        &|i, j| c0[i * n + j],
        (m, k, n),
        -3,
        2,
    );
    let scalar = Context::new();
    let mut dot = Context::new();
    dot.kernels.byte.isa = gemmkit::isa::Isa::Avx512Vnni;
    dot.kernels.byte.mr = 32;
    dot.kernels.byte.nr = 12;
    dot.kernels.byte.depth_multiple = 4;
    for ctx in [scalar, dot] {
        for par in [Parallelism::Serial, Parallelism::Rayon(4)] {
            let mut c = c0.clone();
            gemm_i8_with(
                &ctx,
                -3,
                MatRef::from_row_major(&a, m, k),
                MatRef::from_row_major(&b, k, n),
                2,
                MatMut::from_row_major(&mut c, m, n),
                par,
            )
            .unwrap();
            assert_eq!(c, want);
        }
    }
    assert_eq!(Kernels::scalar().byte.depth_multiple, 1);
}

#[test]
fn integer_degenerate_products() {
    let e: [i8; 0] = [];
    let mut c = [3, 4];
    gemm_i8(
        1,
        MatRef::from_row_major(&e, 1, 0),
        MatRef::from_row_major(&e, 0, 2),
        -2,
        MatMut::from_row_major(&mut c, 1, 2),
        Parallelism::Serial,
    )
    .unwrap();
    assert_eq!(c, [-6, -8]);
    let x = [1i8, 2];
    gemm_i8_unchecked(
        0,
        Operands {
            m: 1,
            k: 1,
            n: 2,
            a: &x,
            la: Layout { off: 0, rs: 1, cs: 1 },
            b: &x,
            lb: Layout { off: 0, rs: 2, cs: 1 },
            lc: Layout { off: 0, rs: 2, cs: 1 },
        },
        0,
        &mut c,
        Parallelism::Serial,
    )
    .unwrap();
    assert_eq!(c, [0, 0]);
}
