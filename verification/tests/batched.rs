use gemmkit::dispatch::Operands;
use gemmkit::layout::Layout;
use gemmkit::{
    gemm, gemm_batched, gemm_batched_fused, gemm_batched_ptr_unchecked, gemm_batched_slice,
    gemm_batched_unchecked, gemm_fused, Activation, Batch, BatchProblem, Bias, GemmError,
    GemmProblem, MatMut, MatRef, Operand, Parallelism,
};

fn lcg(seed: u64, n: usize) -> Vec<i32> {
    let mut s = seed;
    (0..n)
        .map(|_| {
            s = s.wrapping_mul(6364136223846793005).wrapping_add(1442695040888963407);
            (s >> 33) as i32 - (1 << 30)
        })
        .collect()
}

#[test]
fn a_batch_is_a_loop_of_products() {
    let (batch, m, k, n) = (4, 5, 7, 3);
    let a = lcg(1, batch * 40);
    let b = lcg(2, k * n);
    let c0 = lcg(3, batch * 20);
    let mut c = c0.clone();
    // A is 40 apart, B is shared, C is 20 apart with a gap.
    gemm_batched(
        batch,
        3,
        MatRef::from_row_major(&a, m, k),
        40,
        MatRef::from_row_major(&b, k, n),
        0,
        -1,
        MatMut::from_row_major(&mut c, m, n),
        20,
        Parallelism::Rayon(2),
    )
    .unwrap();
    for e in 0..batch {
        let mut one = c0[e * 20..e * 20 + m * n].to_vec();
        gemm(
            3,
            MatRef::from_row_major(&a[e * 40..], m, k),
            MatRef::from_row_major(&b, k, n),
            -1,
            MatMut::from_row_major(&mut one, m, n),
            Parallelism::Serial,
        )
        .unwrap();
        assert_eq!(c[e * 20..e * 20 + m * n], one[..]);
        assert_eq!(c[e * 20 + m * n..(e + 1) * 20], c0[e * 20 + m * n..(e + 1) * 20]);
    }
}

#[test]
fn a_fused_batch_shares_one_bias() {
    let (batch, m, k, n) = (3, 2, 4, 3);
    let a = lcg(1, batch * m * k);
    let b = lcg(2, batch * k * n);
    let c0 = lcg(3, batch * m * n);
    let bias = lcg(4, n);
    let mut c = c0.clone();
    gemm_batched_fused(
        batch,
        1,
        MatRef::from_row_major(&a, m, k),
        (m * k) as isize,
        MatRef::from_row_major(&b, k, n),
        (k * n) as isize,
        1,
        MatMut::from_row_major(&mut c, m, n),
        (m * n) as isize,
        Some(Bias::PerCol(&bias)),
        Some(Activation::Relu),
        Parallelism::Serial,
    )
    .unwrap();
    for e in 0..batch {
        let mut one = c0[e * m * n..(e + 1) * m * n].to_vec();
        gemm_fused(
            1,
            MatRef::from_row_major(&a[e * m * k..], m, k),
            MatRef::from_row_major(&b[e * k * n..], k, n),
            1,
            MatMut::from_row_major(&mut one, m, n),
            Some(Bias::PerCol(&bias)),
            Some(Activation::Relu),
            Parallelism::Serial,
        )
        .unwrap();
        assert_eq!(c[e * m * n..(e + 1) * m * n], one[..]);
    }
    let mut d = c0.clone();
    let r = gemm_batched_fused(
        batch,
        1,
        MatRef::from_row_major(&a, m, k),
        0,
        MatRef::from_row_major(&b, k, n),
        0,
        1,
        MatMut::from_row_major(&mut d, m, n),
        (m * n) as isize,
        Some(Bias::PerRow(&bias)),
        None,
        Parallelism::Serial,
    );
    assert_eq!(
        r,
        Err(GemmError::LengthMismatch { view: Operand::Bias, want: 2, len: 3 })
    );
    assert_eq!(d, c0);
}

#[test]
fn refusals_of_a_batch() {
    let x = [1; 24];
    let run = |batch: usize, sa: isize, sb: isize, sc: isize| {
        let mut c = [7; 16];
        let r = gemm_batched(
            batch,
            1,
            MatRef::from_row_major(&x, 2, 2),
            sa,
            MatRef::from_row_major(&x, 2, 2),
            sb,
            0,
            MatMut::from_row_major(&mut c, 2, 2),
            sc,
            Parallelism::Serial,
        );
        assert!(r.is_ok() || c == [7; 16]);
        (r, c)
    };
    assert_eq!(
        run(2, -4, 0, 4).0,
        Err(GemmError::NegativeBatchStride { view: Operand::A })
    );
    assert_eq!(
        run(3, 0, 11, 4).0,
        Err(GemmError::OutOfBounds { view: Operand::B, need: 26, len: 24 })
    );
    assert_eq!(
        run(2, 4, 4, 3).0,
        Err(GemmError::BatchOverlap { stride: 3, extent: 4 })
    );
    assert_eq!(
        run(5, 4, 4, 4).0,
        Err(GemmError::OutOfBounds { view: Operand::C, need: 20, len: 16 })
    );
    assert_eq!(
        run(usize::MAX, isize::MAX, 0, 4).0,
        Err(GemmError::OutOfBounds { view: Operand::A, need: usize::MAX, len: 24 })
    );
    // A stride does not matter where there is one element, nor anything where there is none.
    assert_eq!(run(1, -4, -4, -4).0, Ok(()));
    assert_eq!(run(0, -4, -4, -4), (Ok(()), [7; 16]));
    assert_eq!(run(4, 4, 0, 4).0, Ok(()));
}

#[test]
fn a_batch_of_separate_views() {
    let a = [1, 2, 3, 4];
    let b = [5, 6, 7, 8];
    let mut c0 = [1; 4];
    let mut c1 = [1; 2];
    let mut problems = vec![
        BatchProblem {
            alpha: 1,
            a: MatRef::from_row_major(&a, 2, 2),
            b: MatRef::from_row_major(&b, 2, 2),
            beta: 0,
            c: MatMut::from_row_major(&mut c0, 2, 2),
        },
        BatchProblem {
            alpha: 2,
            a: MatRef::from_row_major(&a, 2, 1),
            b: MatRef::from_row_major(&b, 1, 1),
            beta: 3,
            c: MatMut::from_row_major(&mut c1, 2, 1),
        },
    ];
    assert_eq!(gemm_batched_slice(&mut problems, Parallelism::Serial), Ok(()));
    drop(problems);
    assert_eq!(c0, [19, 22, 43, 50]);
    assert_eq!(c1, [13, 23]);
}

#[test]
fn a_bad_element_is_found_before_any_is_run() {
    let a = [1, 2, 3, 4];
    let mut c0 = [9; 4];
    let mut c1 = [9; 4];
    let mut problems = vec![
        BatchProblem {
            alpha: 1,
            a: MatRef::from_row_major(&a, 2, 2),
            b: MatRef::from_row_major(&a, 2, 2),
            beta: 0,
            c: MatMut::from_row_major(&mut c0, 2, 2),
        },
        BatchProblem {
            alpha: 1,
            a: MatRef::from_row_major(&a, 2, 2),
            b: MatRef::from_row_major(&a, 2, 2),
            beta: 0,
            c: MatMut::new(&mut c1, 2, 2, 1, 1),
        },
    ];
    assert_eq!(
        gemm_batched_slice(&mut problems, Parallelism::Serial),
        Err((1, GemmError::SelfAliasing))
    );
    drop(problems);
    assert_eq!(c0, [9; 4]);
}

#[test]
fn batches_without_checks() {
    let x = [1, 2, 3, 4];
    let mut c = [0; 4];
    // Elements run backwards through C.
    gemm_batched_unchecked(
        1,
        Batch {
            batch: 4,
            ops: Operands {
                m: 1,
                k: 1,
                n: 1,
                a: &x,
                la: Layout { off: 0, rs: 1, cs: 1 },
                b: &x,
                lb: Layout { off: 1, rs: 1, cs: 1 },
                lc: Layout { off: 3, rs: 1, cs: 1 },
            },
            a_stride: 1,
            b_stride: 0,
            c_stride: -1,
        },
        0,
        &mut c,
        Parallelism::Serial,
    )
    .unwrap();
    assert_eq!(c, [8, 6, 4, 2]);
    let one = |a: usize, c: usize, alpha: i32| GemmProblem {
        alpha,
        beta: 1,
        ops: Operands {
            m: 1,
            k: 1,
            n: 1,
            a: &x,
            la: Layout { off: a, rs: 1, cs: 1 },
            b: &x,
            lb: Layout { off: 0, rs: 1, cs: 1 },
            lc: Layout { off: c, rs: 1, cs: 1 },
        },
    };
    gemm_batched_ptr_unchecked(&[one(0, 3, 10), one(3, 0, 100)], Parallelism::Serial, &mut c)
        .unwrap();
    assert_eq!(c, [408, 6, 4, 12]);
    assert_eq!(one(2, 1, 5).task().alpha, 5);
}
