use gemmkit::dispatch::Operands;
use gemmkit::layout::Layout;
use gemmkit::{
    gemm, gemm_fused, gemm_fused_unchecked, gemm_map, gemm_map_unchecked, Activation, Bias, BiasDim,
    GemmError, MatMut, MatRef, Operand, Parallelism,
};

#[test]
fn bias_and_activation() {
    let a = [1, 2, 3, 4];
    let b = [1, 0, 0, -1];
    let run = |bias: Option<Bias<'_, i32>>, act: Option<Activation<i32>>| {
        let mut c = [10; 4];
        gemm_fused(
            1,
            MatRef::from_row_major(&a, 2, 2),
            MatRef::from_row_major(&b, 2, 2),
            1,
            MatMut::from_row_major(&mut c, 2, 2),
            bias,
            act,
            Parallelism::Serial,
        )
        .map(|_| c)
    };
    // The plain product is [1 -2; 3 -4] + 10.
    assert_eq!(run(None, None), Ok([11, 8, 13, 6]));
    assert_eq!(run(Some(Bias::PerRow(&[-10, -20])), None), Ok([1, -2, -7, -14]));
    assert_eq!(
        run(Some(Bias::PerRow(&[-10, -20])), Some(Activation::Relu)),
        Ok([1, 0, 0, 0])
    );
    assert_eq!(
        run(Some(Bias::PerCol(&[-12, 0])), Some(Activation::LeakyRelu(3))),
        Ok([-3, 8, 1, 6])
    );
    assert_eq!(
        run(Some(Bias::PerCol(&[1])), None),
        Err(GemmError::LengthMismatch { view: Operand::Bias, want: 2, len: 1 })
    );
    assert_eq!(
        run(Some(Bias::PerRow(&[1, 2, 3])), None),
        Err(GemmError::LengthMismatch { view: Operand::Bias, want: 2, len: 3 })
    );
}

#[test]
fn a_degenerate_fused_product_still_has_its_epilogue() {
    let e: [i32; 0] = [];
    for (beta, want) in [(0, [5, 6]), (1, [15, 16]), (-2, [0, 0])] {
        let mut c = [10, 10];
        gemm_fused(
            1,
            MatRef::from_row_major(&e, 1, 0),
            MatRef::from_row_major(&e, 0, 2),
            beta,
            MatMut::from_row_major(&mut c, 1, 2),
            Some(Bias::PerCol(&[5, 6])),
            Some(Activation::Relu),
            Parallelism::Serial,
        )
        .unwrap();
        assert_eq!(c, want);
    }
}

#[test]
fn fused_and_mapped_products_without_checks() {
    let x = [1, 2, 3];
    let ops = Operands {
        m: 2,
        k: 1,
        n: 2,
        a: &x,
        la: Layout { off: 1, rs: 1, cs: 1 },
        b: &x,
        lb: Layout { off: 1, rs: 9, cs: -1 },
        lc: Layout { off: 0, rs: 2, cs: 1 },
    };
    let mut c = [0; 4];
    gemm_fused_unchecked(
        1,
        ops,
        0,
        &mut c,
        &[100, 200],
        BiasDim::PerRow,
        true,
        None,
        Parallelism::Serial,
    )
    .unwrap();
    assert_eq!(c, [104, 102, 206, 203]);
    gemm_fused_unchecked(
        1,
        ops,
        0,
        &mut c,
        &[],
        BiasDim::PerRow,
        false,
        Some(Activation::Relu),
        Parallelism::Serial,
    )
    .unwrap();
    assert_eq!(c, [4, 2, 6, 3]);
    gemm_map_unchecked(
        1,
        ops,
        0,
        &mut c,
        &|v: i32, i: usize, j: usize| v * 10 + 2 * i as i32 + j as i32,
        Parallelism::Serial,
    )
    .unwrap();
    assert_eq!(c, [40, 21, 62, 33]);
}

#[test]
fn a_map_is_applied_to_what_the_product_stores() {
    let a = [1, 2, 3, 4, 5, 6];
    let mut plain = [1; 9];
    let mut mapped = plain;
    gemm(
        2,
        MatRef::from_row_major(&a, 3, 2),
        MatRef::from_row_major(&a, 2, 3),
        1,
        MatMut::from_row_major(&mut plain, 3, 3),
        Parallelism::Serial,
    )
    .unwrap();
    let f = |v: i32, i: usize, j: usize| if i == j { 0 } else { v };
    gemm_map(
        2,
        MatRef::from_row_major(&a, 3, 2),
        MatRef::from_row_major(&a, 2, 3),
        1,
        MatMut::from_row_major(&mut mapped, 3, 3),
        &f,
        Parallelism::Serial,
    )
    .unwrap();
    for i in 0..3 {
        for j in 0..3 {
            assert_eq!(mapped[3 * i + j], f(plain[3 * i + j], i, j));
        }
    }
}
