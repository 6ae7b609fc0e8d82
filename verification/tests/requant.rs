use gemmkit::dispatch::Operands;
use gemmkit::layout::Layout;
use gemmkit::{
    gemm_i8, gemm_i8_requant, gemm_i8_requant_u8, gemm_i8_requant_u8_unchecked,
    gemm_i8_requant_unchecked, gemm_i8_requant_with, Context, GemmError, MatMut, MatRef, Operand,
    Parallelism, RequantScale, Requantize, Scale,
};

fn scale(v: f32) -> Scale {
    Scale { bits: v.to_bits() }
}

fn bytes(seed: u64, n: usize) -> Vec<i8> {
    let mut s = seed;
    (0..n)
        .map(|_| {
            s = s.wrapping_mul(6364136223846793005).wrapping_add(1442695040888963407);
            (s >> 56) as u8 as i8
        })
        .collect()
}

#[test]
fn ties_go_to_the_even_number() {
    let half = scale(0.5);
    for (v, want) in [(1, 0), (3, 2), (5, 2), (7, 4), (-1, 0), (-3, -2), (-5, -2), (4, 2)] {
        assert_eq!(half.requantize(v, 0, -128, 127), want, "{v} / 2");
    }
    let quarter = scale(0.25);
    for (v, want) in [(1, 0), (2, 0), (3, 1), (6, 2), (10, 2), (-6, -2), (-7, -2)] {
        assert_eq!(quarter.requantize(v, 0, -128, 127), want, "{v} / 4");
    }
}

#[test]
fn scales_are_taken_at_their_exact_value() {
    // 0.1 as a single is a little more than a tenth, so 5 * 0.1 is a little more than a half.
    assert_eq!(scale(0.1).requantize(5, 0, -128, 127), 1);
    // 0.3 as a single is a little more than three tenths.
    assert_eq!(scale(0.3).requantize(-5, 0, -128, 127), -2);
    // 0.7 as a single is a little less than seven tenths.
    assert_eq!(scale(0.7).requantize(5, 0, -128, 127), 3);
    // The ends of the range of singles.
    assert_eq!(scale(f32::MAX).requantize(1, 3, -128, 127), 127);
    assert_eq!(scale(f32::MAX).requantize(-1, 3, -128, 127), -128);
    assert_eq!(scale(f32::MAX).requantize(0, 3, -128, 127), 3);
    assert_eq!(scale(f32::from_bits(1)).requantize(i32::MAX, 3, -128, 127), 3);
    assert_eq!(scale(1.0).requantize(i32::MIN, 0, 0, 255), 0);
    assert_eq!(scale(8388608.0).requantize(1, 0, -128, 127), 127);
}

#[test]
fn only_finite_positive_scales_are_usable() {
    for v in [0.0, -0.0, -1.0, f32::NAN, f32::INFINITY, f32::NEG_INFINITY] {
        assert!(!scale(v).is_usable(), "{v}");
    }
    for v in [1.0, f32::MIN_POSITIVE, f32::from_bits(1), f32::MAX] {
        assert!(scale(v).is_usable(), "{v}");
    }
}

#[test]
fn a_requantizing_product_is_the_integer_product_rescaled() {
    for (m, k, n) in [(5, 9, 4), (20, 70, 33), (3, 0, 2)] {
        let a = bytes(1, m * k);
        let b = bytes(2, k * n);
        let scales: Vec<Scale> = (0..m).map(|i| scale(0.001 * (i + 1) as f32)).collect();
        let bias: Vec<i32> = (0..m as i32).map(|i| 500 * i - 700).collect();
        let mut acc = vec![0i32; m * n];
        gemm_i8(
            1,
            MatRef::from_row_major(&a, m, k),
            MatRef::from_row_major(&b, k, n),
            0,
            MatMut::from_row_major(&mut acc, m, n),
            Parallelism::Serial,
        )
        .unwrap();
        for by_rows in [true, false] {
            let (rs, cs) = if by_rows { (n as isize, 1) } else { (1, m as isize) };
            let mut c = vec![99i8; m * n];
            gemm_i8_requant(
                MatRef::from_row_major(&a, m, k),
                MatRef::from_row_major(&b, k, n),
                Requantize {
                    scale: RequantScale::PerRow(&scales),
                    zero_point: -7,
                    bias: Some(&bias),
                },
                MatMut::new(&mut c, m, n, rs, cs),
                Parallelism::Serial,
            )
            .unwrap();
            let mut u = vec![99u8; m * n];
            gemm_i8_requant_u8(
                MatRef::from_row_major(&a, m, k),
                MatRef::from_row_major(&b, k, n),
                Requantize {
                    scale: RequantScale::PerTensor(scale(0.0625)),
                    zero_point: 128,
                    bias: None,
                },
                MatMut::new(&mut u, m, n, rs, cs),
                Parallelism::Serial,
            )
            .unwrap();
            for i in 0..m {
                for j in 0..n {
                    let at = (i as isize * rs + j as isize * cs) as usize;
                    let v = acc[i * n + j];
                    let want = scales[i].requantize(v + bias[i], -7, -128, 127);
                    assert_eq!(c[at] as i32, want);
                    // A power of two divides exactly, so double precision is an oracle.
                    let want = ((v as f64 / 16.0).round_ties_even() + 128.0).clamp(0.0, 255.0);
                    assert_eq!(u[at] as f64, want);
                }
            }
        }
    }
}

#[test]
fn the_kernel_does_not_show_in_a_requantized_product() {
    let (m, k, n) = (30, 50, 20);
    let a = bytes(3, m * k);
    let b = bytes(4, k * n);
    let mut dot = Context::new();
    dot.kernels.byte.isa = gemmkit::isa::Isa::Avx512Vnni;
    dot.kernels.byte.depth_multiple = 4;
    let mut outs = Vec::new();
    for ctx in [Context::new(), dot] {
        let mut c = vec![0i8; m * n];
        gemm_i8_requant_with(
            &ctx,
            MatRef::from_row_major(&a, m, k),
            MatRef::from_row_major(&b, k, n),
            Requantize {
                scale: RequantScale::PerTensor(scale(0.003)),
                zero_point: 1,
                bias: None,
            },
            MatMut::from_row_major(&mut c, m, n),
            Parallelism::Serial,
        )
        .unwrap();
        outs.push(c);
    }
    assert_eq!(outs[0], outs[1]);
}

#[test]
fn refusals_of_the_requantizing_entries() {
    let x = [1i8; 6];
    let run = |s: RequantScale<'_>, zp: i32, bias: Option<&[i32]>| {
        let mut c = [0i8; 4];
        gemm_i8_requant(
            MatRef::from_row_major(&x, 2, 3),
            MatRef::from_row_major(&x, 3, 2),
            Requantize {
                scale: s,
                zero_point: zp,
                bias,
            },
            MatMut::from_row_major(&mut c, 2, 2),
            Parallelism::Serial,
        )
    };
    let one = scale(1.0);
    assert_eq!(
        run(RequantScale::PerTensor(scale(f32::NAN)), 0, None),
        Err(GemmError::BadScale { index: 0 })
    );
    assert_eq!(
        run(RequantScale::PerRow(&[one]), 0, None),
        Err(GemmError::LengthMismatch { view: Operand::Scales, want: 2, len: 1 })
    );
    assert_eq!(
        run(RequantScale::PerRow(&[one, scale(-1.0)]), 0, None),
        Err(GemmError::BadScale { index: 1 })
    );
    assert_eq!(
        run(RequantScale::PerTensor(one), 128, None),
        Err(GemmError::ZeroPointOutOfRange { zero_point: 128 })
    );
    assert_eq!(
        run(RequantScale::PerTensor(one), 127, Some(&[1, 2, 3])),
        Err(GemmError::LengthMismatch { view: Operand::Bias, want: 2, len: 3 })
    );
    assert_eq!(run(RequantScale::PerTensor(one), -128, Some(&[1, 2])), Ok(()));
    let mut u = [0u8; 4];
    let r = gemm_i8_requant_u8(
        MatRef::from_row_major(&x, 2, 3),
        MatRef::from_row_major(&x, 3, 2),
        Requantize {
            scale: RequantScale::PerTensor(one),
            zero_point: -1,
            bias: None,
        },
        MatMut::from_row_major(&mut u, 2, 2),
        Parallelism::Serial,
    );
    assert_eq!(r, Err(GemmError::ZeroPointOutOfRange { zero_point: -1 }));
}

#[test]
fn requantizing_without_checks() {
    let a = [2i8, 3];
    let ops = Operands {
        m: 1,
        k: 2,
        n: 1,
        a: &a,
        la: Layout { off: 0, rs: 2, cs: 1 },
        b: &a,
        lb: Layout { off: 1, rs: -1, cs: 1 },
        lc: Layout { off: 0, rs: 1, cs: 1 },
    };
    let req = |zp: i32| Requantize {
        scale: RequantScale::PerTensor(scale(0.5)),
        zero_point: zp,
        bias: Some(&[1]),
    };
    let mut c = [0i8];
    // 2*3 + 3*2 + 1 = 13, and half of that is 6.5, which goes to 6.
    gemm_i8_requant_unchecked(ops, req(-10), &mut c, Parallelism::Serial).unwrap();
    assert_eq!(c, [-4]);
    let mut u = [0u8];
    gemm_i8_requant_u8_unchecked(ops, req(250), &mut u, Parallelism::Serial).unwrap();
    assert_eq!(u, [255]);
}
