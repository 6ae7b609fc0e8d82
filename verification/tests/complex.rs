use gemmkit::complex::ComplexScalar;
use gemmkit::dispatch::Operands;
use gemmkit::isa::Kernels;
use gemmkit::layout::Layout;
use gemmkit::scalar::Scalar;
use gemmkit::{
    gemm_cplx, gemm_cplx_fused, gemm_cplx_fused_unchecked, gemm_cplx_unchecked, Bias, BiasDim,
    GaussI32, GemmError, MatMut, MatRef, Operand, Parallelism,
};
use num_complex::Complex;

/// A complex number of two `f64` parts as an element type.
#[derive(Clone, Copy, Debug, PartialEq)]
struct Z(Complex<f64>);

impl Scalar for Z {
    fn zero_spec() -> Z {
        Self::zero()
    }
    fn one_spec() -> Z {
        Self::one()
    }
    fn is_zero_spec(self) -> bool {
        self.is_zero()
    }
    fn is_one_spec(self) -> bool {
        self.is_one()
    }
    fn plus_spec(self, other: Z) -> Z {
        self.plus(other)
    }
    fn times_spec(self, other: Z) -> Z {
        self.times(other)
    }
    fn constants_compare() {}
    fn zero() -> Z {
        Z(Complex::new(0.0, 0.0))
    }
    fn one() -> Z {
        Z(Complex::new(1.0, 0.0))
    }
    fn is_zero(self) -> bool {
        self.0 == Complex::new(0.0, 0.0)
    }
    fn is_one(self) -> bool {
        self.0 == Complex::new(1.0, 0.0)
    }
    fn plus(self, other: Z) -> Z {
        Z(self.0 + other.0)
    }
    fn times(self, other: Z) -> Z {
        Z(self.0 * other.0)
    }
}

impl ComplexScalar for Z {
    fn conj_spec(self) -> Z {
        self.conj()
    }
    fn cmadd_spec(acc: Z, l: Z, r: Z) -> Z {
        Self::cmadd(acc, l, r)
    }
    fn cplx_tile_spec(k: Kernels) -> (usize, usize) {
        Self::cplx_tile(&k)
    }
    fn conj(self) -> Z {
        Z(self.0.conj())
    }
    fn cmadd(acc: Z, l: Z, r: Z) -> Z {
        Z(acc.0 + l.0 * r.0)
    }
    fn cplx_tile(k: &Kernels) -> (usize, usize) {
        (k.complex_double.mr, k.complex_double.nr)
    }
}

fn gauss(seed: u64, n: usize) -> Vec<GaussI32> {
    let mut s = seed;
    (0..n)
        .map(|_| {
            s = s.wrapping_mul(6364136223846793005).wrapping_add(1442695040888963407);
            GaussI32 {
                re: (s >> 40) as i32,
                im: s as i32,
            }
        })
        .collect()
}

fn op(conj: bool, x: GaussI32) -> GaussI32 {
    if conj {
        x.conj()
    } else {
        x
    }
}

#[test]
fn conjugations_follow_their_operands() {
    let (m, k, n) = (9, 40, 7);
    let a = gauss(1, m * k);
    let b = gauss(2, k * n);
    let c0 = gauss(3, m * n);
    let alpha = GaussI32 { re: 2, im: -3 };
    let beta = GaussI32 { re: 0, im: 1 };
    for ca in [false, true] {
        for cb in [false, true] {
            for by_rows in [true, false] {
                let (rs, cs) = if by_rows { (n as isize, 1) } else { (1, m as isize) };
                let mut c = c0.clone();
                gemm_cplx(
                    alpha,
                    MatRef::from_row_major(&a, m, k),
                    ca,
                    MatRef::from_row_major(&b, k, n),
                    cb,
                    beta,
                    MatMut::new(&mut c, m, n, rs, cs),
                    Parallelism::Serial,
                )
                .unwrap();
                for i in 0..m {
                    for j in 0..n {
                        let mut s = GaussI32 { re: 0, im: 0 };
                        for p in 0..k {
                            s = s.plus(op(ca, a[i * k + p]).times(op(cb, b[p * n + j])));
                        }
                        let at = (i as isize * rs + j as isize * cs) as usize;
                        let want = alpha.times(s).plus(beta.times(c0[at]));
                        assert_eq!(c[at], want);
                    }
                }
            }
        }
    }
}

#[test]
fn small_complex_values() {
    let z = |re: f64, im: f64| Z(Complex::new(re, im));
    // (1 + 2i) * conj(3 - i) = (1 + 2i)(3 + i) = 1 + 7i
    let mut c = [z(f64::NAN, f64::NAN)];
    gemm_cplx(
        z(1.0, 0.0),
        MatRef::from_row_major(&[z(1.0, 2.0)], 1, 1),
        false,
        MatRef::from_row_major(&[z(3.0, -1.0)], 1, 1),
        true,
        z(0.0, 0.0),
        MatMut::from_row_major(&mut c, 1, 1),
        Parallelism::Serial,
    )
    .unwrap();
    assert_eq!(c, [z(1.0, 7.0)]);
}

#[test]
fn a_complex_bias_is_added_as_it_is() {
    let (m, k, n) = (4, 6, 5);
    let a = gauss(1, m * k);
    let b = gauss(2, k * n);
    let c0 = gauss(3, m * n);
    let row = gauss(4, m);
    let col = gauss(5, n);
    let one = GaussI32 { re: 1, im: 0 };
    for per_row in [true, false] {
        let mut plain = c0.clone();
        gemm_cplx(
            one,
            MatRef::from_row_major(&a, m, k),
            true,
            MatRef::from_row_major(&b, k, n),
            true,
            one,
            MatMut::from_row_major(&mut plain, m, n),
            Parallelism::Serial,
        )
        .unwrap();
        let mut fused = c0.clone();
        gemm_cplx_fused(
            one,
            MatRef::from_row_major(&a, m, k),
            true,
            MatRef::from_row_major(&b, k, n),
            true,
            one,
            MatMut::from_row_major(&mut fused, m, n),
            Some(if per_row {
                Bias::PerRow(&row)
            } else {
                Bias::PerCol(&col)
            }),
            Parallelism::Serial,
        )
        .unwrap();
        for i in 0..m {
            for j in 0..n {
                let want = plain[i * n + j].plus(if per_row { row[i] } else { col[j] });
                assert_eq!(fused[i * n + j], want);
            }
        }
    }
    let mut c = c0.clone();
    let r = gemm_cplx_fused(
        one,
        MatRef::from_row_major(&a, m, k),
        false,
        MatRef::from_row_major(&b, k, n),
        false,
        one,
        MatMut::from_row_major(&mut c, m, n),
        Some(Bias::PerRow(&col)),
        Parallelism::Serial,
    );
    assert_eq!(
        r,
        Err(GemmError::LengthMismatch { view: Operand::Bias, want: 4, len: 5 })
    );
    assert_eq!(c, c0);
}

#[test]
fn complex_products_without_checks() {
    let x = [GaussI32 { re: 1, im: 2 }, GaussI32 { re: 3, im: 4 }];
    let ops = Operands {
        m: 1,
        k: 2,
        n: 1,
        a: &x,
        la: Layout { off: 1, rs: 1, cs: -1 },
        b: &x,
        lb: Layout { off: 0, rs: 1, cs: 1 },
        lc: Layout { off: 0, rs: 1, cs: 1 },
    };
    let one = GaussI32 { re: 1, im: 0 };
    let zero = GaussI32 { re: 0, im: 0 };
    let mut c = [one];
    // 2 * (3 + 4i)(1 + 2i) = 2 * (-5 + 10i)
    gemm_cplx_unchecked(one, ops, false, false, zero, &mut c, Parallelism::Serial).unwrap();
    assert_eq!(c, [GaussI32 { re: -10, im: 20 }]);
    gemm_cplx_fused_unchecked(
        zero,
        ops,
        false,
        false,
        one,
        &mut c,
        &[GaussI32 { re: 1, im: 1 }],
        BiasDim::PerRow,
        true,
        Parallelism::Serial,
    )
    .unwrap();
    assert_eq!(c, [GaussI32 { re: -9, im: 21 }]);
}
