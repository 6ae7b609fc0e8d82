use std::cell::Cell;

use gemmkit::dispatch::Operands;
use gemmkit::isa::Kernels;
use gemmkit::layout::Layout;
use gemmkit::scalar::Scalar;
use gemmkit::{
    gemm, gemm_fused, gemm_map, gemm_packed_a_with, gemm_packed_b_fused_with, gemm_packed_b_with,
    gemm_with, prepack_lhs, prepack_rhs, Activation, Bias, Context, FusedScalar, GemmError,
    GemmScalar, MapScalar, MatMut, MatRef, Parallelism,
};
use half::bf16;

/// `f32` as an element type.
#[derive(Clone, Copy, Debug, PartialEq)]
struct S(f32);

impl Scalar for S {
    fn zero_spec() -> S {
        Self::zero()
    }
    fn one_spec() -> S {
        Self::one()
    }
    fn is_zero_spec(self) -> bool {
        self.is_zero()
    }
    fn is_one_spec(self) -> bool {
        self.is_one()
    }
    fn plus_spec(self, other: S) -> S {
        self.plus(other)
    }
    fn times_spec(self, other: S) -> S {
        self.times(other)
    }
    fn constants_compare() {}
    fn zero() -> S {
        S(0.0)
    }
    fn one() -> S {
        S(1.0)
    }
    fn is_zero(self) -> bool {
        self.0 == 0.0
    }
    fn is_one(self) -> bool {
        self.0 == 1.0
    }
    fn plus(self, other: S) -> S {
        S(self.0 + other.0)
    }
    fn times(self, other: S) -> S {
        S(self.0 * other.0)
    }
}

impl GemmScalar for S {
    type Acc = S;
    fn out_is_acc_spec() -> bool {
        Self::out_is_acc()
    }
    fn madd_spec(acc: S, l: S, r: S) -> S {
        Self::madd(acc, l, r)
    }
    fn widen_spec(self) -> S {
        self.widen()
    }
    fn narrow_spec(v: S) -> S {
        Self::narrow(v)
    }
    fn rhs_tile_spec(k: Kernels) -> (usize, usize) {
        Self::rhs_tile(&k)
    }
    fn rhs_depth_multiple_spec(k: Kernels) -> usize {
        Self::rhs_depth_multiple(&k)
    }
    fn depth_multiple_is_sound(_k: Kernels) {}
    fn zero_widens_to_zero(_x: Self) {}
    fn exact_is_lossless(_v: S, _x: S) {}
    fn out_is_acc() -> bool {
        true
    }
    fn madd(acc: S, l: S, r: S) -> S {
        S(l.0.mul_add(r.0, acc.0))
    }
    fn widen(self) -> S {
        self
    }
    fn narrow(v: S) -> S {
        v
    }
    fn rhs_tile(k: &Kernels) -> (usize, usize) {
        (k.single.mr, k.single.nr)
    }
    fn rhs_depth_multiple(_k: &Kernels) -> usize {
        1
    }
}

impl FusedScalar for S {
    fn relu_spec(v: S) -> S {
        Self::relu(v)
    }
    fn leaky_relu_spec(slope: S, v: S) -> S {
        Self::leaky_relu(slope, v)
    }
    fn finite_spec(self) -> bool {
        self.finite()
    }
    fn relu(v: S) -> S {
        if v.0 > 0.0 {
            v
        } else {
            S(0.0)
        }
    }
    fn leaky_relu(slope: S, v: S) -> S {
        S(v.0.max(0.0) + slope.0 * v.0.min(0.0))
    }
    fn finite(self) -> bool {
        self.0.is_finite()
    }
}

impl MapScalar for S {
    fn map_is_exact() {}
}

/// `bf16`, accumulated in `f32`.
#[derive(Clone, Copy, Debug, PartialEq)]
struct B(bf16);

impl Scalar for B {
    fn zero_spec() -> B {
        Self::zero()
    }
    fn one_spec() -> B {
        Self::one()
    }
    fn is_zero_spec(self) -> bool {
        self.is_zero()
    }
    fn is_one_spec(self) -> bool {
        self.is_one()
    }
    fn plus_spec(self, other: B) -> B {
        self.plus(other)
    }
    fn times_spec(self, other: B) -> B {
        self.times(other)
    }
    fn constants_compare() {}
    fn zero() -> B {
        B(bf16::ZERO)
    }
    fn one() -> B {
        B(bf16::ONE)
    }
    fn is_zero(self) -> bool {
        self.0 == bf16::ZERO
    }
    fn is_one(self) -> bool {
        self.0 == bf16::ONE
    }
    fn plus(self, other: B) -> B {
        B(self.0 + other.0)
    }
    fn times(self, other: B) -> B {
        B(self.0 * other.0)
    }
}

impl GemmScalar for B {
    type Acc = S;
    fn out_is_acc_spec() -> bool {
        Self::out_is_acc()
    }
    fn madd_spec(acc: S, l: B, r: B) -> S {
        Self::madd(acc, l, r)
    }
    fn widen_spec(self) -> S {
        self.widen()
    }
    fn narrow_spec(v: S) -> B {
        Self::narrow(v)
    }
    fn rhs_tile_spec(k: Kernels) -> (usize, usize) {
        Self::rhs_tile(&k)
    }
    fn rhs_depth_multiple_spec(k: Kernels) -> usize {
        Self::rhs_depth_multiple(&k)
    }
    fn depth_multiple_is_sound(_k: Kernels) {}
    fn zero_widens_to_zero(_x: Self) {}
    fn exact_is_lossless(_v: S, _x: B) {}
    fn out_is_acc() -> bool {
        false
    }
    fn madd(acc: S, l: B, r: B) -> S {
        S(l.0.to_f32().mul_add(r.0.to_f32(), acc.0))
    }
    fn widen(self) -> S {
        S(self.0.to_f32())
    }
    fn narrow(v: S) -> B {
        B(bf16::from_f32(v.0))
    }
    fn rhs_tile(k: &Kernels) -> (usize, usize) {
        (k.brain.mr, k.brain.nr)
    }
    fn rhs_depth_multiple(k: &Kernels) -> usize {
        k.brain.depth_multiple
    }
}

impl FusedScalar for B {
    fn relu_spec(v: S) -> S {
        Self::relu(v)
    }
    fn leaky_relu_spec(slope: S, v: S) -> S {
        Self::leaky_relu(slope, v)
    }
    fn finite_spec(self) -> bool {
        self.finite()
    }
    fn relu(v: S) -> S {
        S::relu(v)
    }
    fn leaky_relu(slope: S, v: S) -> S {
        S::leaky_relu(slope, v)
    }
    fn finite(self) -> bool {
        self.0.is_finite()
    }
}

fn quant(seed: u64, n: usize) -> Vec<f32> {
    let mut s = seed;
    (0..n)
        .map(|_| {
            s = s.wrapping_mul(6364136223846793005).wrapping_add(1442695040888963407);
            (s >> 56) as u8 as i8 as f32 / 64.0
        })
        .collect()
}

fn singles(seed: u64, n: usize) -> Vec<S> {
    quant(seed, n).into_iter().map(S).collect()
}

fn brains(seed: u64, n: usize) -> Vec<B> {
    quant(seed, n)
        .into_iter()
        .map(|v| B(bf16::from_f32(v)))
        .collect()
}

#[test]
fn quick_start() {
    let a = [1.0, 2.0, 3.0, 4.0, 5.0, 6.0].map(S);
    let b = [7.0, 8.0, 9.0, 10.0, 11.0, 12.0].map(S);
    let mut c = [S(0.0); 4];
    gemm(
        S(1.0),
        MatRef::from_row_major(&a, 2, 3),
        MatRef::from_row_major(&b, 3, 2),
        S(0.0),
        MatMut::from_row_major(&mut c, 2, 2),
        Parallelism::Serial,
    )
    .unwrap();
    assert_eq!(c, [58.0, 64.0, 139.0, 154.0].map(S));
}

#[test]
fn parallelism_does_not_show_in_a_rounded_result() {
    let (m, k, n) = (70, 600, 65);
    let a = singles(1, m * k);
    let b = singles(2, k * n);
    let c0 = singles(3, m * n);
    let mut ctx = Context::new();
    ctx.workers = 8;
    ctx.tuning.set_parallel_threshold(0);
    let mut outs = Vec::new();
    for par in [
        Parallelism::Serial,
        Parallelism::Rayon(2),
        Parallelism::Rayon(7),
        Parallelism::Rayon(0),
    ] {
        let mut c = c0.clone();
        gemm_with(
            &ctx,
            S(0.75),
            MatRef::from_row_major(&a, m, k),
            MatRef::from_row_major(&b, k, n),
            S(-1.0),
            MatMut::from_row_major(&mut c, m, n),
            par,
        )
        .unwrap();
        outs.push(c);
    }
    for o in &outs[1..] {
        assert_eq!(*o, outs[0]);
    }
    // And the result is close to one computed in double precision.
    for i in 0..m {
        for j in 0..n {
            let mut s = 0.0f64;
            for p in 0..k {
                s += a[i * k + p].0 as f64 * b[p * n + j].0 as f64;
            }
            let want = 0.75 * s - c0[i * n + j].0 as f64;
            assert!((outs[0][i * n + j].0 as f64 - want).abs() < 1e-2);
        }
    }
}

#[test]
fn a_zero_beta_does_not_read_c() {
    let a = singles(1, 20);
    let b = singles(2, 20);
    let mut clean = vec![S(0.0); 16];
    let mut poisoned = vec![S(f32::NAN); 16];
    for c in [&mut clean, &mut poisoned] {
        gemm(
            S(1.0),
            MatRef::from_row_major(&a, 4, 5),
            MatRef::from_row_major(&b, 5, 4),
            S(0.0),
            MatMut::from_row_major(c, 4, 4),
            Parallelism::Serial,
        )
        .unwrap();
    }
    assert_eq!(clean, poisoned);
    let mut c = [S(f32::NAN); 2];
    gemm(
        S(0.0),
        MatRef::from_row_major(&a, 1, 1),
        MatRef::from_row_major(&b, 1, 2),
        S(0.0),
        MatMut::from_row_major(&mut c, 1, 2),
        Parallelism::Serial,
    )
    .unwrap();
    assert_eq!(c, [S(0.0); 2]);
}

#[test]
fn the_deep_route_of_a_narrow_type_equals_one_slice() {
    let (m, k, n) = (20, 900, 24);
    let a = brains(1, m * k);
    let b = brains(2, k * n);
    let c0 = brains(3, m * n);
    let run = |deep: usize| {
        let mut ctx = Context::new();
        ctx.tuning.set_deep_kc_bytes(deep);
        let mut c = c0.clone();
        gemm_with(
            &ctx,
            B(bf16::from_f32(0.5)),
            MatRef::from_row_major(&a, m, k),
            MatRef::from_row_major(&b, k, n),
            B(bf16::ONE),
            MatMut::from_row_major(&mut c, m, n),
            Parallelism::Serial,
        )
        .unwrap();
        c
    };
    // A gate of one byte engages the deep route, a huge one never does.
    assert_eq!(run(1), run(1 << 40));
    // The output was rounded once: it is the nearest bf16 of the single-precision chain.
    let mut s = S(0.0);
    for p in 0..k {
        s = B::madd(s, a[p], b[p * n]);
    }
    let want = bf16::from_f32(0.5 * s.0 + c0[0].0.to_f32());
    assert_eq!(run(1)[0], B(want));
}

#[test]
fn panels_of_pairs_give_the_same_result() {
    let mut paired = Context::new();
    paired.kernels.brain.depth_multiple = 2;
    for (m, k, n) in [(70, 77, 65), (20, 901, 24), (3, 5, 4)] {
        let a = brains(1, m * k);
        let b = brains(2, k * n);
        let c0 = brains(3, m * n);
        for deep in [1, 1 << 40] {
            let mut outs = Vec::new();
            for mut ctx in [Context::new(), paired] {
                ctx.tuning.set_deep_kc_bytes(deep);
                let (x, y) = (B(bf16::from_f32(0.5)), B(bf16::ONE));
                let mut c = c0.clone();
                gemm_with(
                    &ctx,
                    x,
                    MatRef::from_row_major(&a, m, k),
                    MatRef::from_row_major(&b, k, n),
                    y,
                    MatMut::from_col_major(&mut c, m, n),
                    Parallelism::Serial,
                )
                .unwrap();
                outs.push(c);
                let packed = prepack_rhs(&ctx, MatRef::from_row_major(&b, k, n)).unwrap();
                let mut c = c0.clone();
                gemm_packed_b_with(
                    &ctx,
                    x,
                    MatRef::from_row_major(&a, m, k),
                    &packed,
                    y,
                    MatMut::from_col_major(&mut c, m, n),
                    Parallelism::Serial,
                )
                .unwrap();
                outs.push(c);
            }
            for o in &outs[1..] {
                assert_eq!(*o, outs[0]);
            }
        }
    }
}

#[test]
fn a_fused_product_is_the_product_and_then_the_map() {
    for (m, k, n) in [(1, 30, 9), (5, 40, 6), (40, 90, 33), (3, 4, 5)] {
        let a = singles(1, m * k);
        let b = singles(2, k * n);
        let c0 = singles(3, m * n);
        let row = singles(4, m);
        let col = singles(5, n);
        for per_row in [true, false] {
            for by_rows in [true, false] {
                let view = |c: &mut Vec<S>| -> (isize, isize) {
                    let _ = c;
                    if by_rows {
                        (n as isize, 1)
                    } else {
                        (1, m as isize)
                    }
                };
                let mut fused = c0.clone();
                let (rs, cs) = view(&mut fused);
                gemm_fused(
                    S(2.0),
                    MatRef::from_row_major(&a, m, k),
                    MatRef::from_row_major(&b, k, n),
                    S(0.5),
                    MatMut::new(&mut fused, m, n, rs, cs),
                    Some(if per_row {
                        Bias::PerRow(&row)
                    } else {
                        Bias::PerCol(&col)
                    }),
                    Some(Activation::LeakyRelu(S(0.25))),
                    Parallelism::Serial,
                )
                .unwrap();
                let mut plain = c0.clone();
                gemm(
                    S(2.0),
                    MatRef::from_row_major(&a, m, k),
                    MatRef::from_row_major(&b, k, n),
                    S(0.5),
                    MatMut::new(&mut plain, m, n, rs, cs),
                    Parallelism::Serial,
                )
                .unwrap();
                for i in 0..m {
                    for j in 0..n {
                        let at = (i as isize * rs + j as isize * cs) as usize;
                        let v = plain[at].plus(if per_row { row[i] } else { col[j] });
                        assert_eq!(fused[at], S::leaky_relu(S(0.25), v));
                    }
                }
            }
        }
    }
}

#[test]
fn a_slope_that_is_not_finite_is_refused() {
    let x = [S(1.0)];
    let mut c = [S(0.0)];
    for slope in [f32::NAN, f32::INFINITY] {
        let r = gemm_fused(
            S(1.0),
            MatRef::from_row_major(&x, 1, 1),
            MatRef::from_row_major(&x, 1, 1),
            S(0.0),
            MatMut::from_row_major(&mut c, 1, 1),
            None,
            Some(Activation::LeakyRelu(S(slope))),
            Parallelism::Serial,
        );
        assert_eq!(r, Err(GemmError::SlopeNotFinite));
    }
    assert_eq!(c, [S(0.0)]);
}

#[test]
fn relu_takes_what_is_not_a_number_to_zero() {
    let x = [S(f32::NAN)];
    let mut c = [S(0.0)];
    gemm_fused(
        S(1.0),
        MatRef::from_row_major(&x, 1, 1),
        MatRef::from_row_major(&x, 1, 1),
        S(0.0),
        MatMut::from_row_major(&mut c, 1, 1),
        None,
        Some(Activation::Relu),
        Parallelism::Serial,
    )
    .unwrap();
    assert_eq!(c, [S(0.0)]);
}

#[test]
fn a_map_sees_the_stored_value_and_its_place() {
    for (m, k, n) in [(1, 20, 7), (6, 80, 7), (30, 60, 20), (4, 0, 3)] {
        let a = singles(1, m * k);
        let b = singles(2, k * n);
        let c0 = singles(3, m * n);
        let f = |v: S, i: usize, j: usize| S(v.0 + (100 * i + j) as f32);
        for by_rows in [true, false] {
            let (rs, cs) = if by_rows { (n as isize, 1) } else { (1, m as isize) };
            let mut mapped = c0.clone();
            gemm_map(
                S(1.5),
                MatRef::from_row_major(&a, m, k),
                MatRef::from_row_major(&b, k, n),
                S(1.0),
                MatMut::new(&mut mapped, m, n, rs, cs),
                &f,
                Parallelism::Serial,
            )
            .unwrap();
            let mut plain = c0.clone();
            gemm(
                S(1.5),
                MatRef::from_row_major(&a, m, k),
                MatRef::from_row_major(&b, k, n),
                S(1.0),
                MatMut::new(&mut plain, m, n, rs, cs),
                Parallelism::Serial,
            )
            .unwrap();
            for i in 0..m {
                for j in 0..n {
                    let at = (i as isize * rs + j as isize * cs) as usize;
                    assert_eq!(mapped[at], f(plain[at], i, j));
                }
            }
        }
    }
}

#[test]
fn unchecked_operands_start_anywhere() {
    let a = [S(9.0), S(1.0), S(2.0)];
    let mut c = [S(5.0), S(5.0)];
    gemmkit::gemm_unchecked(
        S(1.0),
        Operands {
            m: 1,
            k: 2,
            n: 1,
            a: &a,
            la: Layout { off: 1, rs: 1, cs: 1 },
            b: &a,
            lb: Layout { off: 2, rs: -1, cs: 1 },
            lc: Layout { off: 1, rs: 1, cs: 1 },
        },
        S(1.0),
        &mut c,
        Parallelism::Serial,
    )
    .unwrap();
    assert_eq!(c, [S(5.0), S(9.0)]);
}

#[test]
fn a_map_is_called_once_for_every_element() {
    for (m, k, n) in [(1, 20, 7), (6, 80, 7), (30, 600, 20), (4, 0, 3), (40, 3, 33)] {
        let a = singles(1, m * k);
        let b = singles(2, k * n);
        let mut c = singles(3, m * n);
        let calls = Cell::new(vec![0; m * n]);
        let f = |v: S, i: usize, j: usize| {
            let mut seen = calls.take();
            seen[i * n + j] += 1;
            calls.set(seen);
            v
        };
        gemm_map(
            S(1.0),
            MatRef::from_row_major(&a, m, k),
            MatRef::from_row_major(&b, k, n),
            S(1.0),
            MatMut::from_row_major(&mut c, m, n),
            &f,
            Parallelism::Serial,
        )
        .unwrap();
        assert_eq!(calls.take(), vec![1; m * n]);
    }
}

#[test]
fn a_prepacked_operand_reproduces_the_plain_product() {
    let mut shallow = Context::new();
    shallow.tuning.set_small_k_threshold(2000);
    let mut thin = Context::new();
    thin.tuning.set_kc(40);
    thin.tuning.set_kc_min(64);
    for ctx in [Context::new(), shallow, thin] {
        for (m, k, n) in [(32, 1000, 32), (9, 700, 2), (64, 1500, 64), (65, 600, 70), (12, 5, 40)] {
            let a = singles(1, m * k);
            let b = singles(2, k * n);
            let c0 = singles(3, m * n);
            let (av, bv) = (MatRef::from_row_major(&a, m, k), MatRef::from_row_major(&b, k, n));
            for by_rows in [false, true] {
                let (rs, cs) = if by_rows { (n as isize, 1) } else { (1, m as isize) };
                let mut plain = c0.clone();
                gemm_with(
                    &ctx,
                    S(0.75),
                    av,
                    bv,
                    S(-0.5),
                    MatMut::new(&mut plain, m, n, rs, cs),
                    Parallelism::Serial,
                )
                .unwrap();
                let mut c = c0.clone();
                let cv = MatMut::new(&mut c, m, n, rs, cs);
                if by_rows {
                    let packed = prepack_lhs(&ctx, av).unwrap();
                    gemm_packed_a_with(&ctx, S(0.75), &packed, bv, S(-0.5), cv, Parallelism::Serial)
                        .unwrap();
                } else {
                    let packed = prepack_rhs(&ctx, bv).unwrap();
                    gemm_packed_b_with(&ctx, S(0.75), av, &packed, S(-0.5), cv, Parallelism::Serial)
                        .unwrap();
                }
                assert_eq!(c, plain, "{m}x{k}x{n} by rows: {by_rows}");
            }
        }
    }
}

#[test]
fn a_narrow_output_is_not_read_with_a_zero_beta() {
    for (m, k, n) in [(1, 30, 9), (5, 40, 6), (40, 900, 33), (3, 4, 5), (2, 0, 2)] {
        let a = brains(1, m * k);
        let b = brains(2, k * n);
        for zero in [bf16::ZERO, bf16::NEG_ZERO] {
            let mut clean = vec![B(bf16::ONE); m * n];
            let mut poisoned = vec![B(bf16::NAN); m * n];
            for c in [&mut clean, &mut poisoned] {
                gemm(
                    B(bf16::ONE),
                    MatRef::from_row_major(&a, m, k),
                    MatRef::from_row_major(&b, k, n),
                    B(zero),
                    MatMut::from_row_major(c, m, n),
                    Parallelism::Serial,
                )
                .unwrap();
            }
            assert_eq!(clean, poisoned);
        }
    }
}

#[test]
fn without_an_epilogue_a_prepacked_fused_product_is_the_plain_one() {
    let ctx = Context::new();
    let (m, k, n) = (6, 20, 5);
    let a = brains(1, m * k);
    let b = brains(2, k * n);
    let mut c0 = brains(3, m * n);
    // A signalling pattern survives only where C is not taken through the accumulator.
    c0[0] = B(bf16::from_bits(0x7F81));
    let packed = prepack_rhs(&ctx, MatRef::from_row_major(&b, k, n)).unwrap();
    for alpha in [bf16::ZERO, bf16::ONE] {
        let (mut plain, mut fused) = (c0.clone(), c0.clone());
        gemm_packed_b_with(
            &ctx,
            B(alpha),
            MatRef::from_row_major(&a, m, k),
            &packed,
            B(bf16::ONE),
            MatMut::from_col_major(&mut plain, m, n),
            Parallelism::Serial,
        )
        .unwrap();
        gemm_packed_b_fused_with(
            &ctx,
            B(alpha),
            MatRef::from_row_major(&a, m, k),
            &packed,
            B(bf16::ONE),
            MatMut::from_col_major(&mut fused, m, n),
            None,
            None,
            Parallelism::Serial,
        )
        .unwrap();
        for (p, f) in plain.iter().zip(&fused) {
            assert_eq!(p.0.to_bits(), f.0.to_bits());
        }
        if alpha == bf16::ZERO {
            assert_eq!(fused[0].0.to_bits(), 0x7F81);
        }
    }
}
