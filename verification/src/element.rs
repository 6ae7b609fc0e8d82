//! Element types of a homogeneous product, and the families that run them.

use vstd::prelude::*;

use core::marker::PhantomData;

use crate::isa::Kernels;
use crate::kernel::KernelFamily;
use crate::scalar::Scalar;

verus! {

/// An element type whose products the engine can run: operands and output share it, and the
/// accumulator may be wider.
pub trait GemmScalar: Scalar {
    type Acc: Scalar;

    /// Whether an element holds an accumulator exactly. Where it does not, the depth is never
    /// split, so that an output is rounded once.
    spec fn out_is_acc_spec() -> bool;

    /// `acc` plus the product of `l` and `r`.
    spec fn madd_spec(acc: Self::Acc, l: Self, r: Self) -> Self::Acc;

    /// An element as an accumulator.
    spec fn widen_spec(self) -> Self::Acc;

    /// An accumulator as an element.
    spec fn narrow_spec(v: Self::Acc) -> Self;

    /// The microtile of this type's kernel.
    spec fn rhs_tile_spec(k: Kernels) -> (usize, usize);

    /// The steps of the depth that this type's kernel takes at a time. Its panels are padded to
    /// a multiple of them.
    spec fn rhs_depth_multiple_spec(k: Kernels) -> usize;

    /// A kernel takes at least one step at a time, and more only where the depth is not split.
    proof fn depth_multiple_is_sound(k: Kernels)
        requires
            k.valid(),
        ensures
            1 <= Self::rhs_depth_multiple_spec(k) <= 64,
            Self::out_is_acc_spec() ==> Self::rhs_depth_multiple_spec(k) == 1,
    ;

    /// A zero is a zero as an accumulator too.
    proof fn zero_widens_to_zero(x: Self)
        ensures
            x.is_zero_spec() ==> x.widen_spec().is_zero_spec(),
    ;

    /// Where an element holds an accumulator exactly, neither conversion loses anything.
    proof fn exact_is_lossless(v: Self::Acc, x: Self)
        ensures
            Self::out_is_acc_spec() ==> Self::narrow_spec(v).widen_spec() == v
                && Self::narrow_spec(x.widen_spec()) == x && Self::zero_spec().widen_spec()
                == Self::Acc::zero_spec(),
    ;

    fn out_is_acc() -> (r: bool)
        ensures
            r == Self::out_is_acc_spec(),
    ;

    fn madd(acc: Self::Acc, l: Self, r: Self) -> (v: Self::Acc)
        ensures
            v == Self::madd_spec(acc, l, r),
    ;

    fn widen(self) -> (v: Self::Acc)
        ensures
            v == self.widen_spec(),
    ;

    fn narrow(v: Self::Acc) -> (o: Self)
        ensures
            o == Self::narrow_spec(v),
    ;

    fn rhs_tile(k: &Kernels) -> (r: (usize, usize))
        requires
            k.valid(),
        ensures
            r == Self::rhs_tile_spec(*k),
            r.0 > 0,
            r.1 > 0,
    ;

    fn rhs_depth_multiple(k: &Kernels) -> (r: usize)
        requires
            k.valid(),
        ensures
            r == Self::rhs_depth_multiple_spec(*k),
    ;
}

/// The family of a homogeneous product.
pub struct Plain<T> {
    _t: PhantomData<T>,
}

/// The family of the deep products of a narrow type: the output is the accumulator itself, and
/// each depth slice takes the chain up where the last one left it.
pub struct Twin<T> {
    _t: PhantomData<T>,
}

impl<T: GemmScalar> KernelFamily for Plain<T> {
    type Lhs = T;

    type Rhs = T;

    type Acc = T::Acc;

    type Out = T;

    open spec fn out_is_acc_spec() -> bool {
        T::out_is_acc_spec()
    }

    open spec fn madd_spec(acc: T::Acc, l: T, r: T) -> T::Acc {
        T::madd_spec(acc, l, r)
    }

    open spec fn widen_spec(o: T) -> T::Acc {
        o.widen_spec()
    }

    open spec fn narrow_spec(v: T::Acc) -> T {
        T::narrow_spec(v)
    }

    open spec fn force_pack_lhs_spec() -> bool {
        false
    }

    open spec fn force_pack_rhs_spec() -> bool {
        false
    }

    open spec fn seeds_spec() -> bool {
        false
    }

    open spec fn lhs_pad_spec() -> T {
        T::zero_spec()
    }

    open spec fn rhs_pad_spec() -> T {
        T::zero_spec()
    }

    fn out_is_acc() -> bool {
        T::out_is_acc()
    }

    fn force_pack_lhs() -> bool {
        false
    }

    fn force_pack_rhs() -> bool {
        false
    }

    fn seeds() -> bool {
        false
    }

    fn madd(acc: T::Acc, l: T, r: T) -> T::Acc {
        T::madd(acc, l, r)
    }

    fn widen(o: T) -> T::Acc {
        o.widen()
    }

    fn narrow(v: T::Acc) -> T {
        T::narrow(v)
    }

    fn lhs_pad() -> T {
        T::zero()
    }

    fn rhs_pad() -> T {
        T::zero()
    }
}

impl<T: GemmScalar> KernelFamily for Twin<T> {
    type Lhs = T;

    type Rhs = T;

    type Acc = T::Acc;

    type Out = T::Acc;

    open spec fn out_is_acc_spec() -> bool {
        true
    }

    open spec fn madd_spec(acc: T::Acc, l: T, r: T) -> T::Acc {
        T::madd_spec(acc, l, r)
    }

    open spec fn widen_spec(o: T::Acc) -> T::Acc {
        o
    }

    open spec fn narrow_spec(v: T::Acc) -> T::Acc {
        v
    }

    open spec fn force_pack_lhs_spec() -> bool {
        false
    }

    open spec fn force_pack_rhs_spec() -> bool {
        false
    }

    open spec fn seeds_spec() -> bool {
        true
    }

    open spec fn lhs_pad_spec() -> T {
        T::zero_spec()
    }

    open spec fn rhs_pad_spec() -> T {
        T::zero_spec()
    }

    fn out_is_acc() -> bool {
        true
    }

    fn force_pack_lhs() -> bool {
        false
    }

    fn force_pack_rhs() -> bool {
        false
    }

    fn seeds() -> bool {
        true
    }

    fn madd(acc: T::Acc, l: T, r: T) -> T::Acc {
        T::madd(acc, l, r)
    }

    fn widen(o: T::Acc) -> T::Acc {
        o
    }

    fn narrow(v: T::Acc) -> T::Acc {
        v
    }

    fn lhs_pad() -> T {
        T::zero()
    }

    fn rhs_pad() -> T {
        T::zero()
    }
}

/// Wrapping `i32` as an element type: the exact reference for the homogeneous entries.
impl GemmScalar for i32 {
    type Acc = i32;

    open spec fn out_is_acc_spec() -> bool {
        true
    }

    open spec fn madd_spec(acc: i32, l: i32, r: i32) -> i32 {
        acc.plus_spec(l.times_spec(r))
    }

    open spec fn widen_spec(self) -> i32 {
        self
    }

    open spec fn narrow_spec(v: i32) -> i32 {
        v
    }

    open spec fn rhs_tile_spec(k: Kernels) -> (usize, usize) {
        (k.single.mr, k.single.nr)
    }

    open spec fn rhs_depth_multiple_spec(k: Kernels) -> usize {
        1
    }

    proof fn depth_multiple_is_sound(k: Kernels) {
    }

    proof fn zero_widens_to_zero(x: i32) {
    }

    proof fn exact_is_lossless(v: i32, x: i32) {
    }

    fn out_is_acc() -> bool {
        true
    }

    fn madd(acc: i32, l: i32, r: i32) -> i32 {
        acc.plus(l.times(r))
    }

    fn widen(self) -> i32 {
        self
    }

    fn narrow(v: i32) -> i32 {
        v
    }

    fn rhs_tile(k: &Kernels) -> (usize, usize) {
        (k.single.mr, k.single.nr)
    }

    fn rhs_depth_multiple(k: &Kernels) -> usize {
        1
    }
}

} // verus!
