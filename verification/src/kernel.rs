//! Kernel families and epilogues: the arithmetic that one output element goes through.

use vstd::prelude::*;

use crate::scalar::Scalar;

verus! {

/// A kernel family: the four element types of a product and the arithmetic between them.
///
/// `Lhs * Rhs` accumulates in `Acc`; `Out` is what the output stores.
pub trait KernelFamily {
    type Lhs: Copy;

    type Rhs: Copy;

    type Acc: Scalar;

    type Out: Copy;

    /// Whether `Out` holds an accumulator exactly, so that the depth may be split into slices.
    spec fn out_is_acc_spec() -> bool;

    /// `acc` plus the product of `l` and `r`.
    spec fn madd_spec(acc: Self::Acc, l: Self::Lhs, r: Self::Rhs) -> Self::Acc;

    /// A stored output, taken back into the accumulator.
    spec fn widen_spec(o: Self::Out) -> Self::Acc;

    /// An accumulator, as the output stores it.
    spec fn narrow_spec(v: Self::Acc) -> Self::Out;

    /// Whether the family reads the left operand from packed panels only.
    spec fn force_pack_lhs_spec() -> bool;

    /// Whether the family reads the right operand from packed panels only.
    spec fn force_pack_rhs_spec() -> bool;

    /// Whether a later depth slice starts from the stored output instead of adding to it, so
    /// that the slices together form one unbroken chain.
    spec fn seeds_spec() -> bool;

    /// What fills a panel beyond the rows and the depth of the left operand.
    spec fn lhs_pad_spec() -> Self::Lhs;

    /// What fills a panel beyond the columns and the depth of the right operand.
    spec fn rhs_pad_spec() -> Self::Rhs;

    fn out_is_acc() -> (r: bool)
        ensures
            r == Self::out_is_acc_spec(),
    ;

    fn force_pack_lhs() -> (r: bool)
        ensures
            r == Self::force_pack_lhs_spec(),
    ;

    fn force_pack_rhs() -> (r: bool)
        ensures
            r == Self::force_pack_rhs_spec(),
    ;

    fn seeds() -> (r: bool)
        ensures
            r == Self::seeds_spec(),
    ;

    fn madd(acc: Self::Acc, l: Self::Lhs, r: Self::Rhs) -> (v: Self::Acc)
        ensures
            v == Self::madd_spec(acc, l, r),
    ;

    fn widen(o: Self::Out) -> (v: Self::Acc)
        ensures
            v == Self::widen_spec(o),
    ;

    fn narrow(v: Self::Acc) -> (o: Self::Out)
        ensures
            o == Self::narrow_spec(v),
    ;

    fn lhs_pad() -> (r: Self::Lhs)
        ensures
            r == Self::lhs_pad_spec(),
    ;

    fn rhs_pad() -> (r: Self::Rhs)
        ensures
            r == Self::rhs_pad_spec(),
    ;
}

/// What is done with an accumulator when output element `(i, j)` is stored for the last time.
pub trait Epilogue<F: KernelFamily>: Sized {
    /// The values and places for which `apply` may be called.
    spec fn accepts(&self, v: F::Acc, i: int, j: int) -> bool;

    /// The outputs that `apply` may give for an accumulator.
    spec fn stores(&self, v: F::Acc, i: int, j: int, o: F::Out) -> bool;

    /// The same epilogue for the transposed output.
    spec fn flip_spec(&self) -> Self;

    fn apply(&self, v: F::Acc, i: usize, j: usize) -> (o: F::Out)
        requires
            self.accepts(v, i as int, j as int),
        ensures
            self.stores(v, i as int, j as int, o),
    ;

    fn flip(&self) -> (r: Self)
        ensures
            r == self.flip_spec(),
    ;

    /// The flipped epilogue does at `(i, j)` what this one does at `(j, i)`.
    proof fn flip_transposes(&self, v: F::Acc, i: int, j: int, o: F::Out)
        ensures
            self.flip_spec().accepts(v, i, j) == self.accepts(v, j, i),
            self.flip_spec().stores(v, i, j, o) == self.stores(v, j, i, o),
    ;
}

/// The epilogue of a plain product: the accumulator is stored as it is.
#[derive(Clone, Copy, Debug)]
pub struct Identity;

impl<F: KernelFamily> Epilogue<F> for Identity {
    open spec fn accepts(&self, v: F::Acc, i: int, j: int) -> bool {
        true
    }

    open spec fn stores(&self, v: F::Acc, i: int, j: int, o: F::Out) -> bool {
        o == F::narrow_spec(v)
    }

    open spec fn flip_spec(&self) -> Identity {
        Identity
    }

    fn apply(&self, v: F::Acc, i: usize, j: usize) -> (o: F::Out) {
        F::narrow(v)
    }

    fn flip(&self) -> (r: Identity) {
        Identity
    }

    proof fn flip_transposes(&self, v: F::Acc, i: int, j: int, o: F::Out) {
    }
}

/// Precomputed state of `alpha`.
#[derive(Clone, Copy, Debug, PartialEq, Eq, Structural)]
pub enum AlphaStatus {
    One,
    Other,
}

/// Precomputed state of `beta`.
#[derive(Clone, Copy, Debug, PartialEq, Eq, Structural)]
pub enum BetaStatus {
    Zero,
    One,
    Other,
}

/// The state of `alpha`, so that a microtile branches instead of comparing. A zero `alpha`
/// is handled before any tile runs.
pub fn alpha_status<T: Scalar>(a: T) -> (r: AlphaStatus)
    ensures
        r == (if a.is_one_spec() {
            AlphaStatus::One
        } else {
            AlphaStatus::Other
        }),
{
    if a.is_one() {
        AlphaStatus::One
    } else {
        AlphaStatus::Other
    }
}

/// The state of `beta`; see [`alpha_status`].
pub fn beta_status<T: Scalar>(b: T) -> (r: BetaStatus)
    ensures
        r == (if b.is_zero_spec() {
            BetaStatus::Zero
        } else if b.is_one_spec() {
            BetaStatus::One
        } else {
            BetaStatus::Other
        }),
{
    if b.is_zero() {
        BetaStatus::Zero
    } else if b.is_one() {
        BetaStatus::One
    } else {
        BetaStatus::Other
    }
}

/// `alpha * acc`, with a unit `alpha` left out.
pub open spec fn scaled<T: Scalar>(alpha: T, acc: T) -> T {
    if alpha.is_one_spec() {
        acc
    } else {
        alpha.times_spec(acc)
    }
}

/// `alpha * acc + beta * old`. A zero `beta` ignores `old`.
pub open spec fn blend<F: KernelFamily>(
    alpha: F::Acc,
    acc: F::Acc,
    beta: F::Acc,
    old: F::Out,
) -> F::Acc {
    if beta.is_zero_spec() {
        scaled(alpha, acc)
    } else if beta.is_one_spec() {
        scaled(alpha, acc).plus_spec(F::widen_spec(old))
    } else {
        scaled(alpha, acc).plus_spec(beta.times_spec(F::widen_spec(old)))
    }
}

/// `alpha * acc + beta * old` from the precomputed states.
pub fn blend_status<F: KernelFamily>(
    alpha: F::Acc,
    acc: F::Acc,
    beta: F::Acc,
    old: F::Out,
    ash: AlphaStatus,
    bst: BetaStatus,
) -> (v: F::Acc)
    requires
        ash is One <==> alpha.is_one_spec(),
    ensures
        bst is Zero ==> v == scaled(alpha, acc),
        bst is One ==> v == scaled(alpha, acc).plus_spec(F::widen_spec(old)),
        bst is Other ==> v == scaled(alpha, acc).plus_spec(beta.times_spec(F::widen_spec(old))),
{
    let prod: F::Acc = match ash {
        AlphaStatus::One => acc,
        AlphaStatus::Other => alpha.times(acc),
    };
    match bst {
        BetaStatus::Zero => prod,
        BetaStatus::One => prod.plus(F::widen(old)),
        BetaStatus::Other => prod.plus(beta.times(F::widen(old))),
    }
}

/// The accumulator after the depth `lo..hi`, starting from `init`: one product after another.
pub open spec fn chain<F: KernelFamily>(
    init: F::Acc,
    x: spec_fn(int) -> F::Lhs,
    y: spec_fn(int) -> F::Rhs,
    lo: int,
    hi: int,
) -> F::Acc
    decreases hi - lo,
{
    if hi <= lo {
        init
    } else {
        F::madd_spec(chain::<F>(init, x, y, lo, hi - 1), x(hi - 1), y(hi - 1))
    }
}

/// The accumulator over the depth `lo..hi`, starting from zero.
pub open spec fn dot_range<F: KernelFamily>(
    x: spec_fn(int) -> F::Lhs,
    y: spec_fn(int) -> F::Rhs,
    lo: int,
    hi: int,
) -> F::Acc {
    chain::<F>(F::Acc::zero_spec(), x, y, lo, hi)
}

/// A chain can be broken off at any depth and taken up again from there.
pub proof fn lemma_chain_split<F: KernelFamily>(
    init: F::Acc,
    x: spec_fn(int) -> F::Lhs,
    y: spec_fn(int) -> F::Rhs,
    lo: int,
    mid: int,
    hi: int,
)
    requires
        lo <= mid <= hi,
    ensures
        chain::<F>(chain::<F>(init, x, y, lo, mid), x, y, mid, hi) == chain::<F>(
            init,
            x,
            y,
            lo,
            hi,
        ),
    decreases hi - mid,
{
    if mid < hi {
        lemma_chain_split::<F>(init, x, y, lo, mid, hi - 1);
    }
}

} // verus!
