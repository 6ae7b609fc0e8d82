//! Fused epilogues: a bias and an activation, folded into the store of a product.

use vstd::prelude::*;

use crate::api::{gemm_views_error, validate_gemm_views, MatMut, MatRef};
use crate::cells::{for_each_cell, Cell};
use crate::dispatch::{lemma_written_ext, written, Operands, Routes};
use crate::element::{GemmScalar, Plain};
use crate::error::{GemmError, Operand};
use crate::gemm::{gemm_with, lemma_views_valid, operands_of};
use crate::homog::{
    gemm_element, gemm_fits, gemm_runs, gemm_total, run_typed_epi, vanishes, Task,
};
use crate::kernel::Epilogue;
use crate::layout::Layout;
use crate::parallel::{default_context, Context, Parallelism};
use crate::scalar::{wrap_i32, Scalar};

verus! {

/// An element type that the fused entries take: its accumulator has the activations.
pub trait FusedScalar: GemmScalar {
    /// `max(v, 0)`.
    spec fn relu_spec(v: Self::Acc) -> Self::Acc;

    /// `max(v, 0) + slope * min(v, 0)`.
    spec fn leaky_relu_spec(slope: Self::Acc, v: Self::Acc) -> Self::Acc;

    /// Whether a value is finite.
    spec fn finite_spec(self) -> bool;

    fn relu(v: Self::Acc) -> (r: Self::Acc)
        ensures
            r == Self::relu_spec(v),
    ;

    fn leaky_relu(slope: Self::Acc, v: Self::Acc) -> (r: Self::Acc)
        ensures
            r == Self::leaky_relu_spec(slope, v),
    ;

    fn finite(self) -> (r: bool)
        ensures
            r == self.finite_spec(),
    ;
}

impl FusedScalar for i32 {
    open spec fn relu_spec(v: i32) -> i32 {
        if v > 0 {
            v
        } else {
            0
        }
    }

    open spec fn leaky_relu_spec(slope: i32, v: i32) -> i32 {
        if v > 0 {
            v
        } else {
            wrap_i32(slope * v)
        }
    }

    open spec fn finite_spec(self) -> bool {
        true
    }

    fn relu(v: i32) -> i32 {
        if v > 0 {
            v
        } else {
            0
        }
    }

    fn leaky_relu(slope: i32, v: i32) -> i32 {
        if v > 0 {
            v
        } else {
            slope.wrapping_mul(v)
        }
    }

    fn finite(self) -> bool {
        true
    }
}

/// A bias, broadcast over the rows or the columns of the output.
pub enum Bias<'a, T> {
    /// One value per output row.
    PerRow(&'a [T]),
    /// One value per output column.
    PerCol(&'a [T]),
}

/// The activation, applied after the bias.
pub enum Activation<T> {
    /// `max(v, 0)`.
    Relu,
    /// `max(v, 0) + slope * min(v, 0)`.
    LeakyRelu(T),
}

/// The axis that a bias runs along.
#[derive(Clone, Copy, Debug, PartialEq, Eq, Structural)]
pub enum BiasDim {
    PerRow,
    PerCol,
}

/// A bias as the epilogue holds it.
pub enum BiasSpec<'a, T> {
    Absent,
    Row(&'a [T]),
    Col(&'a [T]),
}

/// An activation as the epilogue holds it.
pub enum Act<T> {
    Absent,
    Relu,
    LeakyRelu(T),
}

/// The fused epilogue: add the bias, then apply the activation.
pub struct FusedEpi<'a, T> {
    pub bias: BiasSpec<'a, T>,
    pub act: Act<T>,
}

impl<'a, T> Copy for BiasSpec<'a, T> {

}

impl<'a, T> Clone for BiasSpec<'a, T> {
    fn clone(&self) -> (r: Self)
        ensures
            r == *self,
    {
        *self
    }
}

impl<T: Copy> Copy for Act<T> {

}

impl<T: Copy> Clone for Act<T> {
    fn clone(&self) -> (r: Self)
        ensures
            r == *self,
    {
        *self
    }
}

impl<'a, T: Copy> Copy for FusedEpi<'a, T> {

}

impl<'a, T: Copy> Clone for FusedEpi<'a, T> {
    fn clone(&self) -> (r: Self)
        ensures
            r == *self,
    {
        *self
    }
}

impl<'a, T> BiasSpec<'a, T> {
    /// The bias covers an `m x n` output.
    pub open spec fn covers(self, m: int, n: int) -> bool {
        match self {
            BiasSpec::Absent => true,
            BiasSpec::Row(s) => s@.len() >= m,
            BiasSpec::Col(s) => s@.len() >= n,
        }
    }

    /// The bias of the transposed output.
    pub open spec fn flipped(self) -> BiasSpec<'a, T> {
        match self {
            BiasSpec::Absent => BiasSpec::Absent,
            BiasSpec::Row(s) => BiasSpec::Col(s),
            BiasSpec::Col(s) => BiasSpec::Row(s),
        }
    }
}

impl<'a, T: FusedScalar> FusedEpi<'a, T> {
    /// There is neither a bias nor an activation.
    pub open spec fn is_plain(self) -> bool {
        self.bias is Absent && self.act is Absent
    }

    /// The bias added to an accumulator.
    pub open spec fn biased(self, v: T::Acc, i: int, j: int) -> T::Acc {
        match self.bias {
            BiasSpec::Absent => v,
            BiasSpec::Row(s) => v.plus_spec(s@[i].widen_spec()),
            BiasSpec::Col(s) => v.plus_spec(s@[j].widen_spec()),
        }
    }

    /// What the epilogue makes of an accumulator: the bias, then the activation, then one
    /// rounding to the element type.
    pub open spec fn value(self, v: T::Acc, i: int, j: int) -> T {
        let b = self.biased(v, i, j);
        T::narrow_spec(
            match self.act {
                Act::Absent => b,
                Act::Relu => T::relu_spec(b),
                Act::LeakyRelu(s) => T::leaky_relu_spec(s.widen_spec(), b),
            },
        )
    }
}

impl<'a, T: FusedScalar> Epilogue<Plain<T>> for FusedEpi<'a, T> {
    open spec fn accepts(&self, v: T::Acc, i: int, j: int) -> bool {
        match self.bias {
            BiasSpec::Absent => true,
            BiasSpec::Row(s) => 0 <= i < s@.len(),
            BiasSpec::Col(s) => 0 <= j < s@.len(),
        }
    }

    open spec fn stores(&self, v: T::Acc, i: int, j: int, o: T) -> bool {
        o == self.value(v, i, j)
    }

    open spec fn flip_spec(&self) -> FusedEpi<'a, T> {
        FusedEpi { bias: self.bias.flipped(), act: self.act }
    }

    fn apply(&self, v: T::Acc, i: usize, j: usize) -> (o: T) {
        let b: T::Acc = match &self.bias {
            BiasSpec::Absent => v,
            BiasSpec::Row(s) => v.plus(s[i].widen()),
            BiasSpec::Col(s) => v.plus(s[j].widen()),
        };
        let w: T::Acc = match &self.act {
            Act::Absent => b,
            Act::Relu => T::relu(b),
            Act::LeakyRelu(s) => T::leaky_relu(s.widen(), b),
        };
        T::narrow(w)
    }

    fn flip(&self) -> (r: FusedEpi<'a, T>) {
        FusedEpi {
            bias: match &self.bias {
                BiasSpec::Absent => BiasSpec::Absent,
                BiasSpec::Row(s) => BiasSpec::Col(*s),
                BiasSpec::Col(s) => BiasSpec::Row(*s),
            },
            act: match &self.act {
                Act::Absent => Act::Absent,
                Act::Relu => Act::Relu,
                Act::LeakyRelu(s) => Act::LeakyRelu(*s),
            },
        }
    }

    proof fn flip_transposes(&self, v: T::Acc, i: int, j: int, o: T) {
    }
}

/// The epilogue of the selected bias and activation.
pub open spec fn fused_epi_spec<'a, T>(
    bias: Option<Bias<'a, T>>,
    act: Option<Activation<T>>,
) -> FusedEpi<'a, T> {
    FusedEpi {
        bias: match bias {
            None => BiasSpec::Absent,
            Some(Bias::PerRow(s)) => BiasSpec::Row(s),
            Some(Bias::PerCol(s)) => BiasSpec::Col(s),
        },
        act: match act {
            None => Act::Absent,
            Some(Activation::Relu) => Act::Relu,
            Some(Activation::LeakyRelu(s)) => Act::LeakyRelu(s),
        },
    }
}

/// Lower the selected bias and activation into the epilogue.
pub fn to_fused_epi<'a, T>(bias: Option<Bias<'a, T>>, act: Option<Activation<T>>) -> (r: FusedEpi<
    'a,
    T,
>)
    ensures
        r == fused_epi_spec(bias, act),
{
    let bias: BiasSpec<'a, T> = match bias {
        None => BiasSpec::Absent,
        Some(Bias::PerRow(s)) => BiasSpec::Row(s),
        Some(Bias::PerCol(s)) => BiasSpec::Col(s),
    };
    let act: Act<T> = match act {
        None => Act::Absent,
        Some(Activation::Relu) => Act::Relu,
        Some(Activation::LeakyRelu(s)) => Act::LeakyRelu(s),
    };
    FusedEpi { bias, act }
}

/// A bias vector with its axis, as the selection it stands for.
pub open spec fn raw_bias<'a, T>(bias: &'a [T], bias_dim: BiasDim, has_bias: bool) -> Option<
    Bias<'a, T>,
> {
    if !has_bias {
        None
    } else if bias_dim == BiasDim::PerRow {
        Some(Bias::PerRow(bias))
    } else {
        Some(Bias::PerCol(bias))
    }
}

/// Lower a bias vector with its axis, and an activation, into the epilogue. Without `has_bias`
/// the vector is ignored.
pub fn to_fused_epi_raw<'a, T>(
    bias: &'a [T],
    bias_dim: BiasDim,
    has_bias: bool,
    act: Option<Activation<T>>,
) -> (r: FusedEpi<'a, T>)
    ensures
        r == fused_epi_spec(raw_bias(bias, bias_dim, has_bias), act),
{
    let bias: Option<Bias<'a, T>> = if has_bias {
        match bias_dim {
            BiasDim::PerRow => Some(Bias::PerRow(bias)),
            BiasDim::PerCol => Some(Bias::PerCol(bias)),
        }
    } else {
        None
    };
    to_fused_epi(bias, act)
}

/// Why a bias does not suit an `m x n` output: its length is not that of its axis.
pub open spec fn bias_error<'a, T>(bias: Option<Bias<'a, T>>, m: usize, n: usize) -> Option<
    GemmError,
> {
    match bias {
        None => None,
        Some(Bias::PerRow(s)) => if s@.len() == m {
            None
        } else {
            Some(
                GemmError::LengthMismatch {
                    view: Operand::Bias,
                    want: m,
                    len: s@.len() as usize,
                },
            )
        },
        Some(Bias::PerCol(s)) => if s@.len() == n {
            None
        } else {
            Some(
                GemmError::LengthMismatch {
                    view: Operand::Bias,
                    want: n,
                    len: s@.len() as usize,
                },
            )
        },
    }
}

/// Check a bias against the shape of the output. A bias cannot overlap the output, which is
/// borrowed mutably.
pub fn validate_bias<'a, T>(bias: &Option<Bias<'a, T>>, m: usize, n: usize) -> (r: Result<
    (),
    GemmError,
>)
    ensures
        r == (match bias_error(*bias, m, n) {
            Some(e) => Err::<(), GemmError>(e),
            None => Ok(()),
        }),
{
    let (want, len): (usize, usize) = match bias {
        None => return Ok(()),
        Some(Bias::PerRow(s)) => (m, s.len()),
        Some(Bias::PerCol(s)) => (n, s.len()),
    };
    if len == want {
        Ok(())
    } else {
        Err(GemmError::LengthMismatch { view: Operand::Bias, want, len })
    }
}

/// Why a bias or an activation is refused: the bias first.
pub open spec fn fused_error<'a, T: FusedScalar>(
    bias: Option<Bias<'a, T>>,
    act: Option<Activation<T>>,
    m: usize,
    n: usize,
) -> Option<GemmError> {
    match bias_error(bias, m, n) {
        Some(e) => Some(e),
        None => match act {
            Some(Activation::LeakyRelu(s)) => if s.finite_spec() {
                None
            } else {
                Some(GemmError::SlopeNotFinite)
            },
            _ => None,
        },
    }
}

/// Check a bias and an activation.
pub fn validate_fused<'a, T: FusedScalar>(
    bias: &Option<Bias<'a, T>>,
    act: &Option<Activation<T>>,
    m: usize,
    n: usize,
) -> (r: Result<(), GemmError>)
    ensures
        r == (match fused_error(*bias, *act, m, n) {
            Some(e) => Err::<(), GemmError>(e),
            None => Ok(()),
        }),
{
    if let Err(e) = validate_bias(bias, m, n) {
        return Err(e);
    }
    if let Some(Activation::LeakyRelu(s)) = act {
        if !s.finite() {
            return Err(GemmError::SlopeNotFinite);
        }
    }
    Ok(())
}

/// `beta * old` in the accumulator, as the degenerate fused product starts from.
pub open spec fn scaled_base<T: GemmScalar>(beta: T, old: T) -> T::Acc {
    if beta.is_zero_spec() {
        T::Acc::zero_spec()
    } else if beta.is_one_spec() {
        old.widen_spec()
    } else {
        beta.widen_spec().times_spec(old.widen_spec())
    }
}

struct DegenerateCell<'a, T, E> {
    beta: T,
    epi: &'a E,
}

impl<'a, T: GemmScalar, E: Epilogue<Plain<T>>> Cell<T> for DegenerateCell<'a, T, E> {
    closed spec fn takes(&self, i: int, j: int) -> bool {
        forall|v: T::Acc| #[trigger] self.epi.accepts(v, i, j)
    }

    closed spec fn gives(&self, i: int, j: int, before: T, after: T) -> bool {
        self.epi.stores(scaled_base(self.beta, before), i, j, after)
    }

    fn update(&self, i: usize, j: usize, before: T) -> (after: T) {
        let base: T::Acc = if self.beta.is_zero() {
            T::Acc::zero()
        } else if self.beta.is_one() {
            before.widen()
        } else {
            self.beta.widen().times(before.widen())
        };
        self.epi.apply(base, i, j)
    }
}

/// `C <- epilogue(beta*C)`: the whole of a fused product whose `A*B` term vanishes.
pub fn degenerate<T: GemmScalar, E: Epilogue<Plain<T>>>(
    beta: T,
    c: &mut [T],
    lc: Layout,
    m: usize,
    n: usize,
    epi: &E,
)
    requires
        lc.fits(m as int, n as int, old(c)@.len() as int),
        lc.distinct(m as int, n as int),
        forall|v: T::Acc, i: int, j: int|
            0 <= i < m && 0 <= j < n ==> #[trigger] epi.accepts(v, i, j),
    ensures
        written(
            old(c)@,
            final(c)@,
            lc,
            m as int,
            n as int,
            |i: int, j: int, x: T, y: T| epi.stores(scaled_base(beta, x), i, j, y),
        ),
{
    let ghost c0 = c@;
    let g: DegenerateCell<'_, T, E> = DegenerateCell { beta, epi };
    for_each_cell(c, lc, m, n, &g);
    proof {
        lemma_written_ext(
            c0,
            c@,
            lc,
            m as int,
            n as int,
            |i: int, j: int, x: T, y: T| g.gives(i, j, x, y),
            |i: int, j: int, x: T, y: T| epi.stores(scaled_base(beta, x), i, j, y),
        );
    }
}

/// The routes of a product with an epilogue: a narrow type has no matrix-vector route there,
/// because its store would already have rounded.
pub open spec fn epi_routes<T: GemmScalar>() -> Routes {
    Routes { gemv: T::out_is_acc_spec(), deep: None }
}

/// The accumulator that the epilogue is given at `(i, j)`.
pub open spec fn pre_epilogue<'a, T: GemmScalar>(
    ctx: Context,
    o: Operands<'a, T>,
    alpha: T,
    beta: T,
    i: int,
    j: int,
    old: T,
) -> T::Acc {
    if vanishes(o.k, alpha) {
        scaled_base(beta, old)
    } else {
        gemm_total(
            ctx,
            epi_routes::<T>(),
            o,
            alpha.widen_spec(),
            beta.widen_spec(),
            i,
            j,
            old,
        )
    }
}

/// Whether a product with an epilogue can be run.
pub open spec fn epi_runs<'a, T: GemmScalar>(
    ctx: Context,
    par: Parallelism,
    o: Operands<'a, T>,
    alpha: T,
) -> bool {
    o.m == 0 || o.n == 0 || vanishes(o.k, alpha) || gemm_fits(ctx, par, epi_routes::<T>(), o)
}

/// Run a product with an epilogue: the degenerate cases here, everything else along its route.
pub fn execute_fused<'a, T: GemmScalar, E: Epilogue<Plain<T>>>(
    ctx: &Context,
    task: Task<'a, T>,
    epi: E,
    par: Parallelism,
    c: &mut [T],
) -> (r: Result<(), GemmError>)
    requires
        ctx.kernels.valid(),
        task.ops.valid(old(c)@.len() as int),
        forall|v: T::Acc, i: int, j: int|
            0 <= i < task.ops.m && 0 <= j < task.ops.n ==> #[trigger] epi.accepts(v, i, j),
    ensures
        r is Ok <==> epi_runs(*ctx, par, task.ops, task.alpha),
        r is Ok ==> written(
            old(c)@,
            final(c)@,
            task.ops.lc,
            task.ops.m as int,
            task.ops.n as int,
            |i: int, j: int, x: T, y: T|
                epi.stores(
                    pre_epilogue(*ctx, task.ops, task.alpha, task.beta, i, j, x),
                    i,
                    j,
                    y,
                ),
        ),
        r matches Err(e) ==> e == GemmError::TooLarge && final(c)@ == old(c)@,
{
    let ghost c0 = c@;
    let ghost o = task.ops;
    let ghost want = |i: int, j: int, x: T, y: T|
        epi.stores(pre_epilogue(*ctx, o, task.alpha, task.beta, i, j, x), i, j, y);
    if task.ops.m == 0 || task.ops.n == 0 {
        return Ok(());
    }
    if task.ops.k == 0 || task.alpha.is_zero() {
        degenerate(task.beta, c, task.ops.lc, task.ops.m, task.ops.n, &epi);
        proof {
            lemma_written_ext(
                c0,
                c@,
                o.lc,
                o.m as int,
                o.n as int,
                |i: int, j: int, x: T, y: T| epi.stores(scaled_base(task.beta, x), i, j, y),
                want,
            );
        }
        return Ok(());
    }
    let alpha: T::Acc = task.alpha.widen();
    let beta: T::Acc = task.beta.widen();
    let gemv: bool = T::out_is_acc();
    let r = run_typed_epi::<T, E>(ctx, par, gemv, alpha, task.ops, beta, c, epi);
    proof {
        if r is Ok {
            lemma_written_ext(
                c0,
                c@,
                o.lc,
                o.m as int,
                o.n as int,
                |i: int, j: int, x: T, y: T|
                    epi.stores(
                        gemm_total(
                            *ctx,
                            Routes { gemv, deep: None },
                            o,
                            alpha,
                            beta,
                            i,
                            j,
                            x,
                        ),
                        i,
                        j,
                        y,
                    ),
                want,
            );
        }
    }
    r
}

/// What element `(i, j)` of the output holds after a fused product, from the value `old` that it
/// had. With neither a bias nor an activation it is the plain product's.
pub open spec fn fused_element<'a, T: FusedScalar>(
    ctx: Context,
    o: Operands<'a, T>,
    alpha: T,
    beta: T,
    bias: Option<Bias<'a, T>>,
    act: Option<Activation<T>>,
    i: int,
    j: int,
    old: T,
) -> T {
    if bias is None && act is None {
        gemm_element(ctx, o, alpha, beta, i, j, old)
    } else {
        fused_epi_spec(bias, act).value(pre_epilogue(ctx, o, alpha, beta, i, j, old), i, j)
    }
}

/// Whether a fused product can be run.
pub open spec fn fused_runs<'a, T: FusedScalar>(
    ctx: Context,
    par: Parallelism,
    o: Operands<'a, T>,
    alpha: T,
    bias: Option<Bias<'a, T>>,
    act: Option<Activation<T>>,
) -> bool {
    if bias is None && act is None {
        gemm_runs(ctx, par, o, alpha)
    } else {
        epi_runs(ctx, par, o, alpha)
    }
}

/// For an element type that holds its accumulator exactly, a fused product is bit for bit the
/// plain product followed by the same map of every element, whatever the shape.
pub proof fn law_fused_is_gemm_then_map<'a, T: FusedScalar>(
    ctx: Context,
    o: Operands<'a, T>,
    alpha: T,
    beta: T,
    bias: Option<Bias<'a, T>>,
    act: Option<Activation<T>>,
    i: int,
    j: int,
    old: T,
)
    requires
        T::out_is_acc_spec(),
    ensures
        fused_element(ctx, o, alpha, beta, bias, act, i, j, old) == fused_epi_spec(
            bias,
            act,
        ).value(gemm_element(ctx, o, alpha, beta, i, j, old).widen_spec(), i, j),
{
    T::exact_is_lossless(
        gemm_total(
            ctx,
            epi_routes::<T>(),
            o,
            alpha.widen_spec(),
            beta.widen_spec(),
            i,
            j,
            old,
        ),
        old,
    );
    T::exact_is_lossless(beta.widen_spec().times_spec(old.widen_spec()), old);
    T::exact_is_lossless(T::Acc::zero_spec(), gemm_element(ctx, o, alpha, beta, i, j, old));
}

/// `C <- act(alpha*A*B + beta*C + bias)` for operands that are known to fit their slices, at any
/// offset and with strides of either sign. The bias is read only with `has_bias`. The epilogue
/// runs even where it changes nothing.
pub fn gemm_fused_unchecked_with<'a, T: FusedScalar>(
    ctx: &Context,
    alpha: T,
    ops: Operands<'a, T>,
    beta: T,
    c: &mut [T],
    bias: &'a [T],
    bias_dim: BiasDim,
    has_bias: bool,
    act: Option<Activation<T>>,
    par: Parallelism,
) -> (r: Result<(), GemmError>)
    requires
        ctx.kernels.valid(),
        ops.valid(old(c)@.len() as int),
        fused_epi_spec(raw_bias(bias, bias_dim, has_bias), act).bias.covers(
            ops.m as int,
            ops.n as int,
        ),
    ensures
        r == (if epi_runs(*ctx, par, ops, alpha) {
            Ok::<(), GemmError>(())
        } else {
            Err(GemmError::TooLarge)
        }),
        r is Ok ==> written(
            old(c)@,
            final(c)@,
            ops.lc,
            ops.m as int,
            ops.n as int,
            |i: int, j: int, x: T, y: T|
                y == fused_epi_spec(raw_bias(bias, bias_dim, has_bias), act).value(
                    pre_epilogue(*ctx, ops, alpha, beta, i, j, x),
                    i,
                    j,
                ),
        ),
        r is Err ==> final(c)@ == old(c)@,
{
    let ghost c0 = c@;
    let epi: FusedEpi<'a, T> = to_fused_epi_raw(bias, bias_dim, has_bias, act);
    match execute_fused(ctx, Task { alpha, beta, ops }, epi, par, c) {
        Ok(_) => {
            proof {
                lemma_written_ext(
                    c0,
                    c@,
                    ops.lc,
                    ops.m as int,
                    ops.n as int,
                    |i: int, j: int, x: T, y: T|
                        epi.stores(pre_epilogue(*ctx, ops, alpha, beta, i, j, x), i, j, y),
                    |i: int, j: int, x: T, y: T|
                        y == fused_epi_spec(raw_bias(bias, bias_dim, has_bias), act).value(
                            pre_epilogue(*ctx, ops, alpha, beta, i, j, x),
                            i,
                            j,
                        ),
                );
            }
            Ok(())
        },
        Err(e) => Err(e),
    }
}

/// [`gemm_fused_unchecked_with`] under the default context.
pub fn gemm_fused_unchecked<'a, T: FusedScalar>(
    alpha: T,
    ops: Operands<'a, T>,
    beta: T,
    c: &mut [T],
    bias: &'a [T],
    bias_dim: BiasDim,
    has_bias: bool,
    act: Option<Activation<T>>,
    par: Parallelism,
) -> (r: Result<(), GemmError>)
    requires
        ops.valid(old(c)@.len() as int),
        fused_epi_spec(raw_bias(bias, bias_dim, has_bias), act).bias.covers(
            ops.m as int,
            ops.n as int,
        ),
    ensures
        r == (if epi_runs(default_context(), par, ops, alpha) {
            Ok::<(), GemmError>(())
        } else {
            Err(GemmError::TooLarge)
        }),
        r is Ok ==> written(
            old(c)@,
            final(c)@,
            ops.lc,
            ops.m as int,
            ops.n as int,
            |i: int, j: int, x: T, y: T|
                y == fused_epi_spec(raw_bias(bias, bias_dim, has_bias), act).value(
                    pre_epilogue(default_context(), ops, alpha, beta, i, j, x),
                    i,
                    j,
                ),
        ),
        r is Err ==> final(c)@ == old(c)@,
{
    gemm_fused_unchecked_with(
        &Context::new(),
        alpha,
        ops,
        beta,
        c,
        bias,
        bias_dim,
        has_bias,
        act,
        par,
    )
}

/// `C <- act(alpha*A*B + beta*C + bias)` over strided views, under the given context.
///
/// The bias and the activation act on the accumulator, before the one rounding to the element
/// type. What is refused, and what stays untouched, is as for the plain product; a bias of the
/// wrong length and a slope that is not finite are refused as well. Without a bias and an
/// activation this is the plain product.
pub fn gemm_fused_with<'a, T: FusedScalar>(
    ctx: &Context,
    alpha: T,
    a: MatRef<'a, T>,
    b: MatRef<'a, T>,
    beta: T,
    c: MatMut<'_, T>,
    bias: Option<Bias<'a, T>>,
    act: Option<Activation<T>>,
    par: Parallelism,
) -> (r: Result<(), GemmError>)
    requires
        ctx.kernels.valid(),
    ensures
        r == (match gemm_views_error(a.geometry(), b.geometry(), c.geometry()) {
            Some(e) => Err::<(), GemmError>(e),
            None => match fused_error(bias, act, a.rows, b.cols) {
                Some(e) => Err(e),
                None => if fused_runs(
                    *ctx,
                    par,
                    operands_of(a, b, c.layout_spec()),
                    alpha,
                    bias,
                    act,
                ) {
                    Ok(())
                } else {
                    Err(GemmError::TooLarge)
                },
            },
        }),
        r is Ok ==> written(
            old(c.data)@,
            final(c.data)@,
            c.layout_spec(),
            c.rows as int,
            c.cols as int,
            |i: int, j: int, x: T, y: T|
                y == fused_element(
                    *ctx,
                    operands_of(a, b, c.layout_spec()),
                    alpha,
                    beta,
                    bias,
                    act,
                    i,
                    j,
                    x,
                ),
        ),
        r is Err ==> final(c.data)@ == old(c.data)@,
{
    let ghost c0 = c.data@;
    let ghost lc = c.layout_spec();
    let ghost (m, n) = (c.rows as int, c.cols as int);
    let ghost want = |i: int, j: int, x: T, y: T|
        y == fused_element(*ctx, operands_of(a, b, lc), alpha, beta, bias, act, i, j, x);
    if bias.is_none() && act.is_none() {
        let r = gemm_with(
            ctx,
            alpha,
            a,
            b,
            beta,
            MatMut { data: &mut *c.data, rows: c.rows, cols: c.cols, rs: c.rs, cs: c.cs },
            par,
        );
        proof {
            if r is Ok {
                lemma_written_ext(
                    c0,
                    c.data@,
                    lc,
                    m,
                    n,
                    |i: int, j: int, x: T, y: T|
                        y == gemm_element(*ctx, operands_of(a, b, lc), alpha, beta, i, j, x),
                    want,
                );
            }
        }
        return r;
    }
    if let Err(e) = validate_gemm_views(&a, &b, &c) {
        return Err(e);
    }
    if let Err(e) = validate_fused(&bias, &act, a.rows, b.cols) {
        return Err(e);
    }
    proof {
        lemma_views_valid(a, b, c.geometry());
    }
    let ops: Operands<'a, T> = Operands {
        m: a.rows,
        k: a.cols,
        n: b.cols,
        a: a.data,
        la: a.layout(),
        b: b.data,
        lb: b.layout(),
        lc: c.layout(),
    };
    assert(ops == operands_of(a, b, lc));
    let epi: FusedEpi<'a, T> = to_fused_epi(bias, act);
    match execute_fused(ctx, Task { alpha, beta, ops }, epi, par, c.data) {
        Ok(_) => {
            proof {
                lemma_written_ext(
                    c0,
                    c.data@,
                    lc,
                    m,
                    n,
                    |i: int, j: int, x: T, y: T|
                        epi.stores(pre_epilogue(*ctx, ops, alpha, beta, i, j, x), i, j, y),
                    want,
                );
            }
            Ok(())
        },
        Err(e) => Err(e),
    }
}

/// [`gemm_fused_with`] under the default context.
pub fn gemm_fused<'a, T: FusedScalar>(
    alpha: T,
    a: MatRef<'a, T>,
    b: MatRef<'a, T>,
    beta: T,
    c: MatMut<'_, T>,
    bias: Option<Bias<'a, T>>,
    act: Option<Activation<T>>,
    par: Parallelism,
) -> (r: Result<(), GemmError>)
    ensures
        r == (match gemm_views_error(a.geometry(), b.geometry(), c.geometry()) {
            Some(e) => Err::<(), GemmError>(e),
            None => match fused_error(bias, act, a.rows, b.cols) {
                Some(e) => Err(e),
                None => if fused_runs(
                    default_context(),
                    par,
                    operands_of(a, b, c.layout_spec()),
                    alpha,
                    bias,
                    act,
                ) {
                    Ok(())
                } else {
                    Err(GemmError::TooLarge)
                },
            },
        }),
        r is Ok ==> written(
            old(c.data)@,
            final(c.data)@,
            c.layout_spec(),
            c.rows as int,
            c.cols as int,
            |i: int, j: int, x: T, y: T|
                y == fused_element(
                    default_context(),
                    operands_of(a, b, c.layout_spec()),
                    alpha,
                    beta,
                    bias,
                    act,
                    i,
                    j,
                    x,
                ),
        ),
        r is Err ==> final(c.data)@ == old(c.data)@,
{
    gemm_fused_with(&Context::new(), alpha, a, b, beta, c, bias, act, par)
}

} // verus!
