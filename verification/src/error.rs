//! Why a call is refused.

use vstd::prelude::*;

verus! {

/// An operand, as an error names it.
#[derive(Clone, Copy, Debug, PartialEq, Eq, Structural)]
pub enum Operand {
    A,
    B,
    C,
    Bias,
    Scales,
}

/// Why a call is refused. Nothing has been written when one of these is returned.
#[derive(Clone, Copy, Debug, PartialEq, Eq, Structural)]
pub enum GemmError {
    /// `A.cols != B.rows`.
    InnerMismatch { a_cols: usize, b_rows: usize },
    /// `A.rows != C.rows`.
    RowsMismatch { a_rows: usize, c_rows: usize },
    /// `B.cols != C.cols`.
    ColsMismatch { b_cols: usize, c_cols: usize },
    /// A view reaches past the end of its slice.
    OutOfBounds { view: Operand, need: usize, len: usize },
    /// A view has a negative stride or is too large to address.
    Unaddressable { view: Operand },
    /// The strides of C map distinct elements to one place.
    SelfAliasing,
    /// The storage of C overlaps that of another operand.
    Aliasing { with: Operand },
    /// An internal size overflows.
    TooLarge,
    /// A batch stride is negative.
    NegativeBatchStride { view: Operand },
    /// Elements of a batch of C overlap.
    BatchOverlap { stride: usize, extent: usize },
    /// A bias or scale vector has the wrong length.
    LengthMismatch { view: Operand, want: usize, len: usize },
    /// The layout of C does not suit the prepacked operand.
    Orientation,
    /// The slope of a leaky activation is not finite.
    SlopeNotFinite,
    /// A requantization scale is not finite and positive.
    BadScale { index: usize },
    /// The zero point is outside the output's range.
    ZeroPointOutOfRange { zero_point: i32 },
}

/// How a call ends: refused by its checks, too large to run, or done.
pub open spec fn outcome(refused: Option<GemmError>, runs: bool) -> Result<(), GemmError> {
    match refused {
        Some(e) => Err(e),
        None => if runs {
            Ok(())
        } else {
            Err(GemmError::TooLarge)
        },
    }
}

/// The first of two reasons to refuse a call.
pub open spec fn first_error(first: Option<GemmError>, second: Option<GemmError>) -> Option<
    GemmError,
> {
    match first {
        Some(e) => Some(e),
        None => second,
    }
}

} // verus!
