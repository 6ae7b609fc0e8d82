//! When the checked entries refuse a call, and what the error tells of it, in the places that the
//! views address.

use vstd::arithmetic::mul::*;
use vstd::prelude::*;

use crate::adapter::{
    bias_overlap, byte_range, element_offset, extreme, is_element, is_empty,
    law_byte_range_covers_every_element, law_byte_range_is_tight, run_error, Run,
};
use crate::api::{extent_spec, gemm_views_error, self_aliases_spec, within, Geometry};
use crate::arith::{abs_int, min_int};
use crate::batched::{batched_view_error, batched_views_error};
use crate::error::{first_error, outcome, GemmError, Operand};
use crate::fused::{bias_error, fused_error, Activation, Bias, FusedScalar};
use crate::packed::Packing;
use crate::packed_gemm::{
    packed_a_error, packed_a_orientation, packed_b_error, packed_b_orientation,
};
use crate::quantize::Scale;
use crate::requant::{
    all_usable, first_unusable, requantize_error, RequantScale, Requantize,
};

verus! {

/// Where element `(i, j)` of a view lies in its slice.
pub open spec fn place(g: Geometry, i: int, j: int) -> int {
    i * g.rs + j * g.cs
}

/// Every element of a view lies in its slice.
pub open spec fn inside(g: Geometry) -> bool {
    forall|i: int, j: int|
        0 <= i < g.rows && 0 <= j < g.cols ==> 0 <= #[trigger] place(g, i, j) < g.len
}

/// A view whose dimensions and slice have lengths that a machine word can count.
pub open spec fn countable(g: Geometry) -> bool {
    &&& 0 <= g.len <= isize::MAX
    &&& g.rows <= isize::MAX
    &&& g.cols <= isize::MAX
}

/// An error that names a view of which an element lies outside its slice: `OutOfBounds` tells the
/// length of the slice, and the length that would do, which is one more than the last place.
/// `Unaddressable` tells that a place lies before the slice or beyond any slice.
pub open spec fn tells_outside(e: Option<GemmError>, view: Operand, g: Geometry) -> bool {
    match e {
        Some(GemmError::OutOfBounds { view: v, need, len }) => {
            &&& v == view
            &&& len == g.len
            &&& len < need
            &&& need == place(g, g.rows - 1, g.cols - 1) + 1
            &&& forall|i: int, j: int|
                0 <= i < g.rows && 0 <= j < g.cols ==> 0 <= #[trigger] place(g, i, j) < need
        },
        Some(GemmError::Unaddressable { view: v }) => {
            &&& v == view
            &&& exists|i: int, j: int|
                0 <= i < g.rows && 0 <= j < g.cols && (#[trigger] place(g, i, j) < 0 || place(
                    g,
                    i,
                    j,
                ) > isize::MAX)
        },
        _ => false,
    }
}

/// The elements of an output can be told apart by their strides: a stride that takes more than one
/// step is not zero, and of two such strides one clears all that the other spans.
pub open spec fn strides_clear(g: Geometry) -> bool {
    let (r, c) = (abs_int(g.rs as int), abs_int(g.cs as int));
    ||| g.rows == 0
    ||| g.cols == 0
    ||| g.rows == 1 && g.cols == 1
    ||| g.cols == 1 && r > 0
    ||| g.rows == 1 && c > 0
    ||| r > 0 && g.rows * r <= c
    ||| c > 0 && g.cols * c <= r
}

proof fn lemma_places(g: Geometry)
    requires
        countable(g),
        g.rows > 0,
        g.cols > 0,
    ensures
        place(g, g.rows - 1, 0) == (g.rows - 1) * g.rs,
        place(g, 0, g.cols - 1) == (g.cols - 1) * g.cs,
        place(g, 0, 0) == 0,
        extent_spec(g.rows, g.cols, g.rs, g.cs) matches Some(e) ==> e == place(
            g,
            g.rows - 1,
            g.cols - 1,
        ) + 1 && forall|i: int, j: int|
            0 <= i < g.rows && 0 <= j < g.cols ==> 0 <= #[trigger] place(g, i, j) < e,
        extent_spec(g.rows, g.cols, g.rs, g.cs) is None ==> place(g, g.rows - 1, 0) < 0 || place(
            g,
            0,
            g.cols - 1,
        ) < 0 || place(g, g.rows - 1, g.cols - 1) > isize::MAX,
{
    lemma_mul_basics(g.rs as int);
    lemma_mul_basics(g.cs as int);
    if extent_spec(g.rows, g.cols, g.rs, g.cs) is Some {
        assert forall|i: int, j: int| 0 <= i < g.rows && 0 <= j < g.cols implies 0
            <= #[trigger] place(g, i, j) <= place(g, g.rows - 1, g.cols - 1) by {
            lemma_steps(i, g.rows - 1, g.rs as int);
            lemma_steps(j, g.cols - 1, g.cs as int);
        }
    }
}

/// Steps that do not lead back end at the last one.
proof fn lemma_steps(i: int, last: int, s: int)
    requires
        0 <= i <= last,
        0 <= last * s,
    ensures
        0 <= i * s <= last * s,
{
    assert(0 <= i * s <= last * s) by (nonlinear_arith)
        requires
            0 <= i <= last,
            0 <= last * s,
    ;
}

/// A view is taken exactly when all its elements lie in its slice, and the error of another one
/// tells where they lie.
pub proof fn law_views_are_kept_inside(g: Geometry, view: Operand)
    requires
        countable(g),
    ensures
        g.in_bounds() <==> inside(g),
        !g.in_bounds() ==> tells_outside(Some(g.error(view)), view, g),
{
    if g.rows > 0 && g.cols > 0 {
        lemma_places(g);
        if inside(g) {
            assert(0 <= place(g, g.rows - 1, 0) < g.len);
            assert(0 <= place(g, 0, g.cols - 1) < g.len);
            assert(0 <= place(g, g.rows - 1, g.cols - 1) < g.len);
        }
    }
}

/// An output is taken to alias itself exactly when neither stride clears what the other spans.
pub proof fn law_self_aliasing_strides(g: Geometry)
    ensures
        self_aliases_spec(g.rows, g.cols, g.rs, g.cs) <==> !strides_clear(g),
{
    let (r, c) = (abs_int(g.rs as int), abs_int(g.cs as int));
    if g.rows > 1 && g.cols > 1 {
        assert(r * g.rows == g.rows * r && c * g.cols == g.cols * c) by (nonlinear_arith);
        assert(g.rows * r >= 2 * r) by (nonlinear_arith)
            requires
                g.rows > 1,
                r >= 0,
        ;
        assert(g.cols * c >= 2 * c) by (nonlinear_arith)
            requires
                g.cols > 1,
                c >= 0,
        ;
    } else {
        lemma_mul_basics(r);
        lemma_mul_basics(c);
        assert(g.rows >= 1 ==> g.rows * r >= r) by (nonlinear_arith)
            requires
                r >= 0,
        ;
        assert(g.cols >= 1 ==> g.cols * c >= c) by (nonlinear_arith)
            requires
                c >= 0,
        ;
    }
}

/// The checks of a product. It is taken exactly when the dimensions agree, every element of every
/// view lies in its slice, and the strides of C tell its elements apart. Otherwise the error tells
/// of the first of these that fails: the inner dimensions, the rows, the columns, A, B, C, the
/// strides of C.
pub proof fn law_gemm_refusals(a: Geometry, b: Geometry, c: Geometry)
    requires
        countable(a),
        countable(b),
        countable(c),
    ensures
        ({
            let e = gemm_views_error(a, b, c);
            let agree = a.cols == b.rows && a.rows == c.rows && b.cols == c.cols;
            &&& e is None <==> agree && inside(a) && inside(b) && inside(c) && strides_clear(c)
            &&& a.cols != b.rows ==> e == Some(
                GemmError::InnerMismatch { a_cols: a.cols, b_rows: b.rows },
            )
            &&& a.cols == b.rows && a.rows != c.rows ==> e == Some(
                GemmError::RowsMismatch { a_rows: a.rows, c_rows: c.rows },
            )
            &&& a.cols == b.rows && a.rows == c.rows && b.cols != c.cols ==> e == Some(
                GemmError::ColsMismatch { b_cols: b.cols, c_cols: c.cols },
            )
            &&& agree && !inside(a) ==> tells_outside(e, Operand::A, a)
            &&& agree && inside(a) && !inside(b) ==> tells_outside(e, Operand::B, b)
            &&& agree && inside(a) && inside(b) && !inside(c) ==> tells_outside(e, Operand::C, c)
            &&& agree && inside(a) && inside(b) && inside(c) && !strides_clear(c) ==> e == Some(
                GemmError::SelfAliasing,
            )
        }),
{
    law_views_are_kept_inside(a, Operand::A);
    law_views_are_kept_inside(b, Operand::B);
    law_views_are_kept_inside(c, Operand::C);
    law_self_aliasing_strides(c);
}

/// The checks of a product with a prepacked B of `g.k` rows and `g.n` columns: those of a plain
/// product, of which B needs none, with the columns looked at before the rows.
pub proof fn law_packed_b_refusals(a: Geometry, g: Packing, c: Geometry)
    requires
        countable(a),
        countable(c),
    ensures
        ({
            let e = packed_b_error(a, g, c);
            let agree = a.cols == g.k && a.rows == c.rows && g.n == c.cols;
            &&& e is None <==> agree && inside(a) && inside(c) && strides_clear(c)
            &&& a.cols != g.k ==> e == Some(
                GemmError::InnerMismatch { a_cols: a.cols, b_rows: g.k },
            )
            &&& a.cols == g.k && g.n != c.cols ==> e == Some(
                GemmError::ColsMismatch { b_cols: g.n, c_cols: c.cols },
            )
            &&& a.cols == g.k && g.n == c.cols && a.rows != c.rows ==> e == Some(
                GemmError::RowsMismatch { a_rows: a.rows, c_rows: c.rows },
            )
            &&& agree && !inside(a) ==> tells_outside(e, Operand::A, a)
            &&& agree && inside(a) && !inside(c) ==> tells_outside(e, Operand::C, c)
            &&& agree && inside(a) && inside(c) && !strides_clear(c) ==> e == Some(
                GemmError::SelfAliasing,
            )
        }),
{
    law_views_are_kept_inside(a, Operand::A);
    law_views_are_kept_inside(c, Operand::C);
    law_self_aliasing_strides(c);
}

/// The checks of a product with a prepacked A of `g.n` rows and `g.k` columns.
pub proof fn law_packed_a_refusals(g: Packing, b: Geometry, c: Geometry)
    requires
        countable(b),
        countable(c),
    ensures
        ({
            let e = packed_a_error(g, b, c);
            let agree = g.k == b.rows && g.n == c.rows && b.cols == c.cols;
            &&& e is None <==> agree && inside(b) && inside(c) && strides_clear(c)
            &&& g.k != b.rows ==> e == Some(
                GemmError::InnerMismatch { a_cols: g.k, b_rows: b.rows },
            )
            &&& g.k == b.rows && g.n != c.rows ==> e == Some(
                GemmError::RowsMismatch { a_rows: g.n, c_rows: c.rows },
            )
            &&& g.k == b.rows && g.n == c.rows && b.cols != c.cols ==> e == Some(
                GemmError::ColsMismatch { b_cols: b.cols, c_cols: c.cols },
            )
            &&& agree && !inside(b) ==> tells_outside(e, Operand::B, b)
            &&& agree && inside(b) && !inside(c) ==> tells_outside(e, Operand::C, c)
            &&& agree && inside(b) && inside(c) && !strides_clear(c) ==> e == Some(
                GemmError::SelfAliasing,
            )
        }),
{
    law_views_are_kept_inside(b, Operand::B);
    law_views_are_kept_inside(c, Operand::C);
    law_self_aliasing_strides(c);
}

/// A prepacked operand takes one of the two orientations of C, and both take a C whose strides
/// have one size. What one refuses, the other takes.
pub proof fn law_orientations(rs: isize, cs: isize)
    ensures
        packed_b_orientation(rs, cs) is None || packed_a_orientation(rs, cs) is None,
        packed_b_orientation(rs, cs) == packed_a_orientation(cs, rs),
        abs_int(rs as int) < abs_int(cs as int) ==> packed_b_orientation(rs, cs) is None
            && packed_a_orientation(rs, cs) == Some(GemmError::Orientation),
        abs_int(rs as int) == abs_int(cs as int) ==> packed_b_orientation(rs, cs) is None,
{
}

/// A bias is taken exactly when it holds one value per row, or per column, of the output.
pub proof fn law_bias_refusals<'a, T>(s: &'a [T], m: usize, n: usize)
    ensures
        bias_error(None::<Bias<'a, T>>, m, n) is None,
        bias_error(Some(Bias::PerRow(s)), m, n) == (if s@.len() == m {
            None
        } else {
            Some(
                GemmError::LengthMismatch {
                    view: Operand::Bias,
                    want: m,
                    len: s@.len() as usize,
                },
            )
        }),
        bias_error(Some(Bias::PerCol(s)), m, n) == bias_error(Some(Bias::PerRow(s)), n, m),
{
}

/// An epilogue is taken exactly when its bias is taken and its slope, where it has one, is finite.
/// The bias is looked at first.
pub proof fn law_fused_refusals<'a, T: FusedScalar>(
    bias: Option<Bias<'a, T>>,
    act: Option<Activation<T>>,
    slope: T,
    m: usize,
    n: usize,
)
    ensures
        fused_error(bias, None, m, n) == bias_error(bias, m, n),
        fused_error(bias, Some(Activation::Relu), m, n) == bias_error(bias, m, n),
        bias_error(bias, m, n) is Some ==> fused_error(bias, act, m, n) == bias_error(bias, m, n),
        bias_error(bias, m, n) is None ==> fused_error(
            bias,
            Some(Activation::LeakyRelu(slope)),
            m,
            n,
        ) == (if slope.finite_spec() {
            None
        } else {
            Some(GemmError::SlopeNotFinite)
        }),
{
}

/// Where element `(i, j)` of entry `e` of a batch lies.
pub open spec fn batch_place(g: Geometry, stride: int, e: int, i: int, j: int) -> int {
    e * stride + i * g.rs + j * g.cs
}

/// Every element of every entry of a batch lies in the slice.
pub open spec fn batch_inside(g: Geometry, batch: int, stride: int) -> bool {
    forall|e: int, i: int, j: int|
        0 <= e < batch && 0 <= i < g.rows && 0 <= j < g.cols ==> 0 <= #[trigger] batch_place(
            g,
            stride,
            e,
            i,
            j,
        ) < g.len
}

/// A batched view that is not empty is taken exactly when every element of every entry lies in its
/// slice. The error of another one names the view: an entry that cannot be addressed comes before
/// a stride that leads back, and that before the slice, of which the error tells the length.
pub proof fn law_batched_views_are_kept_inside(
    g: Geometry,
    batch: usize,
    stride: isize,
    view: Operand,
)
    requires
        countable(g),
        batch > 0,
        g.rows > 0,
        g.cols > 0,
    ensures
        ({
            let e = batched_view_error(g, batch, stride, view);
            let last = place(g, g.rows - 1, g.cols - 1);
            &&& e is None <==> batch_inside(g, batch as int, stride as int)
            &&& e matches Some(GemmError::Unaddressable { view: v }) ==> tells_outside(e, view, g)
            &&& e matches Some(GemmError::NegativeBatchStride { view: v }) ==> v == view && stride
                < 0 && batch > 1
            &&& e matches Some(GemmError::OutOfBounds { view: v, need, len }) ==> {
                &&& v == view
                &&& len == g.len
                &&& len < need
                &&& batch > 1 ==> stride >= 0
                &&& need == min_int((batch - 1) * stride + last + 1, usize::MAX as int)
            }
            &&& (batch > 1 && stride < 0 && forall|i: int, j: int|
                0 <= i < g.rows && 0 <= j < g.cols ==> 0 <= #[trigger] place(g, i, j)
                    <= isize::MAX) ==> e == Some(GemmError::NegativeBatchStride { view })
            &&& e is Some ==> e matches Some(GemmError::Unaddressable { .. }) || e matches Some(
                GemmError::NegativeBatchStride { .. },
            ) || e matches Some(GemmError::OutOfBounds { .. })
        }),
{
    lemma_places(g);
    let s = stride as int;
    let last = place(g, g.rows - 1, g.cols - 1);
    let e = batched_view_error(g, batch, stride, view);
    lemma_mul_basics(s);
    lemma_mul_basics(g.rs as int);
    lemma_mul_basics(g.cs as int);
    let x = extent_spec(g.rows, g.cols, g.rs, g.cs);
    if forall|i: int, j: int|
        0 <= i < g.rows && 0 <= j < g.cols ==> 0 <= #[trigger] place(g, i, j) <= isize::MAX {
        assert(0 <= place(g, g.rows - 1, 0) && 0 <= place(g, 0, g.cols - 1));
        assert(place(g, g.rows - 1, g.cols - 1) <= isize::MAX);
    }
    if e is None {
        assert forall|q: int, i: int, j: int|
            0 <= q < batch && 0 <= i < g.rows && 0 <= j < g.cols implies 0
            <= #[trigger] batch_place(g, s, q, i, j) < g.len by {
            assert(0 <= place(g, i, j) < x->0);
            if batch > 1 {
                lemma_nonneg(batch - 1, s);
                lemma_steps(q, batch - 1, s);
            }
        }
    } else if batch_inside(g, batch as int, s) {
        assert(0 <= batch_place(g, s, 0, g.rows - 1, 0) < g.len);
        assert(0 <= batch_place(g, s, 0, 0, g.cols - 1) < g.len);
        assert(0 <= batch_place(g, s, 0, g.rows - 1, g.cols - 1) < g.len);
        assert(0 <= batch_place(g, s, batch - 1, g.rows - 1, g.cols - 1) < g.len);
        assert(x is Some);
        if batch > 1 {
            assert(0 <= batch_place(g, s, 1, 0, 0) < g.len);
        }
        assert(false);
    }
}

proof fn lemma_nonneg(a: int, b: int)
    requires
        a >= 0,
        b >= 0,
    ensures
        a * b >= 0,
{
    assert(a * b >= 0) by (nonlinear_arith)
        requires
            a >= 0,
            b >= 0,
    ;
}

/// An empty batched view needs room for its strides alone.
pub proof fn law_empty_batched_views(g: Geometry, batch: usize, stride: isize, view: Operand)
    requires
        countable(g),
        g.rows == 0 || g.cols == 0,
    ensures
        batched_view_error(g, batch, stride, view) is None <==> batch <= 1 || (stride >= 0 && (batch
            - 1) * stride <= g.len),
        batch > 1 && stride < 0 ==> batched_view_error(g, batch, stride, view) == Some(
            GemmError::NegativeBatchStride { view },
        ),
{
}

/// The checks of a batch whose views are not empty: it is taken exactly when the dimensions agree,
/// every element of every entry lies in its slice, the strides of C tell the elements of an entry
/// apart, and an entry of C ends before the next one begins.
pub proof fn law_batched_refusals(
    batch: usize,
    a: Geometry,
    a_stride: isize,
    b: Geometry,
    b_stride: isize,
    c: Geometry,
    c_stride: isize,
)
    requires
        countable(a),
        countable(b),
        countable(c),
        batch > 0,
        a.rows > 0,
        a.cols > 0,
        b.cols > 0,
    ensures
        ({
            let e = batched_views_error(batch, a, a_stride, b, b_stride, c, c_stride);
            let agree = a.cols == b.rows && a.rows == c.rows && b.cols == c.cols;
            let (ia, ib, ic) = (
                batch_inside(a, batch as int, a_stride as int),
                batch_inside(b, batch as int, b_stride as int),
                batch_inside(c, batch as int, c_stride as int),
            );
            let apart = batch > 1 ==> place(c, c.rows - 1, c.cols - 1) < c_stride;
            &&& e is None <==> agree && ia && ib && ic && strides_clear(c) && apart
            &&& a.cols != b.rows ==> e == Some(
                GemmError::InnerMismatch { a_cols: a.cols, b_rows: b.rows },
            )
            &&& a.cols == b.rows && a.rows != c.rows ==> e == Some(
                GemmError::RowsMismatch { a_rows: a.rows, c_rows: c.rows },
            )
            &&& a.cols == b.rows && a.rows == c.rows && b.cols != c.cols ==> e == Some(
                GemmError::ColsMismatch { b_cols: b.cols, c_cols: c.cols },
            )
            &&& agree && !ia ==> e == batched_view_error(a, batch, a_stride, Operand::A)
            &&& agree && ia && !ib ==> e == batched_view_error(b, batch, b_stride, Operand::B)
            &&& agree && ia && ib && !ic ==> e == batched_view_error(
                c,
                batch,
                c_stride,
                Operand::C,
            )
            &&& agree && ia && ib && ic && !strides_clear(c) ==> e == Some(GemmError::SelfAliasing)
            &&& agree && ia && ib && ic && strides_clear(c) && !apart ==> (e matches Some(
                GemmError::BatchOverlap { stride, extent },
            ) && stride == c_stride && extent == place(c, c.rows - 1, c.cols - 1) + 1)
        }),
{
    let agree = a.cols == b.rows && a.rows == c.rows && b.cols == c.cols;
    if agree {
        law_batched_views_are_kept_inside(a, batch, a_stride, Operand::A);
        law_batched_views_are_kept_inside(b, batch, b_stride, Operand::B);
        law_batched_views_are_kept_inside(c, batch, c_stride, Operand::C);
        law_self_aliasing_strides(c);
        lemma_places(c);
    }
}

/// The parameters of a requantizing product are taken exactly when every scale is a positive
/// finite number and there is one, or one per row, the zero point is a value of the output type,
/// and a bias has one value per row. A scale that will not do is named by its index, and none
/// before it is refused. The scales come before the zero point, and that before the bias.
pub proof fn law_requantize_refusals<'a>(rows: usize, req: Requantize<'a>, signed: bool)
    ensures
        ({
            let e = if signed {
                requantize_error::<i8>(rows, req)
            } else {
                requantize_error::<u8>(rows, req)
            };
            let scales = match req.scale {
                RequantScale::PerTensor(s) => s.usable(),
                RequantScale::PerRow(s) => s@.len() == rows && forall|i: int|
                    0 <= i < rows ==> (#[trigger] s@[i]).usable(),
            };
            let zero = if signed {
                -128 <= req.zero_point <= 127
            } else {
                0 <= req.zero_point <= 255
            };
            let bias = match req.bias {
                Some(b) => b@.len() == rows,
                None => true,
            };
            &&& e is None <==> scales && zero && bias
            &&& scales && !zero ==> e == Some(
                GemmError::ZeroPointOutOfRange { zero_point: req.zero_point },
            )
            &&& scales && zero && !bias ==> e == Some(
                GemmError::LengthMismatch {
                    view: Operand::Bias,
                    want: rows,
                    len: req.bias->0@.len() as usize,
                },
            )
            &&& (!scales && req.scale is PerTensor) ==> e == Some(GemmError::BadScale { index: 0 })
            &&& req.scale matches RequantScale::PerRow(s) ==> {
                &&& s@.len() != rows ==> e == Some(
                    GemmError::LengthMismatch {
                        view: Operand::Scales,
                        want: rows,
                        len: s@.len() as usize,
                    },
                )
                &&& !scales && s@.len() == rows ==> (e matches Some(GemmError::BadScale { index })
                    && index < rows && !s@[index as int].usable() && forall|i: int|
                    0 <= i < index ==> (#[trigger] s@[i]).usable())
            }
        }),
{
    if let RequantScale::PerRow(s) = req.scale {
        if s@.len() == rows && !all_usable(s@, s@.len() as int) {
            let at = lemma_first_unusable_found(s@, 0);
        }
    }
}

/// The search for a scale that will not do finds the first one.
proof fn lemma_first_unusable_found(s: Seq<Scale>, from: int) -> (at: int)
    requires
        0 <= from <= s.len(),
    ensures
        at == first_unusable(s, from),
        from <= at <= s.len(),
        at < s.len() ==> !s[at].usable(),
        forall|i: int| from <= i < at ==> (#[trigger] s[i]).usable(),
    decreases s.len() - from,
{
    if from < s.len() && s[from].usable() {
        let at = lemma_first_unusable_found(s, from + 1);
        at
    } else {
        from
    }
}

/// A run of values is found to overlap an output exactly when a byte of the run lies between the
/// first and the last byte that the output touches. A run that is found clear shares no byte with
/// any element.
pub proof fn law_overlap_is_found(
    base: usize,
    size: usize,
    dims: Seq<(usize, isize)>,
    addr: usize,
    width: usize,
    len: usize,
    at: Seq<int>,
    t: int,
)
    requires
        size > 0,
        width > 0,
        is_element(dims, at),
        0 <= t < len,
    ensures
        ({
            let n = dims.len() as int;
            let lowest = base + size * element_offset(dims, extreme(dims, false), n);
            let highest = base + size * element_offset(dims, extreme(dims, true), n) + size;
            bias_overlap(base, size, dims, addr, width, len) <==> exists|x: int|
                #[trigger] within(x, lowest, highest) && within(x, addr as int, addr + len * width)
        }),
        !bias_overlap(base, size, dims, addr, width, len) ==> ({
            let first = base + size * element_offset(dims, at, dims.len() as int);
            let value = addr + t * width;
            first + size <= value || value + width <= first
        }),
{
    let n = dims.len() as int;
    assert(!is_empty(dims)) by {
        if is_empty(dims) {
            let k = choose|k: int| 0 <= k < dims.len() && (#[trigger] dims[k]).0 == 0;
            assert(0 <= at[k] < dims[k].0);
        }
    }
    law_byte_range_is_tight(base, size, dims);
    law_byte_range_covers_every_element(base, size, dims, at);
    let (lo, hi) = byte_range(base, size, dims);
    let end = addr + len * width;
    assert(0 <= t * width && t * width + width <= len * width) by (nonlinear_arith)
        requires
            0 <= t,
            t + 1 <= len,
            width > 0,
    ;
    assert(lo < hi && addr < end);
    if lo < end && addr < hi {
        let x = if lo < addr {
            addr as int
        } else {
            lo
        };
        assert(within(x, lo, hi) && within(x, addr as int, end));
    }
}

/// An output without elements and a run without values overlap nothing.
pub proof fn law_nothing_overlaps_nothing(
    base: usize,
    size: usize,
    dims: Seq<(usize, isize)>,
    addr: usize,
    width: usize,
    len: usize,
    k: int,
)
    requires
        len == 0 || (0 <= k < dims.len() && dims[k].0 == 0),
    ensures
        !bias_overlap(base, size, dims, addr, width, len),
{
}

/// A vector of an output is refused for its length first, then for an overlap.
pub proof fn law_run_refusals(
    view: Operand,
    run: Run,
    width: usize,
    want: usize,
    base: usize,
    size: usize,
    dims: Seq<(usize, isize)>,
)
    ensures
        ({
            let e = run_error(view, run, width, want, base, size, dims);
            &&& run.len != want <==> e == Some(
                GemmError::LengthMismatch { view, want, len: run.len },
            )
            &&& e == Some(GemmError::Aliasing { with: view }) <==> run.len == want && bias_overlap(
                base,
                size,
                dims,
                run.addr,
                width,
                run.len,
            )
            &&& e is None <==> run.len == want && !bias_overlap(
                base,
                size,
                dims,
                run.addr,
                width,
                want,
            )
        }),
{
}

/// How a call ends: with the error of its checks, if they have one; otherwise it is done, or too
/// large to run. Of two errors the first is reported.
pub proof fn law_outcomes(e: GemmError, second: Option<GemmError>, runs: bool)
    ensures
        outcome(Some(e), runs) == Err::<(), GemmError>(e),
        outcome(None, runs) == (if runs {
            Ok::<(), GemmError>(())
        } else {
            Err(GemmError::TooLarge)
        }),
        first_error(Some(e), second) == Some(e),
        first_error(None, second) == second,
{
}

} // verus!
