//! What several calls have to do with each other.
//!
//! What a call leaves in the slice of C is taken from its contract, so each law here speaks of any
//! calls that ended well, whatever their parallelism was.

use vstd::prelude::*;

use crate::api::MatRef;
use crate::batched::Batch;
use crate::dispatch::{written, Operands};
use crate::element::GemmScalar;
use crate::fused::{
    fused_element, fused_epi_spec, law_fused_is_gemm_then_map, pre_epilogue, Activation, Bias,
    FusedScalar,
};
use crate::gemm::operands_of;
use crate::gemm_i8::int_element;
use crate::homog::gemm_element;
use crate::laws::{law_gemm_beta_zero_does_not_read_c, law_position_does_not_show, rebased};
use crate::layout::Layout;
use crate::map::MapScalar;
use crate::packed_gemm::{
    int_packed_element, law_int_prepacked_equals_plain, law_packed_fused_is_packed_then_map,
    law_prepacked_a_reproduces_gemm, law_prepacked_b_reproduces_gemm, packed_a_request,
    packed_b_request, same_sums, PackedConsume,
};
use crate::parallel::Context;
use crate::prepack::{rhs_geometry, PackedRhs};
use crate::scalar::Scalar;

verus! {

/// What a plain product leaves of `before`.
pub open spec fn gemm_leaves<'a, T: GemmScalar>(
    ctx: Context,
    o: Operands<'a, T>,
    alpha: T,
    beta: T,
    before: Seq<T>,
    after: Seq<T>,
) -> bool {
    written(
        before,
        after,
        o.lc,
        o.m as int,
        o.n as int,
        |i: int, j: int, x: T, y: T| y == gemm_element(ctx, o, alpha, beta, i, j, x),
    )
}

/// What a fused product leaves of `before`.
pub open spec fn fused_leaves<'a, T: FusedScalar>(
    ctx: Context,
    o: Operands<'a, T>,
    alpha: T,
    beta: T,
    bias: Option<Bias<'a, T>>,
    act: Option<Activation<T>>,
    before: Seq<T>,
    after: Seq<T>,
) -> bool {
    written(
        before,
        after,
        o.lc,
        o.m as int,
        o.n as int,
        |i: int, j: int, x: T, y: T|
            y == fused_element(ctx, o, alpha, beta, bias, act, i, j, x),
    )
}

/// What a product with a function of the caller's leaves of `before`.
pub open spec fn map_leaves<'a, T: MapScalar, F: Fn(T, usize, usize) -> T>(
    ctx: Context,
    o: Operands<'a, T>,
    alpha: T,
    beta: T,
    f: F,
    before: Seq<T>,
    after: Seq<T>,
) -> bool {
    written(
        before,
        after,
        o.lc,
        o.m as int,
        o.n as int,
        |i: int, j: int, x: T, y: T|
            f.ensures(
                (gemm_element(ctx, o, alpha, beta, i, j, x), i as usize, j as usize),
                y,
            ),
    )
}

/// What a batch leaves of `before`.
pub open spec fn batch_leaves<'a, T: GemmScalar>(
    ctx: Context,
    b: Batch<'a, T>,
    alpha: T,
    beta: T,
    before: Seq<T>,
    after: Seq<T>,
) -> bool {
    b.written(
        before,
        after,
        |e: int, i: int, j: int, x: T, y: T|
            y == gemm_element(ctx, b.at(e), alpha, beta, i, j, x),
    )
}

/// What an integer product leaves of `before`.
pub open spec fn int_leaves<'a>(
    o: Operands<'a, i8>,
    alpha: i32,
    beta: i32,
    before: Seq<i32>,
    after: Seq<i32>,
) -> bool {
    written(
        before,
        after,
        o.lc,
        o.m as int,
        o.n as int,
        |i: int, j: int, x: i32, y: i32| y == int_element(o, alpha, beta, i, j, x),
    )
}

/// What an integer product with a prepacked `B` leaves of `before`.
pub open spec fn int_packed_leaves<'a>(
    a: MatRef<'a, i8>,
    packed: PackedRhs<i8>,
    lc: Layout,
    alpha: i32,
    beta: i32,
    before: Seq<i32>,
    after: Seq<i32>,
) -> bool {
    written(
        before,
        after,
        lc,
        a.rows as int,
        packed.geometry().n as int,
        |i: int, j: int, x: i32, y: i32|
            y == int_packed_element(a.data@, a.layout_spec(), packed, alpha, beta, i, j, x),
    )
}

/// What a product with a prepacked `B` leaves of `before`.
pub open spec fn packed_b_leaves<'a, T: GemmScalar>(
    ctx: Context,
    req: PackedConsume<'a, T>,
    before: Seq<T>,
    after: Seq<T>,
) -> bool {
    written(
        before,
        after,
        req.lc,
        req.m as int,
        req.packed.geometry().n as int,
        |i: int, j: int, x: T, y: T| y == req.element(ctx, i, j, x),
    )
}

/// What a product with a prepacked `A` leaves of `before`, where `lc` is the layout of C. The
/// request is that of the transposed product.
pub open spec fn packed_a_leaves<'a, T: GemmScalar>(
    ctx: Context,
    req: PackedConsume<'a, T>,
    lc: Layout,
    before: Seq<T>,
    after: Seq<T>,
) -> bool {
    written(
        before,
        after,
        lc,
        req.packed.geometry().n as int,
        req.m as int,
        |i: int, j: int, x: T, y: T| y == req.element(ctx, j, i, x),
    )
}

/// What a fused product with a prepacked `B` leaves of `before`.
pub open spec fn packed_b_fused_leaves<'a, T: FusedScalar>(
    ctx: Context,
    req: PackedConsume<'a, T>,
    bias: Option<Bias<'a, T>>,
    act: Option<Activation<T>>,
    before: Seq<T>,
    after: Seq<T>,
) -> bool {
    written(
        before,
        after,
        req.lc,
        req.m as int,
        req.packed.geometry().n as int,
        |i: int, j: int, x: T, y: T|
            y == req.fused_element(ctx, fused_epi_spec(bias, act), i, j, x, i, j),
    )
}

/// What a fused product with a prepacked `A` leaves of `before`; see [`packed_a_leaves`].
pub open spec fn packed_a_fused_leaves<'a, T: FusedScalar>(
    ctx: Context,
    req: PackedConsume<'a, T>,
    lc: Layout,
    bias: Option<Bias<'a, T>>,
    act: Option<Activation<T>>,
    before: Seq<T>,
    after: Seq<T>,
) -> bool {
    written(
        before,
        after,
        lc,
        req.packed.geometry().n as int,
        req.m as int,
        |i: int, j: int, x: T, y: T|
            y == req.fused_element(ctx, fused_epi_spec(bias, act), j, i, x, i, j),
    )
}

/// Two products of the same shape and layout over slices of the same contents.
pub open spec fn alike<'a, 'b, T>(o: Operands<'a, T>, q: Operands<'b, T>) -> bool {
    &&& o.m == q.m
    &&& o.k == q.k
    &&& o.n == q.n
    &&& o.la == q.la
    &&& o.lb == q.lb
    &&& o.lc == q.lc
    &&& o.a@ == q.a@
    &&& o.b@ == q.b@
}

/// The contents of its slices are all that a product knows of them.
proof fn lemma_alike<'a, 'b, T>(o: Operands<'a, T>, q: Operands<'b, T>)
    requires
        alike(o, q),
    ensures
        o == q,
{
    assert(o.a =~= q.a);
    assert(o.b =~= q.b);
}

/// Two outputs of one layout that agree on every element of the view, and are elsewhere what they
/// were, are the same.
proof fn lemma_same_slices<O>(
    before: Seq<O>,
    one: Seq<O>,
    two: Seq<O>,
    lc: Layout,
    m: int,
    n: int,
    ok1: spec_fn(int, int, O, O) -> bool,
    ok2: spec_fn(int, int, O, O) -> bool,
)
    requires
        written(before, one, lc, m, n, ok1),
        written(before, two, lc, m, n, ok2),
        forall|i: int, j: int|
            0 <= i < m && 0 <= j < n ==> one[#[trigger] lc.idx(i, j)] == two[lc.idx(i, j)],
    ensures
        one == two,
{
    assert forall|x: int| 0 <= x < before.len() implies one[x] == two[x] by {
        if lc.covers(m, n, x) {
            let (i, j) = choose|i: int, j: int|
                0 <= i < m && 0 <= j < n && #[trigger] lc.idx(i, j) == x;
            assert(one[lc.idx(i, j)] == two[lc.idx(i, j)]);
        } else {
            assert(one[x] == before[x]);
            assert(two[x] == before[x]);
        }
    }
    assert(one =~= two);
}

/// How many workers are on offer does not show in an element.
proof fn lemma_workers_do_not_show<'a, T: GemmScalar>(
    ctx: Context,
    workers: usize,
    o: Operands<'a, T>,
    alpha: T,
    beta: T,
    i: int,
    j: int,
    old: T,
)
    ensures
        gemm_element((Context { workers, ..ctx }), o, alpha, beta, i, j, old) == gemm_element(
            ctx,
            o,
            alpha,
            beta,
            i,
            j,
            old,
        ),
{
}

/// Results are reproducible: two calls with the same contents, layouts, scales, knobs, kernels and
/// machine leave the same C, bit for bit, from run to run and whatever the parallelism of each and
/// the number of workers on offer.
pub proof fn law_gemm_is_reproducible<'a, 'b, T: GemmScalar>(
    ctx: Context,
    workers: usize,
    o: Operands<'a, T>,
    q: Operands<'b, T>,
    alpha: T,
    beta: T,
    before: Seq<T>,
    one: Seq<T>,
    two: Seq<T>,
)
    requires
        alike(o, q),
        gemm_leaves(ctx, o, alpha, beta, before, one),
        gemm_leaves((Context { workers, ..ctx }), q, alpha, beta, before, two),
    ensures
        one == two,
{
    lemma_alike(o, q);
    let c2 = Context { workers, ..ctx };
    assert forall|i: int, j: int| 0 <= i < o.m && 0 <= j < o.n implies one[#[trigger] o.lc.idx(
        i,
        j,
    )] == two[o.lc.idx(i, j)] by {
        lemma_workers_do_not_show(ctx, workers, o, alpha, beta, i, j, before[o.lc.idx(i, j)]);
    }
    lemma_same_slices(
        before,
        one,
        two,
        o.lc,
        o.m as int,
        o.n as int,
        |i: int, j: int, x: T, y: T| y == gemm_element(ctx, o, alpha, beta, i, j, x),
        |i: int, j: int, x: T, y: T| y == gemm_element(c2, q, alpha, beta, i, j, x),
    );
}

/// With a zero `beta` two calls that differ only in what C held leave the same elements: nothing
/// of the old C, such as what is not a number, reaches the result.
pub proof fn law_gemm_calls_with_zero_beta<'a, 'b, T: GemmScalar>(
    ctx: Context,
    o: Operands<'a, T>,
    q: Operands<'b, T>,
    alpha: T,
    beta: T,
    before1: Seq<T>,
    after1: Seq<T>,
    before2: Seq<T>,
    after2: Seq<T>,
)
    requires
        alike(o, q),
        beta.is_zero_spec(),
        gemm_leaves(ctx, o, alpha, beta, before1, after1),
        gemm_leaves(ctx, q, alpha, beta, before2, after2),
    ensures
        forall|i: int, j: int|
            0 <= i < o.m && 0 <= j < o.n ==> after1[#[trigger] o.lc.idx(i, j)]
                == after2[o.lc.idx(i, j)],
{
    lemma_alike(o, q);
    assert forall|i: int, j: int| 0 <= i < o.m && 0 <= j < o.n implies after1[#[trigger] o.lc.idx(
        i,
        j,
    )] == after2[o.lc.idx(i, j)] by {
        let at = o.lc.idx(i, j);
        law_gemm_beta_zero_does_not_read_c(
            ctx,
            o,
            alpha,
            beta,
            i,
            j,
            before1[at],
            before2[at],
        );
    }
}

/// A batch is a loop of products: element `e` ends up with what a call of its own leaves over
/// slices that begin at the element, and what lies in no element is as it was.
pub proof fn law_batch_is_a_loop_of_products<'a, 'b, T: GemmScalar>(
    ctx: Context,
    b: Batch<'a, T>,
    e: int,
    q: Operands<'b, T>,
    alpha: T,
    beta: T,
    before: Seq<T>,
    after: Seq<T>,
    own: Seq<T>,
)
    requires
        0 <= e < b.batch,
        b.at(e).lc.off <= before.len(),
        rebased(b.at(e), q),
        q.valid(before.len() - b.at(e).lc.off),
        batch_leaves(ctx, b, alpha, beta, before, after),
        gemm_leaves(ctx, q, alpha, beta, before.skip(b.at(e).lc.off as int), own),
    ensures
        forall|i: int, j: int|
            0 <= i < q.m && 0 <= j < q.n ==> own[#[trigger] q.lc.idx(i, j)]
                == after[b.at(e).lc.idx(i, j)],
        forall|x: int| 0 <= x < after.len() && !b.covers(x) ==> #[trigger] after[x] == before[x],
{
    let o = b.at(e);
    assert forall|i: int, j: int| 0 <= i < q.m && 0 <= j < q.n implies own[#[trigger] q.lc.idx(
        i,
        j,
    )] == after[o.lc.idx(i, j)] by {
        let old = before[o.lc.idx(i, j)];
        assert(0 <= q.lc.idx(i, j) < before.len() - o.lc.off);
        assert(o.lc.idx(i, j) == o.lc.off + q.lc.idx(i, j)) by {
            reveal(Layout::idx);
        }
        law_position_does_not_show(ctx, o, q, alpha, beta, i, j, old);
        assert(after[b.at(e).lc.idx(i, j)] == gemm_element(ctx, o, alpha, beta, i, j, old));
    }
}

/// A fused product is the plain product followed by the bias and the activation, bit for bit and
/// for every shape and layout, of a type that holds its accumulator exactly. Without a bias and an
/// activation it is the plain product.
pub proof fn law_fused_call_is_gemm_then_map<'a, T: FusedScalar>(
    ctx: Context,
    o: Operands<'a, T>,
    alpha: T,
    beta: T,
    bias: Option<Bias<'a, T>>,
    act: Option<Activation<T>>,
    before: Seq<T>,
    plain: Seq<T>,
    fused: Seq<T>,
)
    requires
        gemm_leaves(ctx, o, alpha, beta, before, plain),
        fused_leaves(ctx, o, alpha, beta, bias, act, before, fused),
    ensures
        T::out_is_acc_spec() ==> forall|i: int, j: int|
            0 <= i < o.m && 0 <= j < o.n ==> fused[#[trigger] o.lc.idx(i, j)] == fused_epi_spec(
                bias,
                act,
            ).value(plain[o.lc.idx(i, j)].widen_spec(), i, j),
        bias is None && act is None ==> fused == plain,
{
    assert forall|i: int, j: int|
        T::out_is_acc_spec() && 0 <= i < o.m && 0 <= j < o.n implies fused[#[trigger] o.lc.idx(
        i,
        j,
    )] == fused_epi_spec(bias, act).value(plain[o.lc.idx(i, j)].widen_spec(), i, j) by {
        law_fused_is_gemm_then_map(
            ctx,
            o,
            alpha,
            beta,
            bias,
            act,
            i,
            j,
            before[o.lc.idx(i, j)],
        );
    }
    if bias is None && act is None {
        lemma_same_slices(
            before,
            fused,
            plain,
            o.lc,
            o.m as int,
            o.n as int,
            |i: int, j: int, x: T, y: T|
                y == fused_element(ctx, o, alpha, beta, bias, act, i, j, x),
            |i: int, j: int, x: T, y: T| y == gemm_element(ctx, o, alpha, beta, i, j, x),
        );
    }
}

/// A bias by rows is added at the caller's row, and one by columns at the caller's column, however
/// C is laid out. The sum is formed in the accumulator and rounded to the element type once.
pub proof fn law_bias_is_added_before_the_one_rounding<'a, T: FusedScalar>(
    ctx: Context,
    o: Operands<'a, T>,
    alpha: T,
    beta: T,
    s: &'a [T],
    before: Seq<T>,
    after: Seq<T>,
)
    ensures
        fused_leaves(ctx, o, alpha, beta, Some(Bias::PerRow(s)), None, before, after) ==> forall|
            i: int,
            j: int,
        |
            0 <= i < o.m && 0 <= j < o.n ==> after[#[trigger] o.lc.idx(i, j)] == T::narrow_spec(
                pre_epilogue(ctx, o, alpha, beta, i, j, before[o.lc.idx(i, j)]).plus_spec(
                    s@[i].widen_spec(),
                ),
            ),
        fused_leaves(ctx, o, alpha, beta, Some(Bias::PerCol(s)), None, before, after) ==> forall|
            i: int,
            j: int,
        |
            0 <= i < o.m && 0 <= j < o.n ==> after[#[trigger] o.lc.idx(i, j)] == T::narrow_spec(
                pre_epilogue(ctx, o, alpha, beta, i, j, before[o.lc.idx(i, j)]).plus_spec(
                    s@[j].widen_spec(),
                ),
            ),
{
}

/// Fused results are reproducible as plain ones are; see [`law_gemm_is_reproducible`].
pub proof fn law_fused_is_reproducible<'a, 'b, T: FusedScalar>(
    ctx: Context,
    o: Operands<'a, T>,
    q: Operands<'b, T>,
    alpha: T,
    beta: T,
    bias: Option<Bias<'a, T>>,
    act: Option<Activation<T>>,
    before: Seq<T>,
    one: Seq<T>,
    two: Seq<T>,
)
    requires
        alike(o, q),
        fused_leaves(ctx, o, alpha, beta, bias, act, before, one),
        fused_leaves(ctx, q, alpha, beta, bias, act, before, two),
    ensures
        one == two,
{
    lemma_alike(o, q);
    let ok = |i: int, j: int, x: T, y: T|
        y == fused_element(ctx, o, alpha, beta, bias, act, i, j, x);
    lemma_same_slices(before, one, two, o.lc, o.m as int, o.n as int, ok, ok);
}

/// The function of the caller's is given what the plain product stores, at the row and the column
/// of the caller's C, and what it gives is what C holds.
pub proof fn law_map_call_sees_gemm<'a, T: MapScalar, F: Fn(T, usize, usize) -> T>(
    ctx: Context,
    o: Operands<'a, T>,
    alpha: T,
    beta: T,
    f: F,
    before: Seq<T>,
    plain: Seq<T>,
    mapped: Seq<T>,
)
    requires
        gemm_leaves(ctx, o, alpha, beta, before, plain),
        map_leaves(ctx, o, alpha, beta, f, before, mapped),
    ensures
        forall|i: int, j: int|
            0 <= i < o.m && 0 <= j < o.n ==> f.ensures(
                (plain[o.lc.idx(i, j)], i as usize, j as usize),
                mapped[#[trigger] o.lc.idx(i, j)],
            ),
{
}

/// An integer product with a prepacked `B` leaves the same C as the plain one, bit for bit, for
/// every shape. The packed operand is not used up: this is so of every call with it.
pub proof fn law_int_packed_call_equals_plain<'a>(
    a: MatRef<'a, i8>,
    b: MatRef<'a, i8>,
    packed: PackedRhs<i8>,
    lc: Layout,
    alpha: i32,
    beta: i32,
    before: Seq<i32>,
    plain: Seq<i32>,
    after: Seq<i32>,
)
    requires
        a.cols == b.rows,
        packed.geometry().k == b.rows,
        packed.geometry().n == b.cols,
        packed.element() == (|j: int, p: int| b.at(p, j)),
        int_leaves(operands_of(a, b, lc), alpha, beta, before, plain),
        int_packed_leaves(a, packed, lc, alpha, beta, before, after),
    ensures
        after == plain,
{
    let o = operands_of(a, b, lc);
    assert(packed.element() =~= (|j: int, p: int| o.b@[o.lb.idx(p, j)]));
    assert forall|i: int, j: int| 0 <= i < o.m && 0 <= j < o.n implies after[#[trigger] lc.idx(
        i,
        j,
    )] == plain[lc.idx(i, j)] by {
        law_int_prepacked_equals_plain(o, packed, alpha, beta, i, j, before[lc.idx(i, j)]);
    }
    lemma_same_slices(
        before,
        after,
        plain,
        lc,
        o.m as int,
        o.n as int,
        |i: int, j: int, x: i32, y: i32|
            y == int_packed_element(a.data@, a.layout_spec(), packed, alpha, beta, i, j, x),
        |i: int, j: int, x: i32, y: i32| y == int_element(o, alpha, beta, i, j, x),
    );
}

/// A product with a prepacked `B` leaves the same C as the plain one, bit for bit, under one
/// context and for the shapes of [`same_sums`]: all those without a vector among the operands and
/// with an output larger than the small-output route takes are among them.
pub proof fn law_packed_b_call_reproduces_gemm<'a, T: GemmScalar>(
    ctx: Context,
    a: MatRef<'a, T>,
    b: MatRef<'a, T>,
    packed: &'a PackedRhs<T>,
    lc: Layout,
    alpha: T,
    beta: T,
    before: Seq<T>,
    plain: Seq<T>,
    after: Seq<T>,
)
    requires
        ctx.kernels.valid(),
        a.cols == b.rows,
        !operands_of(a, b, lc).row_major(),
        same_sums(ctx, operands_of(a, b, lc)),
        packed.geometry() == rhs_geometry::<T>(ctx, b.rows, b.cols),
        packed.element() == (|j: int, p: int| b.at(p, j)),
        gemm_leaves(ctx, operands_of(a, b, lc), alpha, beta, before, plain),
        packed_b_leaves(ctx, packed_b_request(alpha, a, packed, beta, lc), before, after),
    ensures
        after == plain,
{
    let o = operands_of(a, b, lc);
    let req = packed_b_request(alpha, a, packed, beta, lc);
    assert(packed.element() =~= (|j: int, p: int| o.b@[o.lb.idx(p, j)]));
    assert forall|i: int, j: int| 0 <= i < o.m && 0 <= j < o.n implies after[#[trigger] lc.idx(
        i,
        j,
    )] == plain[lc.idx(i, j)] by {
        law_prepacked_b_reproduces_gemm(ctx, o, req, i, j, before[lc.idx(i, j)]);
    }
    lemma_same_slices(
        before,
        after,
        plain,
        lc,
        o.m as int,
        o.n as int,
        |i: int, j: int, x: T, y: T| y == req.element(ctx, i, j, x),
        |i: int, j: int, x: T, y: T| y == gemm_element(ctx, o, alpha, beta, i, j, x),
    );
}

/// The same of a prepacked `A`, for a C that is laid out by rows.
pub proof fn law_packed_a_call_reproduces_gemm<'a, T: GemmScalar>(
    ctx: Context,
    a: MatRef<'a, T>,
    b: MatRef<'a, T>,
    packed: &'a PackedRhs<T>,
    lc: Layout,
    alpha: T,
    beta: T,
    before: Seq<T>,
    plain: Seq<T>,
    after: Seq<T>,
)
    requires
        ctx.kernels.valid(),
        a.cols == b.rows,
        operands_of(a, b, lc).row_major(),
        a.rows != 1 && b.cols != 1,
        same_sums(ctx, operands_of(a, b, lc)),
        packed.geometry() == rhs_geometry::<T>(ctx, a.cols, a.rows),
        packed.element() == (|i: int, p: int| a.at(i, p)),
        gemm_leaves(ctx, operands_of(a, b, lc), alpha, beta, before, plain),
        packed_a_leaves(ctx, packed_a_request(alpha, packed, b, beta, lc), lc, before, after),
    ensures
        after == plain,
{
    let o = operands_of(a, b, lc);
    let req = packed_a_request(alpha, packed, b, beta, lc);
    assert(packed.element() =~= (|i: int, p: int| o.a@[o.la.idx(i, p)]));
    assert forall|i: int, j: int| 0 <= i < o.m && 0 <= j < o.n implies after[#[trigger] lc.idx(
        i,
        j,
    )] == plain[lc.idx(i, j)] by {
        law_prepacked_a_reproduces_gemm(ctx, o, req, i, j, before[lc.idx(i, j)]);
    }
    lemma_same_slices(
        before,
        after,
        plain,
        lc,
        o.m as int,
        o.n as int,
        |i: int, j: int, x: T, y: T| y == req.element(ctx, j, i, x),
        |i: int, j: int, x: T, y: T| y == gemm_element(ctx, o, alpha, beta, i, j, x),
    );
}

/// A fused product with a prepacked `B` is the plain one with that operand followed by the bias
/// and the activation, bit for bit, of a type that holds its accumulator exactly; without either
/// it is the plain one.
pub proof fn law_packed_b_fused_call<'a, T: FusedScalar>(
    ctx: Context,
    req: PackedConsume<'a, T>,
    bias: Option<Bias<'a, T>>,
    act: Option<Activation<T>>,
    before: Seq<T>,
    plain: Seq<T>,
    fused: Seq<T>,
)
    requires
        packed_b_leaves(ctx, req, before, plain),
        packed_b_fused_leaves(ctx, req, bias, act, before, fused),
    ensures
        T::out_is_acc_spec() ==> forall|i: int, j: int|
            0 <= i < req.m && 0 <= j < req.packed.geometry().n ==> fused[#[trigger] req.lc.idx(
                i,
                j,
            )] == fused_epi_spec(bias, act).value(plain[req.lc.idx(i, j)].widen_spec(), i, j),
        bias is None && act is None ==> fused == plain,
{
    let (m, n) = (req.m as int, req.packed.geometry().n as int);
    assert forall|i: int, j: int|
        T::out_is_acc_spec() && 0 <= i < m && 0 <= j < n implies fused[#[trigger] req.lc.idx(
        i,
        j,
    )] == fused_epi_spec(bias, act).value(plain[req.lc.idx(i, j)].widen_spec(), i, j) by {
        let old = before[req.lc.idx(i, j)];
        law_packed_fused_is_packed_then_map(ctx, req, bias, act, i, j, old, i, j);
    }
    if bias is None && act is None {
        lemma_same_slices(
            before,
            fused,
            plain,
            req.lc,
            m,
            n,
            |i: int, j: int, x: T, y: T|
                y == req.fused_element(ctx, fused_epi_spec(bias, act), i, j, x, i, j),
            |i: int, j: int, x: T, y: T| y == req.element(ctx, i, j, x),
        );
    }
}

/// The same of a prepacked `A`. The axis of the bias is the caller's, though the product is run
/// transposed, and also where its `A*B` term vanishes.
pub proof fn law_packed_a_fused_call<'a, T: FusedScalar>(
    ctx: Context,
    req: PackedConsume<'a, T>,
    lc: Layout,
    bias: Option<Bias<'a, T>>,
    act: Option<Activation<T>>,
    before: Seq<T>,
    plain: Seq<T>,
    fused: Seq<T>,
)
    requires
        packed_a_leaves(ctx, req, lc, before, plain),
        packed_a_fused_leaves(ctx, req, lc, bias, act, before, fused),
    ensures
        T::out_is_acc_spec() ==> forall|i: int, j: int|
            0 <= i < req.packed.geometry().n && 0 <= j < req.m ==> fused[#[trigger] lc.idx(i, j)]
                == fused_epi_spec(bias, act).value(plain[lc.idx(i, j)].widen_spec(), i, j),
        bias is None && act is None ==> fused == plain,
{
    let (m, n) = (req.packed.geometry().n as int, req.m as int);
    assert forall|i: int, j: int|
        T::out_is_acc_spec() && 0 <= i < m && 0 <= j < n implies fused[#[trigger] lc.idx(i, j)]
        == fused_epi_spec(bias, act).value(plain[lc.idx(i, j)].widen_spec(), i, j) by {
        let old = before[lc.idx(i, j)];
        law_packed_fused_is_packed_then_map(ctx, req, bias, act, j, i, old, i, j);
    }
    if bias is None && act is None {
        lemma_same_slices(
            before,
            fused,
            plain,
            lc,
            m,
            n,
            |i: int, j: int, x: T, y: T|
                y == req.fused_element(ctx, fused_epi_spec(bias, act), j, i, x, i, j),
            |i: int, j: int, x: T, y: T| y == req.element(ctx, j, i, x),
        );
    }
}

/// What a bias alone adds, in the terms of the accumulator: at row `i` or at column `j`.
pub proof fn law_bias_alone<'a, T: FusedScalar>(s: &'a [T], v: T::Acc, i: int, j: int)
    ensures
        fused_epi_spec(Some(Bias::PerRow(s)), None).value(v, i, j) == T::narrow_spec(
            v.plus_spec(s@[i].widen_spec()),
        ),
        fused_epi_spec(Some(Bias::PerCol(s)), None).value(v, i, j) == T::narrow_spec(
            v.plus_spec(s@[j].widen_spec()),
        ),
{
}

} // verus!
