//! Made-up operands: a small generator, strided layouts with gaps, and the check that the gaps
//! stay untouched.

use vstd::arithmetic::mul::*;
use vstd::prelude::*;

use crate::api::{
    extent_spec, law_extent_is_tight, law_no_self_alias_is_distinct, reach, self_aliases_spec,
    view_fits,
};
use crate::layout::Layout;

verus! {

/// The scales that an index stands for. Index 0 is zero, the case in which C is not read.
pub open spec fn ab_spec(i: usize) -> int {
    if i == 0 {
        0
    } else if i == 1 {
        1
    } else if i == 2 {
        -1
    } else if i == 3 {
        2
    } else if i == 4 {
        3
    } else {
        -2
    }
}

/// How many scales there are.
pub const N_SCALES: usize = 6;

/// See [`ab_spec`].
pub fn i8_ab(i: usize) -> (r: i32)
    requires
        i < N_SCALES,
    ensures
        r == ab_spec(i),
{
    match i {
        0 => 0,
        1 => 1,
        2 => -1,
        3 => 2,
        4 => 3,
        _ => -2,
    }
}

/// What fills the gaps of an integer output.
pub const SENTINEL: i32 = 195948557;

/// A source of elements.
pub trait Source<T> {
    /// The element that the source will give after `n` others.
    spec fn nth(&self, n: nat) -> T;

    fn draw(&mut self) -> (r: T)
        ensures
            r == old(self).nth(0),
            forall|n: nat| #[trigger] final(self).nth(n) == old(self).nth(n + 1),
    ;
}

/// A xorshift generator, seeded once per operand.
pub struct Rng {
    pub state: u64,
}

/// The state after `s`.
pub open spec fn step_spec(s: u64) -> u64 {
    let a = s ^ (s << 13);
    let b = a ^ (a >> 7);
    b ^ (b << 17)
}

/// The state after `n` steps from `s`.
pub open spec fn steps(s: u64, n: nat) -> u64
    decreases n,
{
    if n == 0 {
        s
    } else {
        steps(step_spec(s), (n - 1) as nat)
    }
}

/// Steps add up.
pub proof fn lemma_steps(s: u64, a: nat, b: nat)
    ensures
        steps(s, a + b) == steps(steps(s, a), b),
    decreases a,
{
    if a > 0 {
        lemma_steps(step_spec(s), (a - 1) as nat, b);
        assert((a + b - 1) as nat == (a - 1) as nat + b);
    }
}

/// The byte that a state stands for.
#[verifier::truncate]
pub open spec fn byte_of(s: u64) -> i8 {
    (s >> 24) as u8 as i8
}

impl Rng {
    pub fn new(seed: u64) -> (r: Rng)
        ensures
            r.state == (seed + 0x9E3779B97F4A7C15) % 0x1_0000_0000_0000_0000,
    {
        Rng { state: seed.wrapping_add(0x9E3779B97F4A7C15) }
    }

    fn step(&mut self) -> (r: u64)
        ensures
            final(self).state == step_spec(old(self).state),
            r == final(self).state,
    {
        let s: u64 = self.state;
        let a: u64 = s ^ (s << 13);
        let b: u64 = a ^ (a >> 7);
        let c: u64 = b ^ (b << 17);
        self.state = c;
        c
    }

    /// A byte over the full range.
    #[verifier::truncate]
    pub fn next_i8(&mut self) -> (r: i8)
        ensures
            final(self).state == step_spec(old(self).state),
            r == byte_of(final(self).state),
    {
        (self.step() >> 24) as u8 as i8
    }
}

impl Source<i8> for Rng {
    open spec fn nth(&self, n: nat) -> i8 {
        byte_of(steps(self.state, n + 1))
    }

    fn draw(&mut self) -> (r: i8) {
        proof {
            assert(steps(step_spec(self.state), 0) == step_spec(self.state));
            assert(steps(self.state, 1) == steps(step_spec(self.state), 0));
        }
        self.next_i8()
    }
}

impl Source<i32> for Rng {
    open spec fn nth(&self, n: nat) -> i32 {
        byte_of(steps(self.state, n + 1)) as i32
    }

    fn draw(&mut self) -> (r: i32) {
        proof {
            assert(steps(step_spec(self.state), 0) == step_spec(self.state));
            assert(steps(self.state, 1) == steps(step_spec(self.state), 0));
        }
        self.next_i8() as i32
    }
}

/// A family of layouts: by rows or by columns, with interleaved elements and a trailing pad. A
/// broadcast row repeats itself, so it serves operands only, never an output.
#[derive(Clone, Copy, Debug, PartialEq, Eq, Structural)]
pub enum LayoutPlan {
    RowIsh { il: usize, pad: usize },
    ColIsh { il: usize, pad: usize },
    BroadcastRow,
}

impl LayoutPlan {
    /// The row and the column stride of a `rows x cols` view.
    pub open spec fn strides_spec(self, rows: int, cols: int) -> (int, int) {
        match self {
            LayoutPlan::RowIsh { il, pad } => (cols * il + pad, il as int),
            LayoutPlan::ColIsh { il, pad } => (il as int, rows * il + pad),
            LayoutPlan::BroadcastRow => (0, 1),
        }
    }

    /// The view can be addressed.
    pub open spec fn fits(self, rows: int, cols: int) -> bool {
        let (rs, cs) = self.strides_spec(rows, cols);
        &&& rs <= isize::MAX
        &&& cs <= isize::MAX
        &&& rows <= isize::MAX
        &&& cols <= isize::MAX
        &&& rows > 0 && cols > 0 ==> reach(rows, rs) + reach(cols, cs) < isize::MAX
    }

    /// Elements do not coincide.
    pub open spec fn spreads(self) -> bool {
        match self {
            LayoutPlan::RowIsh { il, .. } => il > 0,
            LayoutPlan::ColIsh { il, .. } => il > 0,
            LayoutPlan::BroadcastRow => false,
        }
    }

    /// Whether the view can be addressed.
    pub fn can_fit(self, rows: usize, cols: usize) -> (r: bool)
        ensures
            r == self.fits(rows as int, cols as int),
    {
        if rows > isize::MAX as usize || cols > isize::MAX as usize {
            return false;
        }
        let (rs, cs): (usize, usize) = match self {
            LayoutPlan::RowIsh { il, pad } => match row_stride(cols, il, pad) {
                Some(s) => (s, il),
                None => return false,
            },
            LayoutPlan::ColIsh { il, pad } => match row_stride(rows, il, pad) {
                Some(s) => (il, s),
                None => return false,
            },
            LayoutPlan::BroadcastRow => (0, 1),
        };
        if rs > isize::MAX as usize || cs > isize::MAX as usize {
            return false;
        }
        if rows == 0 || cols == 0 {
            return true;
        }
        proof {
            lemma_product_small(rows - 1, rs as int);
            lemma_product_small(cols - 1, cs as int);
        }
        let x: i128 = (rows - 1) as i128 * rs as i128;
        let y: i128 = (cols - 1) as i128 * cs as i128;
        x + y < isize::MAX as i128
    }

    /// Whether elements do not coincide.
    pub fn can_spread(self) -> (r: bool)
        ensures
            r == self.spreads(),
    {
        match self {
            LayoutPlan::RowIsh { il, .. } => il > 0,
            LayoutPlan::ColIsh { il, .. } => il > 0,
            LayoutPlan::BroadcastRow => false,
        }
    }

    /// The row and the column stride of a `rows x cols` view.
    pub fn strides(self, rows: usize, cols: usize) -> (r: (isize, isize))
        requires
            self.fits(rows as int, cols as int),
        ensures
            (r.0 as int, r.1 as int) == self.strides_spec(rows as int, cols as int),
            0 <= r.0,
            0 <= r.1,
    {
        match self {
            LayoutPlan::RowIsh { il, pad } => {
                proof {
                    lemma_product_nonnegative(cols as int, il as int);
                }
                ((cols * il + pad) as isize, il as isize)
            },
            LayoutPlan::ColIsh { il, pad } => {
                proof {
                    lemma_product_nonnegative(rows as int, il as int);
                }
                (il as isize, (rows * il + pad) as isize)
            },
            LayoutPlan::BroadcastRow => (0, 1),
        }
    }
}

proof fn lemma_product_small(a: int, b: int)
    requires
        0 <= a <= 0x7fff_ffff_ffff_ffff,
        0 <= b <= 0x7fff_ffff_ffff_ffff,
    ensures
        0 <= a * b <= 0x7fff_ffff_ffff_ffff * 0x7fff_ffff_ffff_ffff,
{
    assert(0 <= a * b <= 0x7fff_ffff_ffff_ffff * 0x7fff_ffff_ffff_ffff) by (nonlinear_arith)
        requires
            0 <= a <= 0x7fff_ffff_ffff_ffff,
            0 <= b <= 0x7fff_ffff_ffff_ffff,
    ;
}

/// `len * il + pad`, unless it overflows.
fn row_stride(len: usize, il: usize, pad: usize) -> (r: Option<usize>)
    ensures
        r == (if len * il + pad <= usize::MAX {
            Some((len * il + pad) as usize)
        } else {
            None::<usize>
        }),
{
    proof {
        lemma_product_nonnegative(len as int, il as int);
    }
    match len.checked_mul(il) {
        Some(v) => v.checked_add(pad),
        None => None,
    }
}

proof fn lemma_product_nonnegative(a: int, b: int)
    requires
        a >= 0,
        b >= 0,
    ensures
        a * b >= 0,
{
    assert(a * b >= 0) by (nonlinear_arith)
        requires
            a >= 0,
            b >= 0,
    ;
}

/// A layout that fits has an extent, and one that spreads passes the self-aliasing test.
pub proof fn lemma_plan_view(lp: LayoutPlan, rows: usize, cols: usize, rs: isize, cs: isize)
    requires
        lp.fits(rows as int, cols as int),
        (rs as int, cs as int) == lp.strides_spec(rows as int, cols as int),
        0 <= rs,
        0 <= cs,
    ensures
        extent_spec(rows, cols, rs, cs) is Some,
        0 <= extent_spec(rows, cols, rs, cs)->0 <= isize::MAX,
        lp.spreads() ==> !self_aliases_spec(rows, cols, rs, cs),
{
    if rows > 0 && cols > 0 {
        lemma_product_nonnegative(rows - 1, rs as int);
        lemma_product_nonnegative(cols - 1, cs as int);
        if lp.spreads() {
            match lp {
                LayoutPlan::RowIsh { il, pad } => {
                    lemma_spread(cols as int, il as int);
                    lemma_mul_is_commutative(cols as int, il as int);
                },
                LayoutPlan::ColIsh { il, pad } => {
                    lemma_spread(rows as int, il as int);
                    lemma_mul_is_commutative(rows as int, il as int);
                },
                LayoutPlan::BroadcastRow => {},
            }
        }
    }
}

proof fn lemma_spread(n: int, il: int)
    requires
        n >= 1,
        il >= 1,
    ensures
        n * il >= il,
        n > 1 ==> n * il > il,
{
    assert(n * il >= il && (n > 1 ==> n * il > il)) by (nonlinear_arith)
        requires
            n >= 1,
            il >= 1,
    ;
}

/// The extent of a view with strides that do not lead backwards.
pub fn extent_of(rows: usize, cols: usize, rs: isize, cs: isize) -> (r: usize)
    requires
        0 <= rs,
        0 <= cs,
        rows <= isize::MAX,
        cols <= isize::MAX,
        rows > 0 && cols > 0 ==> reach(rows as int, rs as int) + reach(cols as int, cs as int)
            < isize::MAX,
    ensures
        extent_spec(rows, cols, rs, cs) == Some(r as int),
{
    if rows == 0 || cols == 0 {
        return 0;
    }
    proof {
        lemma_product_nonnegative(rows - 1, rs as int);
        lemma_product_nonnegative(cols - 1, cs as int);
    }
    ((rows - 1) as isize * rs + (cols - 1) as isize * cs) as usize + 1
}

/// What a made-up operand holds at `(i, j)`: the elements of the source in row order. In a
/// broadcast row every row is the last one.
pub open spec fn drawn<T, S: Source<T>>(
    lp: LayoutPlan,
    src: S,
    rows: int,
    cols: int,
    i: int,
    j: int,
) -> T {
    if lp is BroadcastRow {
        src.nth(((rows - 1) * cols + j) as nat)
    } else {
        src.nth((i * cols + j) as nat)
    }
}

/// Where element `(i, j)` of a plan's view lies determines it, up to the row of a broadcast.
proof fn lemma_plan_idx(
    lp: LayoutPlan,
    l: Layout,
    rows: usize,
    cols: usize,
    i: int,
    j: int,
    i2: int,
    j2: int,
)
    requires
        lp.fits(rows as int, cols as int),
        lp.spreads() || lp is BroadcastRow,
        l.off == 0,
        (l.rs as int, l.cs as int) == lp.strides_spec(rows as int, cols as int),
        0 <= i < rows,
        0 <= j < cols,
        0 <= i2 < rows,
        0 <= j2 < cols,
    ensures
        l.idx(i, j) == l.idx(i2, j2) <==> j == j2 && (i == i2 || lp is BroadcastRow),
{
    reveal(Layout::idx);
    if lp is BroadcastRow {
        lemma_mul_basics(i);
        lemma_mul_basics(i2);
    } else {
        lemma_plan_view(lp, rows, cols, l.rs, l.cs);
        law_no_self_alias_is_distinct(rows, cols, l.rs, l.cs, 0);
        assert(l == Layout { off: 0, rs: l.rs, cs: l.cs });
        assert(l.distinct(rows as int, cols as int));
    }
}

/// Make up a `rows x cols` operand in a buffer that its layout just fills: the elements come
/// from the source, and the gaps hold `fill`.
pub fn build_operand<T: Copy, S: Source<T>>(
    rows: usize,
    cols: usize,
    lp: LayoutPlan,
    fill: T,
    src: &mut S,
) -> (r: (Vec<T>, isize, isize))
    requires
        lp.fits(rows as int, cols as int),
        lp.spreads() || lp is BroadcastRow,
        rows * cols <= usize::MAX,
    ensures
        (r.1 as int, r.2 as int) == lp.strides_spec(rows as int, cols as int),
        0 <= r.1,
        0 <= r.2,
        extent_spec(rows, cols, r.1, r.2) == Some(r.0@.len() as int),
        forall|i: int, j: int|
            0 <= i < rows && 0 <= j < cols ==> r.0@[#[trigger] (Layout {
                off: 0,
                rs: r.1,
                cs: r.2,
            }).idx(i, j)] == drawn::<T, S>(lp, *old(src), rows as int, cols as int, i, j),
        forall|x: int|
            0 <= x < r.0@.len() && !(Layout { off: 0, rs: r.1, cs: r.2 }).covers(
                rows as int,
                cols as int,
                x,
            ) ==> #[trigger] r.0@[x] == fill,
        forall|n: nat| #[trigger] final(src).nth(n) == old(src).nth(n + (rows * cols) as nat),
{
    let ghost s0 = *src;
    let (rs, cs): (isize, isize) = lp.strides(rows, cols);
    proof {
        lemma_plan_view(lp, rows, cols, rs, cs);
        law_extent_is_tight(rows, cols, rs, cs);
        lemma_product_nonnegative(rows as int, cols as int);
    }
    let extent: usize = extent_of(rows, cols, rs, cs);
    let l: Layout = Layout { off: 0, rs, cs };
    let mut buf: Vec<T> = Vec::new();
    while buf.len() < extent
        invariant
            buf@.len() <= extent,
            forall|x: int| 0 <= x < buf@.len() ==> #[trigger] buf@[x] == fill,
        decreases extent - buf@.len(),
    {
        buf.push(fill);
    }
    let ghost mut drawn_so_far: nat = 0;
    let mut i: usize = 0;
    proof {
        lemma_mul_basics(cols as int);
    }
    while i < rows
        invariant
            i <= rows,
            lp.fits(rows as int, cols as int),
            lp.spreads() || lp is BroadcastRow,
            rows * cols <= usize::MAX,
            (rs as int, cs as int) == lp.strides_spec(rows as int, cols as int),
            l == (Layout { off: 0, rs, cs }),
            l.fits(rows as int, cols as int, extent as int),
            buf@.len() == extent,
            extent <= isize::MAX,
            drawn_so_far == i * cols,
            forall|n: nat| #[trigger] src.nth(n) == s0.nth(n + drawn_so_far),
            forall|x: int, y: int|
                0 <= x < i && 0 <= y < cols ==> buf@[#[trigger] l.idx(x, y)] == (
                if lp is BroadcastRow {
                    s0.nth(((i - 1) * cols + y) as nat)
                } else {
                    s0.nth((x * cols + y) as nat)
                }),
            forall|x: int|
                0 <= x < extent && !l.covers(rows as int, cols as int, x) ==> #[trigger] buf@[x]
                    == fill,
        decreases rows - i,
    {
        let mut j: usize = 0;
        while j < cols
            invariant
                j <= cols,
                i < rows,
                lp.fits(rows as int, cols as int),
                lp.spreads() || lp is BroadcastRow,
                rows * cols <= usize::MAX,
                (rs as int, cs as int) == lp.strides_spec(rows as int, cols as int),
                l == (Layout { off: 0, rs, cs }),
                l.fits(rows as int, cols as int, extent as int),
                buf@.len() == extent,
                extent <= isize::MAX,
                drawn_so_far == i * cols + j,
                forall|n: nat| #[trigger] src.nth(n) == s0.nth(n + drawn_so_far),
                forall|x: int, y: int|
                    0 <= x < i && 0 <= y < cols ==> buf@[#[trigger] l.idx(x, y)] == (
                    if lp is BroadcastRow {
                        if y < j {
                            s0.nth((i * cols + y) as nat)
                        } else {
                            s0.nth(((i - 1) * cols + y) as nat)
                        }
                    } else {
                        s0.nth((x * cols + y) as nat)
                    }),
                forall|y: int|
                    0 <= y < j ==> buf@[#[trigger] l.idx(i as int, y)] == s0.nth(
                        (i * cols + y) as nat,
                    ),
                forall|x: int|
                    0 <= x < extent && !l.covers(rows as int, cols as int, x) ==> #[trigger] buf@[x]
                        == fill,
            decreases cols - j,
        {
            proof {
                assert(0 <= l.idx(i as int, j as int) < extent);
                assert(0 <= l.idx(i as int, 0) < extent);
                assert(0 <= l.idx(0, j as int) < extent);
                assert(l.covers(rows as int, cols as int, l.idx(i as int, j as int)));
                assert(src.nth(0) == s0.nth(0 + drawn_so_far));
            }
            let at: usize = l.at(i, j);
            let ghost src0 = *src;
            let ghost before = buf@;
            let v: T = src.draw();
            buf.set(at, v);
            proof {
                assert forall|n: nat| #[trigger] src.nth(n) == s0.nth(n + (drawn_so_far + 1)) by {
                    assert(src.nth(n) == src0.nth(n + 1));
                    assert(src0.nth(n + 1) == s0.nth((n + 1) + drawn_so_far));
                }
                assert forall|x: int, y: int| 0 <= x < rows && 0 <= y < cols implies (
                #[trigger] l.idx(x, y) == at <==> y == j && (x == i || lp is BroadcastRow)) by {
                    lemma_plan_idx(lp, l, rows, cols, x, y, i as int, j as int);
                }
                drawn_so_far = (drawn_so_far + 1) as nat;
            }
            j = j + 1;
        }
        proof {
            assert((i + 1) * cols == i * cols + cols) by (nonlinear_arith);
            assert forall|x: int, y: int| 0 <= x < i + 1 && 0 <= y < cols implies buf@[
                #[trigger] l.idx(x, y)
            ] == (if lp is BroadcastRow {
                s0.nth((i * cols + y) as nat)
            } else {
                s0.nth((x * cols + y) as nat)
            }) by {
                if x == i {
                    assert(buf@[l.idx(i as int, y)] == s0.nth((i * cols + y) as nat));
                }
            }
        }
        i = i + 1;
    }
    (buf, rs, cs)
}

/// The first slot outside a view that does not hold the sentinel.
pub open spec fn gap_written(buf: Seq<i32>, l: Layout, rows: int, cols: int, x: int) -> bool {
    0 <= x < buf.len() && !l.covers(rows, cols, x) && buf[x] != SENTINEL
}

/// Check that nothing outside a view has been written to: every gap still holds the sentinel.
/// Otherwise the error is the first gap that does not.
pub fn assert_no_gap_writes(buf: &[i32], rows: usize, cols: usize, rs: isize, cs: isize) -> (r:
    Result<(), usize>)
    requires
        view_fits(rows, cols, rs, cs, buf@.len() as int),
    ensures
        match r {
            Ok(_) => forall|x: int|
                !gap_written(buf@, (Layout { off: 0, rs, cs }), rows as int, cols as int, x),
            Err(at) => gap_written(
                buf@,
                (Layout { off: 0, rs, cs }),
                rows as int,
                cols as int,
                at as int,
            ) && forall|x: int|
                x < at ==> !gap_written(
                    buf@,
                    (Layout { off: 0, rs, cs }),
                    rows as int,
                    cols as int,
                    x,
                ),
        },
{
    let l: Layout = Layout { off: 0, rs, cs };
    let n: usize = buf.len();
    proof {
        law_extent_is_tight(rows, cols, rs, cs);
    }
    let mut is_view: Vec<bool> = vec![false; n];
    let mut i: usize = 0;
    while i < rows
        invariant
            i <= rows,
            n == buf@.len(),
            is_view@.len() == n,
            l.fits(rows as int, cols as int, n as int),
            forall|x: int|
                0 <= x < n ==> #[trigger] is_view@[x] == l.covers(i as int, cols as int, x),
        decreases rows - i,
    {
        let mut j: usize = 0;
        let ghost base = is_view@;
        while j < cols
            invariant
                i < rows,
                j <= cols,
                n == buf@.len(),
                is_view@.len() == n,
                base.len() == n,
                l.fits(rows as int, cols as int, n as int),
                forall|x: int|
                    0 <= x < n ==> #[trigger] base[x] == l.covers(i as int, cols as int, x),
                forall|x: int|
                    0 <= x < n ==> #[trigger] is_view@[x] == (base[x] || exists|y: int|
                        0 <= y < j && #[trigger] l.idx(i as int, y) == x),
            decreases cols - j,
        {
            proof {
                assert(0 <= l.idx(i as int, j as int) < n);
                assert(0 <= l.idx(i as int, 0) < n);
                assert(0 <= l.idx(0, j as int) < n);
            }
            let at: usize = l.at(i, j);
            let ghost before = is_view@;
            is_view.set(at, true);
            proof {
                assert forall|x: int| 0 <= x < n implies #[trigger] is_view@[x] == (base[x]
                    || exists|y: int|
                    0 <= y < j + 1 && #[trigger] l.idx(i as int, y) == x) by {
                    assert(before[x] == (base[x] || exists|y: int|
                        0 <= y < j && #[trigger] l.idx(i as int, y) == x));
                    if exists|y: int| 0 <= y < j && #[trigger] l.idx(i as int, y) == x {
                        let y = choose|y: int| 0 <= y < j && #[trigger] l.idx(i as int, y) == x;
                        assert(0 <= y < j + 1 && l.idx(i as int, y) == x);
                    }
                    if x == at {
                        assert(l.idx(i as int, j as int) == x);
                    } else {
                        if exists|y: int| 0 <= y < j + 1 && #[trigger] l.idx(i as int, y) == x {
                            let y = choose|y: int|
                                0 <= y < j + 1 && #[trigger] l.idx(i as int, y) == x;
                            assert(y != j);
                            assert(0 <= y < j && l.idx(i as int, y) == x);
                        }
                    }
                }
            }
            j = j + 1;
        }
        proof {
            assert forall|x: int| 0 <= x < n implies #[trigger] is_view@[x] == l.covers(
                i + 1,
                cols as int,
                x,
            ) by {
                if base[x] {
                    let (a, b) = choose|a: int, b: int|
                        0 <= a < i && 0 <= b < cols && #[trigger] l.idx(a, b) == x;
                    assert(0 <= a < i + 1 && l.idx(a, b) == x);
                }
                if exists|y: int| 0 <= y < j && #[trigger] l.idx(i as int, y) == x {
                    let y = choose|y: int| 0 <= y < j && #[trigger] l.idx(i as int, y) == x;
                    assert(0 <= y < cols && l.idx(i as int, y) == x);
                }
                if l.covers(i + 1, cols as int, x) {
                    let (a, b) = choose|a: int, b: int|
                        0 <= a < i + 1 && 0 <= b < cols && #[trigger] l.idx(a, b) == x;
                    if a < i {
                        assert(l.covers(i as int, cols as int, x));
                    } else {
                        assert(0 <= b < j && l.idx(i as int, b) == x);
                    }
                }
            }
        }
        i = i + 1;
    }
    let mut at: usize = 0;
    while at < n
        invariant
            at <= n,
            n == buf@.len(),
            is_view@.len() == n,
            l == (Layout { off: 0, rs, cs }),
            forall|x: int|
                0 <= x < n ==> #[trigger] is_view@[x] == l.covers(rows as int, cols as int, x),
            forall|x: int| x < at ==> !gap_written(buf@, l, rows as int, cols as int, x),
        decreases n - at,
    {
        assert(is_view@[at as int] == l.covers(rows as int, cols as int, at as int));
        if !is_view[at] && buf[at] != SENTINEL {
            return Err(at);
        }
        at = at + 1;
    }
    Ok(())
}

} // verus!
