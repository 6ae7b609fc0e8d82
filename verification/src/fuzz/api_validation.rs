//! Adversarial geometry for the checked entries: dimensions and strides near the ends of their
//! ranges, over buffers that are nothing like them.
//!
//! Every plan ends in one of three ways: the checks refuse it, it runs, or it is skipped because
//! the checks would pass it and the work would be unbounded.

use vstd::prelude::*;

use crate::api::{
    extent_spec, gemm_views_error, reach, self_aliases_spec, view_fits, Geometry, MatMut, MatRef,
};
use crate::arith::{saturate, saturating_mul, unsigned_abs};
use crate::batched::{batch_of, batched_view_error, batched_views_error, gemm_batched_with};
use crate::complex::{cplx_runs, gemm_cplx_with, GaussI32};
use crate::dispatch::Operands;
use crate::error::{GemmError, Operand};
use crate::fuzz::common::{ab_spec, i8_ab, N_SCALES};
use crate::gemm::{gemm_with, operands_of};
use crate::gemm_i8::{gemm_i8_with, int_runs};
use crate::homog::gemm_runs;
use crate::layout::Layout;
use crate::parallel::{Context, Parallelism};
use crate::prepack::{prepack_lhs, prepack_rhs, rhs_packs};

verus! {

/// A word has 64 bits. Several classes need that.
pub open spec fn wide_words() -> bool {
    usize::MAX == 0xffff_ffff_ffff_ffff && isize::MAX == 0x7fff_ffff_ffff_ffff && isize::MIN
        == -0x8000_0000_0000_0000
}

/// A dimension at an edge of its range.
#[derive(Clone, Copy, Debug, PartialEq, Eq, Structural)]
pub enum DimClass {
    Zero,
    One,
    Small(usize),
    P31,
    P32p1,
    P33,
    HalfMax,
    Max,
}

impl DimClass {
    pub open spec fn value(self) -> int {
        match self {
            DimClass::Zero => 0,
            DimClass::One => 1,
            DimClass::Small(s) => s as int,
            DimClass::P31 => 0x8000_0000,
            DimClass::P32p1 => 0x1_0000_0001,
            DimClass::P33 => 0x2_0000_0000,
            DimClass::HalfMax => usize::MAX as int / 2,
            DimClass::Max => usize::MAX as int,
        }
    }

    pub fn get(self) -> (r: usize)
        requires
            wide_words(),
        ensures
            r == self.value(),
    {
        match self {
            DimClass::Zero => 0,
            DimClass::One => 1,
            DimClass::Small(s) => s,
            DimClass::P31 => 0x8000_0000u64 as usize,
            DimClass::P32p1 => 0x1_0000_0001u64 as usize,
            DimClass::P33 => 0x2_0000_0000u64 as usize,
            DimClass::HalfMax => usize::MAX / 2,
            DimClass::Max => usize::MAX,
        }
    }
}

/// A stride at an edge of its range, or one that leads backwards.
#[derive(Clone, Copy, Debug, PartialEq, Eq, Structural)]
pub enum StrideClass {
    Zero,
    P1,
    N1,
    PSmall(isize),
    NSmall(isize),
    P31,
    N31,
    P33,
    N33,
    IMin,
    IMax,
}

impl StrideClass {
    pub open spec fn value(self) -> int {
        match self {
            StrideClass::Zero => 0,
            StrideClass::P1 => 1,
            StrideClass::N1 => -1,
            StrideClass::PSmall(s) => s as int,
            StrideClass::NSmall(s) => -s,
            StrideClass::P31 => 0x8000_0000,
            StrideClass::N31 => -0x8000_0000,
            StrideClass::P33 => 0x2_0000_0000,
            StrideClass::N33 => -0x2_0000_0000,
            StrideClass::IMin => isize::MIN as int,
            StrideClass::IMax => isize::MAX as int,
        }
    }

    /// The stride can be negated where the class asks for that.
    pub open spec fn valid(self) -> bool {
        self matches StrideClass::NSmall(s) ==> s > isize::MIN
    }

    /// See [`StrideClass::valid`].
    pub fn is_valid(self) -> (r: bool)
        ensures
            r == self.valid(),
    {
        match self {
            StrideClass::NSmall(s) => s > isize::MIN,
            _ => true,
        }
    }

    pub fn get(self) -> (r: isize)
        requires
            wide_words(),
            self.valid(),
        ensures
            r == self.value(),
    {
        match self {
            StrideClass::Zero => 0,
            StrideClass::P1 => 1,
            StrideClass::N1 => -1,
            StrideClass::PSmall(s) => s,
            StrideClass::NSmall(s) => -s,
            StrideClass::P31 => 0x8000_0000i64 as isize,
            StrideClass::N31 => -0x8000_0000i64 as isize,
            StrideClass::P33 => 0x2_0000_0000i64 as isize,
            StrideClass::N33 => -0x2_0000_0000i64 as isize,
            StrideClass::IMin => isize::MIN,
            StrideClass::IMax => isize::MAX,
        }
    }
}

/// A checked entry.
#[derive(Clone, Copy, Debug, PartialEq, Eq, Structural)]
pub enum EntryKind {
    Gemm,
    GemmI8,
    GemmCplx,
    Batched,
    PrepackB,
    PrepackA,
}

/// An entry with the geometry that it is called on.
#[derive(Clone, Copy, Debug)]
pub struct ValidationPlan {
    pub entry: EntryKind,
    pub len_a: usize,
    pub len_b: usize,
    pub len_c: usize,
    pub m: DimClass,
    pub k: DimClass,
    pub n: DimClass,
    /// Rows of C, which need not be those of A.
    pub mc: DimClass,
    /// Columns of C, which need not be those of B.
    pub nc: DimClass,
    pub rsa: StrideClass,
    pub csa: StrideClass,
    pub rsb: StrideClass,
    pub csb: StrideClass,
    pub rsc: StrideClass,
    pub csc: StrideClass,
    pub batch: DimClass,
    pub a_bs: StrideClass,
    pub b_bs: StrideClass,
    pub c_bs: StrideClass,
    pub alpha_i: usize,
    pub beta_i: usize,
    pub conj_a: bool,
    pub conj_b: bool,
    pub par: Parallelism,
}

impl ValidationPlan {
    pub open spec fn valid(self) -> bool {
        &&& wide_words()
        &&& self.rsa.valid() && self.csa.valid()
        &&& self.rsb.valid() && self.csb.valid()
        &&& self.rsc.valid() && self.csc.valid()
        &&& self.a_bs.valid() && self.b_bs.valid() && self.c_bs.valid()
        &&& self.alpha_i < N_SCALES && self.beta_i < N_SCALES
    }

    /// See [`ValidationPlan::valid`].
    pub fn is_valid(&self) -> (r: bool)
        ensures
            r == self.valid(),
    {
        let wide: bool = usize::MAX as u64 == 0xffff_ffff_ffff_ffffu64 && isize::MAX as i64
            == 0x7fff_ffff_ffff_ffffi64 && isize::MIN as i64 == i64::MIN;
        wide && self.rsa.is_valid() && self.csa.is_valid() && self.rsb.is_valid()
            && self.csb.is_valid() && self.rsc.is_valid() && self.csc.is_valid()
            && self.a_bs.is_valid() && self.b_bs.is_valid() && self.c_bs.is_valid() && self.alpha_i
            < N_SCALES && self.beta_i < N_SCALES
    }

    pub open spec fn geometry_a(self) -> Geometry {
        Geometry {
            len: self.len_a as int,
            rows: self.m.value() as usize,
            cols: self.k.value() as usize,
            rs: self.rsa.value() as isize,
            cs: self.csa.value() as isize,
        }
    }

    pub open spec fn geometry_b(self) -> Geometry {
        Geometry {
            len: self.len_b as int,
            rows: self.k.value() as usize,
            cols: self.n.value() as usize,
            rs: self.rsb.value() as isize,
            cs: self.csb.value() as isize,
        }
    }

    pub open spec fn geometry_c(self) -> Geometry {
        Geometry {
            len: self.len_c as int,
            rows: self.mc.value() as usize,
            cols: self.nc.value() as usize,
            rs: self.rsc.value() as isize,
            cs: self.csc.value() as isize,
        }
    }

    /// `o` has the shape and the strides of the plan.
    pub open spec fn shapes<'a, T>(self, o: Operands<'a, T>) -> bool {
        let (a, b, c) = (self.geometry_a(), self.geometry_b(), self.geometry_c());
        &&& o.m == a.rows
        &&& o.k == a.cols
        &&& o.n == b.cols
        &&& o.la.rs == a.rs
        &&& o.la.cs == a.cs
        &&& o.lb.rs == b.rs
        &&& o.lb.cs == b.cs
        &&& o.lc.rs == c.rs
        &&& o.lc.cs == c.cs
    }

    /// The error of the entry's checks, if they refuse the plan.
    pub open spec fn refusal(self) -> Option<GemmError> {
        let (a, b, c) = (self.geometry_a(), self.geometry_b(), self.geometry_c());
        match self.entry {
            EntryKind::Batched => if self.batch.value() == 0 {
                None
            } else {
                batched_views_error(
                    self.batch.value() as usize,
                    a,
                    self.a_bs.value() as isize,
                    b,
                    self.b_bs.value() as isize,
                    c,
                    self.c_bs.value() as isize,
                )
            },
            EntryKind::PrepackB => if b.in_bounds() {
                None
            } else {
                Some(b.error(Operand::B))
            },
            EntryKind::PrepackA => if a.in_bounds() {
                None
            } else {
                Some(a.error(Operand::A))
            },
            _ => gemm_views_error(a, b, c),
        }
    }

    /// The work of the plan, if it ran, is past the cap. A pack whose size overflows is not: it is
    /// refused at once.
    pub open spec fn expensive(self) -> bool {
        let (m, k, n) = (self.m.value(), self.k.value(), self.n.value());
        let mnk = saturate(saturate(m * n) * k);
        match self.entry {
            EntryKind::Batched => {
                let batch = self.batch.value();
                batch != 0 && (batch > WORK_CAP || saturate(batch * mnk) > WORK_CAP)
            },
            EntryKind::PrepackB => heavy_pack(n, k),
            EntryKind::PrepackA => heavy_pack(m, k),
            _ => mnk > WORK_CAP,
        }
    }
}

/// The most elements or products that a plan may cost.
pub const WORK_CAP: usize = 16777216;

/// A pack whose size can be represented, but is past the cap.
pub open spec fn heavy_pack(x: int, k: int) -> bool {
    x != 0 && k != 0 && x * k <= usize::MAX && (x > WORK_CAP || k > WORK_CAP || x * k > WORK_CAP)
}

fn is_heavy_pack(x: usize, k: usize) -> (r: bool)
    ensures
        r == heavy_pack(x as int, k as int),
{
    if x == 0 || k == 0 {
        return false;
    }
    match x.checked_mul(k) {
        Some(v) => x > WORK_CAP || k > WORK_CAP || v > WORK_CAP,
        None => false,
    }
}

/// One dimension of an extent, added up apart from the entries' own code.
fn mirror_step(lo: isize, hi: isize, dim: usize, s: isize) -> (r: Option<(isize, isize)>)
    requires
        dim > 0,
        lo <= 0,
        hi >= 0,
    ensures
        match r {
            Some((l, h)) => {
                &&& dim <= isize::MAX
                &&& isize::MIN <= reach(dim as int, s as int) <= isize::MAX
                &&& l <= 0
                &&& h >= 0
                &&& if reach(dim as int, s as int) < 0 {
                    l == lo + reach(dim as int, s as int) && h == hi
                } else {
                    l == lo && h == hi + reach(dim as int, s as int)
                }
            },
            None => dim > isize::MAX || reach(dim as int, s as int) > isize::MAX - hi || reach(
                dim as int,
                s as int,
            ) < isize::MIN - lo,
        },
{
    if dim > isize::MAX as usize {
        return None;
    }
    match (dim as isize - 1).checked_mul(s) {
        None => None,
        Some(e) => if e < 0 {
            match lo.checked_add(e) {
                Some(l) => Some((l, hi)),
                None => None,
            }
        } else {
            match hi.checked_add(e) {
                Some(h) => Some((lo, h)),
                None => None,
            }
        },
    }
}

/// The extent of a view, computed apart from the entries' own code.
pub fn mirror_extent(rows: usize, cols: usize, rs: isize, cs: isize) -> (r: Option<usize>)
    ensures
        match extent_spec(rows, cols, rs, cs) {
            Some(e) => r == Some(e as usize) && 0 <= e <= usize::MAX,
            None => r is None,
        },
{
    if rows == 0 || cols == 0 {
        return Some(0);
    }
    let (lo, hi): (isize, isize) = match mirror_step(0, 0, rows, rs) {
        Some(v) => v,
        None => return None,
    };
    let (lo, hi): (isize, isize) = match mirror_step(lo, hi, cols, cs) {
        Some(v) => v,
        None => return None,
    };
    if lo < 0 {
        None
    } else {
        (hi as usize).checked_add(1)
    }
}

/// The self-aliasing test, computed apart from the entries' own code.
pub fn mirror_self_aliases(rows: usize, cols: usize, rs: isize, cs: isize) -> (r: bool)
    ensures
        r == self_aliases_spec(rows, cols, rs, cs),
{
    if rows == 0 || cols == 0 {
        return false;
    }
    let r: Option<(usize, usize)> = if rows > 1 {
        Some((unsigned_abs(rs), rows))
    } else {
        None
    };
    let c: Option<(usize, usize)> = if cols > 1 {
        Some((unsigned_abs(cs), cols))
    } else {
        None
    };
    match (r, c) {
        (None, None) => false,
        (Some((s, _)), None) => s == 0,
        (None, Some((s, _))) => s == 0,
        (Some((s, n)), Some((t, k))) => if s <= t {
            s == 0 || t < saturating_mul(s, n)
        } else {
            t == 0 || s < saturating_mul(t, k)
        },
    }
}

/// Whether a view stays inside a slice of `len` elements.
pub fn in_bounds(rows: usize, cols: usize, rs: isize, cs: isize, len: usize) -> (r: bool)
    ensures
        r == view_fits(rows, cols, rs, cs, len as int),
{
    match mirror_extent(rows, cols, rs, cs) {
        Some(need) => need <= len,
        None => false,
    }
}

/// `a*b*c`, held at the largest number.
pub fn sat3(a: usize, b: usize, c: usize) -> (r: usize)
    ensures
        r == saturate(saturate(a * b) * c),
{
    saturating_mul(saturating_mul(a, b), c)
}

/// Whether every element of a batched view stays inside a slice of `len` elements.
fn batched_ok(
    rows: usize,
    cols: usize,
    rs: isize,
    cs: isize,
    batch: usize,
    bs: isize,
    len: usize,
) -> (r: bool)
    ensures
        forall|view: Operand|
            r == (#[trigger] batched_view_error(
                (Geometry { len: len as int, rows, cols, rs, cs }),
                batch,
                bs,
                view,
            ) is None),
{
    let e: usize = match mirror_extent(rows, cols, rs, cs) {
        Some(e) => e,
        None => return false,
    };
    if batch <= 1 {
        return e <= len;
    }
    if bs < 0 {
        return false;
    }
    match (batch - 1).checked_mul(bs as usize) {
        Some(last) => match last.checked_add(e) {
            Some(need) => need <= len,
            None => false,
        },
        None => false,
    }
}

/// How a plan ends.
#[derive(Clone, Copy, Debug, PartialEq, Eq, Structural)]
pub enum Verdict {
    /// The checks would pass it, and the work would be past the cap.
    Skipped,
    /// The entry refused it.
    Refused(GemmError),
    /// The entry ran.
    Ran,
}

/// The verdict on an entry's result.
pub open spec fn verdict_of(r: Result<(), GemmError>) -> Verdict {
    match r {
        Ok(_) => Verdict::Ran,
        Err(e) => Verdict::Refused(e),
    }
}

fn verdict(r: Result<(), GemmError>) -> (v: Verdict)
    ensures
        v == verdict_of(r),
{
    match r {
        Ok(_) => Verdict::Ran,
        Err(e) => Verdict::Refused(e),
    }
}

/// A buffer of `len` equal elements.
fn filled<T: Copy>(v: T, len: usize) -> (r: Vec<T>)
    ensures
        r@.len() == len,
{
    let mut out: Vec<T> = Vec::new();
    while out.len() < len
        invariant
            out@.len() <= len,
        decreases len - out@.len(),
    {
        out.push(v);
    }
    out
}

/// Call the plain, integer or complex entry.
fn drive_gemm(ctx: &Context, p: &ValidationPlan) -> (r: Verdict)
    requires
        ctx.kernels.valid(),
        p.valid(),
        p.entry == EntryKind::Gemm || p.entry == EntryKind::GemmI8 || p.entry
            == EntryKind::GemmCplx,
    ensures
        match p.refusal() {
            Some(e) => r == Verdict::Refused(e),
            None => r == Verdict::Ran || r == Verdict::Refused(GemmError::TooLarge),
        },
        p.refusal() is None && p.entry == EntryKind::Gemm ==> forall|o: Operands<'_, i32>|
            p.shapes(o) ==> (r == Verdict::Ran <==> #[trigger] gemm_runs(
                *ctx,
                p.par,
                o,
                ab_spec(p.alpha_i) as i32,
            )),
        p.refusal() is None && p.entry == EntryKind::GemmI8 ==> forall|o: Operands<'_, i8>|
            p.shapes(o) ==> (r == Verdict::Ran <==> #[trigger] int_runs(
                *ctx,
                p.par,
                o,
                ab_spec(p.alpha_i) as i32,
            )),
        p.refusal() is None && p.entry == EntryKind::GemmCplx ==> forall|
            o: Operands<'_, GaussI32>,
        |
            p.shapes(o) ==> (r == Verdict::Ran <==> #[trigger] cplx_runs(
                *ctx,
                p.par,
                o,
                (GaussI32 { re: ab_spec(p.alpha_i) as i32, im: 0 }),
            )),
{
    let (m, k, n): (usize, usize, usize) = (p.m.get(), p.k.get(), p.n.get());
    let (mc, nc): (usize, usize) = (p.mc.get(), p.nc.get());
    let (rsa, csa): (isize, isize) = (p.rsa.get(), p.csa.get());
    let (rsb, csb): (isize, isize) = (p.rsb.get(), p.csb.get());
    let (rsc, csc): (isize, isize) = (p.rsc.get(), p.csc.get());
    let alpha: i32 = i8_ab(p.alpha_i);
    let beta: i32 = i8_ab(p.beta_i);
    match p.entry {
        EntryKind::GemmI8 => {
            let a: Vec<i8> = filled(0i8, p.len_a);
            let b: Vec<i8> = filled(0i8, p.len_b);
            let mut c: Vec<i32> = filled(0i32, p.len_c);
            let av: MatRef<'_, i8> = MatRef::new(a.as_slice(), m, k, rsa, csa);
            let bv: MatRef<'_, i8> = MatRef::new(b.as_slice(), k, n, rsb, csb);
            proof {
                let o = operands_of(av, bv, (Layout { off: 0, rs: rsc, cs: csc }));
                assert forall|q: Operands<'_, i8>| p.shapes(q) implies #[trigger] int_runs(
                    *ctx,
                    p.par,
                    q,
                    alpha,
                ) == int_runs(*ctx, p.par, o, alpha) by {
                    assert(q.oriented().la.rs == o.oriented().la.rs);
                    assert(q.oriented().la.cs == o.oriented().la.cs);
                }
            }
            verdict(
                gemm_i8_with(
                    ctx,
                    alpha,
                    av,
                    bv,
                    beta,
                    MatMut::new(c.as_mut_slice(), mc, nc, rsc, csc),
                    p.par,
                ),
            )
        },
        EntryKind::GemmCplx => {
            let zero: GaussI32 = GaussI32 { re: 0, im: 0 };
            let a: Vec<GaussI32> = filled(zero, p.len_a);
            let b: Vec<GaussI32> = filled(zero, p.len_b);
            let mut c: Vec<GaussI32> = filled(zero, p.len_c);
            let av: MatRef<'_, GaussI32> = MatRef::new(a.as_slice(), m, k, rsa, csa);
            let bv: MatRef<'_, GaussI32> = MatRef::new(b.as_slice(), k, n, rsb, csb);
            let ca: GaussI32 = GaussI32 { re: alpha, im: 0 };
            proof {
                let o = operands_of(av, bv, (Layout { off: 0, rs: rsc, cs: csc }));
                assert forall|q: Operands<'_, GaussI32>| p.shapes(q) implies #[trigger] cplx_runs(
                    *ctx,
                    p.par,
                    q,
                    ca,
                ) == cplx_runs(*ctx, p.par, o, ca) by {
                    assert(q.oriented().la.rs == o.oriented().la.rs);
                    assert(q.oriented().la.cs == o.oriented().la.cs);
                }
            }
            verdict(
                gemm_cplx_with(
                    ctx,
                    ca,
                    av,
                    p.conj_a,
                    bv,
                    p.conj_b,
                    GaussI32 { re: beta, im: 0 },
                    MatMut::new(c.as_mut_slice(), mc, nc, rsc, csc),
                    p.par,
                ),
            )
        },
        _ => {
            let a: Vec<i32> = filled(0i32, p.len_a);
            let b: Vec<i32> = filled(0i32, p.len_b);
            let mut c: Vec<i32> = filled(0i32, p.len_c);
            let av: MatRef<'_, i32> = MatRef::new(a.as_slice(), m, k, rsa, csa);
            let bv: MatRef<'_, i32> = MatRef::new(b.as_slice(), k, n, rsb, csb);
            proof {
                let o = operands_of(av, bv, (Layout { off: 0, rs: rsc, cs: csc }));
                assert forall|q: Operands<'_, i32>| p.shapes(q) implies #[trigger] gemm_runs(
                    *ctx,
                    p.par,
                    q,
                    alpha,
                ) == gemm_runs(*ctx, p.par, o, alpha) by {
                    assert(q.oriented().la.rs == o.oriented().la.rs);
                    assert(q.oriented().la.cs == o.oriented().la.cs);
                }
            }
            verdict(
                gemm_with(
                    ctx,
                    alpha,
                    av,
                    bv,
                    beta,
                    MatMut::new(c.as_mut_slice(), mc, nc, rsc, csc),
                    p.par,
                ),
            )
        },
    }
}

/// Call the batched entry.
fn drive_batched(ctx: &Context, p: &ValidationPlan) -> (r: Verdict)
    requires
        ctx.kernels.valid(),
        p.valid(),
        p.entry == EntryKind::Batched,
    ensures
        match p.refusal() {
            Some(e) => r == Verdict::Refused(e),
            None => r == Verdict::Ran || r == Verdict::Refused(GemmError::TooLarge),
        },
        p.batch.value() == 0 ==> r == Verdict::Ran,
        p.refusal() is None ==> forall|o: Operands<'_, i32>|
            p.shapes(o) ==> (r == Verdict::Ran <==> p.batch.value() == 0 || #[trigger] gemm_runs(
                *ctx,
                p.par,
                o,
                ab_spec(p.alpha_i) as i32,
            )),
{
    let batch: usize = p.batch.get();
    let (m, k, n): (usize, usize, usize) = (p.m.get(), p.k.get(), p.n.get());
    let alpha: i32 = i8_ab(p.alpha_i);
    let a: Vec<i32> = filled(0i32, p.len_a);
    let b: Vec<i32> = filled(0i32, p.len_b);
    let mut c: Vec<i32> = filled(0i32, p.len_c);
    let av: MatRef<'_, i32> = MatRef::new(a.as_slice(), m, k, p.rsa.get(), p.csa.get());
    let bv: MatRef<'_, i32> = MatRef::new(b.as_slice(), k, n, p.rsb.get(), p.csb.get());
    let (a_bs, b_bs, c_bs): (isize, isize, isize) = (p.a_bs.get(), p.b_bs.get(), p.c_bs.get());
    let (rsc, csc): (isize, isize) = (p.rsc.get(), p.csc.get());
    proof {
        let lc = Layout { off: 0, rs: rsc, cs: csc };
        let o = batch_of(batch, av, a_bs, bv, b_bs, lc, c_bs).at(0);
        assert forall|q: Operands<'_, i32>| p.shapes(q) implies #[trigger] gemm_runs(
            *ctx,
            p.par,
            q,
            alpha,
        ) == gemm_runs(*ctx, p.par, o, alpha) by {
            assert(q.oriented().la.rs == o.oriented().la.rs);
            assert(q.oriented().la.cs == o.oriented().la.cs);
        }
    }
    verdict(
        gemm_batched_with(
            ctx,
            batch,
            alpha,
            av,
            a_bs,
            bv,
            b_bs,
            i8_ab(p.beta_i),
            MatMut::new(c.as_mut_slice(), p.mc.get(), p.nc.get(), rsc, csc),
            c_bs,
            p.par,
        ),
    )
}

/// The checks of a plan would pass it, as far as the mirrored tests can tell.
fn would_pass(p: &ValidationPlan) -> (r: bool)
    requires
        p.valid(),
    ensures
        r == (p.refusal() is None),
{
    let (m, k, n): (usize, usize, usize) = (p.m.get(), p.k.get(), p.n.get());
    let (mc, nc): (usize, usize) = (p.mc.get(), p.nc.get());
    let (rsa, csa): (isize, isize) = (p.rsa.get(), p.csa.get());
    let (rsb, csb): (isize, isize) = (p.rsb.get(), p.csb.get());
    let (rsc, csc): (isize, isize) = (p.rsc.get(), p.csc.get());
    match p.entry {
        EntryKind::Batched => {
            let batch: usize = p.batch.get();
            if batch == 0 {
                return true;
            }
            let c_bs: isize = p.c_bs.get();
            let ec: Option<usize> = mirror_extent(mc, nc, rsc, csc);
            let clear: bool = batch <= 1 || (c_bs >= 0 && match ec {
                Some(e) => c_bs as usize >= e,
                None => false,
            });
            batched_ok(m, k, rsa, csa, batch, p.a_bs.get(), p.len_a) && batched_ok(
                k,
                n,
                rsb,
                csb,
                batch,
                p.b_bs.get(),
                p.len_b,
            ) && batched_ok(mc, nc, rsc, csc, batch, c_bs, p.len_c) && mc == m && nc == n
                && !mirror_self_aliases(mc, nc, rsc, csc) && clear
        },
        EntryKind::PrepackB => in_bounds(k, n, rsb, csb, p.len_b),
        EntryKind::PrepackA => in_bounds(m, k, rsa, csa, p.len_a),
        _ => in_bounds(m, k, rsa, csa, p.len_a) && in_bounds(k, n, rsb, csb, p.len_b) && in_bounds(
            mc,
            nc,
            rsc,
            csc,
            p.len_c,
        ) && mc == m && nc == n && !mirror_self_aliases(mc, nc, rsc, csc),
    }
}

/// The work of a plan, if it ran, is past the cap.
fn is_expensive(p: &ValidationPlan) -> (r: bool)
    requires
        p.valid(),
    ensures
        r == p.expensive(),
{
    let (m, k, n): (usize, usize, usize) = (p.m.get(), p.k.get(), p.n.get());
    match p.entry {
        EntryKind::Batched => {
            let batch: usize = p.batch.get();
            batch != 0 && (batch > WORK_CAP || saturating_mul(batch, sat3(m, n, k)) > WORK_CAP)
        },
        EntryKind::PrepackB => is_heavy_pack(n, k),
        EntryKind::PrepackA => is_heavy_pack(m, k),
        _ => sat3(m, n, k) > WORK_CAP,
    }
}

/// Drive a plan into its entry. A plan that the entry's checks refuse is refused with their
/// error. One that they pass is skipped if the work would be past the cap, and otherwise runs,
/// or is refused as too large.
pub fn drive_validation(ctx: &Context, p: &ValidationPlan) -> (r: Verdict)
    requires
        ctx.kernels.valid(),
        p.valid(),
    ensures
        match p.refusal() {
            Some(e) => r == Verdict::Refused(e),
            None => if p.expensive() {
                r == Verdict::Skipped
            } else {
                r == Verdict::Ran || r == Verdict::Refused(GemmError::TooLarge)
            },
        },
        p.refusal() is None && !p.expensive() && (p.entry == EntryKind::Gemm || p.entry
            == EntryKind::Batched && p.batch.value() != 0) ==> forall|o: Operands<'_, i32>|
            p.shapes(o) ==> (r == Verdict::Ran <==> #[trigger] gemm_runs(
                *ctx,
                p.par,
                o,
                ab_spec(p.alpha_i) as i32,
            )),
        p.refusal() is None && !p.expensive() && p.entry == EntryKind::GemmI8 ==> forall|
            o: Operands<'_, i8>,
        |
            p.shapes(o) ==> (r == Verdict::Ran <==> #[trigger] int_runs(
                *ctx,
                p.par,
                o,
                ab_spec(p.alpha_i) as i32,
            )),
        p.refusal() is None && !p.expensive() && p.entry == EntryKind::GemmCplx ==> forall|
            o: Operands<'_, GaussI32>,
        |
            p.shapes(o) ==> (r == Verdict::Ran <==> #[trigger] cplx_runs(
                *ctx,
                p.par,
                o,
                (GaussI32 { re: ab_spec(p.alpha_i) as i32, im: 0 }),
            )),
        p.entry == EntryKind::Batched && p.batch.value() == 0 ==> r == Verdict::Ran,
        p.refusal() is None && !p.expensive() && p.entry == EntryKind::PrepackB ==> (r
            == Verdict::Ran <==> rhs_packs::<i32>(
            *ctx,
            p.k.value() as usize,
            p.n.value() as usize,
        )),
        p.refusal() is None && !p.expensive() && p.entry == EntryKind::PrepackA ==> (r
            == Verdict::Ran <==> rhs_packs::<i32>(
            *ctx,
            p.k.value() as usize,
            p.m.value() as usize,
        )),
{
    if would_pass(p) && is_expensive(p) {
        return Verdict::Skipped;
    }
    match p.entry {
        EntryKind::Batched => drive_batched(ctx, p),
        EntryKind::PrepackB => {
            let b: Vec<i32> = filled(0i32, p.len_b);
            let v: MatRef<'_, i32> = MatRef::new(
                b.as_slice(),
                p.k.get(),
                p.n.get(),
                p.rsb.get(),
                p.csb.get(),
            );
            match prepack_rhs(ctx, v) {
                Ok(_) => Verdict::Ran,
                Err(e) => Verdict::Refused(e),
            }
        },
        EntryKind::PrepackA => {
            let a: Vec<i32> = filled(0i32, p.len_a);
            let v: MatRef<'_, i32> = MatRef::new(
                a.as_slice(),
                p.m.get(),
                p.k.get(),
                p.rsa.get(),
                p.csa.get(),
            );
            match prepack_lhs(ctx, v) {
                Ok(_) => Verdict::Ran,
                Err(e) => Verdict::Refused(e),
            }
        },
        _ => drive_gemm(ctx, p),
    }
}

} // verus!
