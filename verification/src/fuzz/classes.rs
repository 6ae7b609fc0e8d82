//! What the numbers drawn for a plan stand for.

use vstd::prelude::*;

use crate::fuzz::api_validation::{DimClass, EntryKind, StrideClass};
use crate::fuzz::common::LayoutPlan;
use crate::fuzz::plans::{Scenario, TypeTag};
use crate::parallel::Parallelism;

verus! {

/// How many classes of knob values there are.
pub const KNOB_CLASSES: u8 = 9;

/// The knob value of a class: zero, which several knobs take for "derive it", one, a small number
/// or one around the edges of a tile, which is the one drawn, and ever larger ones up to the end of
/// the range.
pub fn knob_class(class: u8, drawn: usize) -> (v: usize)
    requires
        usize::MAX == 0xffff_ffff_ffff_ffff,
    ensures
        v as int == (match class {
            0 => 0int,
            1 => 1,
            2 | 3 => drawn as int,
            4 => 4096,
            5 => 0x2_0000_0000,
            6 => 0x1_0000_0000_0000,
            7 => usize::MAX - 1,
            _ => usize::MAX as int,
        }),
{
    match class {
        0 => 0,
        1 => 1,
        2 | 3 => drawn,
        4 => 4096,
        5 => 0x2_0000_0000u64 as usize,
        6 => 0x1_0000_0000_0000u64 as usize,
        7 => usize::MAX - 1,
        _ => usize::MAX,
    }
}

/// How many classes of dimensions there are.
pub const DIM_CLASSES: u8 = 8;

/// The dimension class of a number. Class 2 takes the number drawn.
pub fn dim_class(class: u8, drawn: usize) -> (c: DimClass)
    ensures
        c == (match class {
            0 => DimClass::Zero,
            1 => DimClass::One,
            2 => DimClass::Small(drawn),
            3 => DimClass::P31,
            4 => DimClass::P32p1,
            5 => DimClass::P33,
            6 => DimClass::HalfMax,
            _ => DimClass::Max,
        }),
{
    match class {
        0 => DimClass::Zero,
        1 => DimClass::One,
        2 => DimClass::Small(drawn),
        3 => DimClass::P31,
        4 => DimClass::P32p1,
        5 => DimClass::P33,
        6 => DimClass::HalfMax,
        _ => DimClass::Max,
    }
}

/// How many classes of strides there are.
pub const STRIDE_CLASSES: u8 = 11;

/// The stride class of a number. Classes 3 and 4 take the number drawn.
pub fn stride_class(class: u8, drawn: isize) -> (c: StrideClass)
    ensures
        c == (match class {
            0 => StrideClass::Zero,
            1 => StrideClass::P1,
            2 => StrideClass::N1,
            3 => StrideClass::PSmall(drawn),
            4 => StrideClass::NSmall(drawn),
            5 => StrideClass::P31,
            6 => StrideClass::N31,
            7 => StrideClass::P33,
            8 => StrideClass::N33,
            9 => StrideClass::IMin,
            _ => StrideClass::IMax,
        }),
{
    match class {
        0 => StrideClass::Zero,
        1 => StrideClass::P1,
        2 => StrideClass::N1,
        3 => StrideClass::PSmall(drawn),
        4 => StrideClass::NSmall(drawn),
        5 => StrideClass::P31,
        6 => StrideClass::N31,
        7 => StrideClass::P33,
        8 => StrideClass::N33,
        9 => StrideClass::IMin,
        _ => StrideClass::IMax,
    }
}

/// The layout of a number. Without a broadcast only the first two are drawn.
pub fn layout_class(class: u8, il: usize, pad: usize) -> (c: LayoutPlan)
    ensures
        c == (match class {
            0 => LayoutPlan::RowIsh { il, pad },
            1 => LayoutPlan::ColIsh { il, pad },
            _ => LayoutPlan::BroadcastRow,
        }),
{
    match class {
        0 => LayoutPlan::RowIsh { il, pad },
        1 => LayoutPlan::ColIsh { il, pad },
        _ => LayoutPlan::BroadcastRow,
    }
}

/// The element type of a number.
pub fn type_class(class: u8) -> (c: TypeTag)
    ensures
        c == (match class {
            0 => TypeTag::F32,
            1 => TypeTag::F64,
            2 => TypeTag::F16,
            3 => TypeTag::Bf16,
            4 => TypeTag::I8,
            5 => TypeTag::C32,
            _ => TypeTag::C64,
        }),
{
    match class {
        0 => TypeTag::F32,
        1 => TypeTag::F64,
        2 => TypeTag::F16,
        3 => TypeTag::Bf16,
        4 => TypeTag::I8,
        5 => TypeTag::C32,
        _ => TypeTag::C64,
    }
}

/// The element type of a prepacked operand.
pub fn packed_type_class(class: u8) -> (c: TypeTag)
    ensures
        c == (match class {
            0 => TypeTag::F32,
            1 => TypeTag::F64,
            _ => TypeTag::Bf16,
        }),
{
    match class {
        0 => TypeTag::F32,
        1 => TypeTag::F64,
        _ => TypeTag::Bf16,
    }
}

/// The scenario of a number.
pub fn scenario_class(class: u8) -> (c: Scenario)
    ensures
        c == (match class {
            0 => Scenario::PlainF32,
            1 => Scenario::Gemv,
            2 => Scenario::SmallMn,
            3 => Scenario::PrepackB,
            4 => Scenario::PrepackA,
            5 => Scenario::I8,
            _ => Scenario::Batched,
        }),
{
    match class {
        0 => Scenario::PlainF32,
        1 => Scenario::Gemv,
        2 => Scenario::SmallMn,
        3 => Scenario::PrepackB,
        4 => Scenario::PrepackA,
        5 => Scenario::I8,
        _ => Scenario::Batched,
    }
}

/// The entry of a number.
pub fn entry_class(class: u8) -> (c: EntryKind)
    ensures
        c == (match class {
            0 => EntryKind::Gemm,
            1 => EntryKind::GemmI8,
            2 => EntryKind::GemmCplx,
            3 => EntryKind::Batched,
            4 => EntryKind::PrepackB,
            _ => EntryKind::PrepackA,
        }),
{
    match class {
        0 => EntryKind::Gemm,
        1 => EntryKind::GemmI8,
        2 => EntryKind::GemmCplx,
        3 => EntryKind::Batched,
        4 => EntryKind::PrepackB,
        _ => EntryKind::PrepackA,
    }
}

/// How many numbers stand for a parallelism.
pub const PAR_CLASSES: usize = 4;

/// The parallelism of a number: serial twice, and explicit worker counts of at most two.
pub fn par_class(class: usize) -> (c: Parallelism)
    ensures
        c == (match class {
            0 | 1 => Parallelism::Serial,
            2 => Parallelism::Rayon(1),
            _ => Parallelism::Rayon(2),
        }),
{
    match class {
        0 | 1 => Parallelism::Serial,
        2 => Parallelism::Rayon(1),
        _ => Parallelism::Rayon(2),
    }
}

/// How many numbers stand for the parallelism of a knobs plan.
pub const KNOB_PAR_CLASSES: usize = 6;

/// The parallelism of a knobs plan: serial three times, explicit worker counts, and all workers.
pub fn knob_par_class(class: usize) -> (c: Parallelism)
    ensures
        c == (match class {
            0 | 1 | 2 => Parallelism::Serial,
            3 => Parallelism::Rayon(1),
            4 => Parallelism::Rayon(2),
            _ => Parallelism::Rayon(0),
        }),
{
    match class {
        0 | 1 | 2 => Parallelism::Serial,
        3 => Parallelism::Rayon(1),
        4 => Parallelism::Rayon(2),
        _ => Parallelism::Rayon(0),
    }
}

} // verus!
