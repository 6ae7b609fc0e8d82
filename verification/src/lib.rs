//! General matrix multiply over strided views: `C <- alpha*A*B + beta*C`.
//!
//! Transposition is expressed through strides, so a transposed operand needs no copy. Besides the
//! plain product there are integer products (`i8 -> i32`) with requantization, complex products,
//! fused epilogues (a bias, an activation, or a function of the caller's), products with a
//! prepacked operand, and batches.
//!
//! Every entry comes twice: under a [`Context`] of the caller's, which holds the machine, the
//! tuning knobs, the kernels and the number of workers, and under that of a process that has read
//! nothing from its machine. [`parallel::Context::detect`] makes the context of a machine that has
//! been detected. A call that its checks refuse, or whose sizes overflow, returns a [`GemmError`]
//! and writes nothing. Otherwise the contract says of every element of C what it holds, and that
//! the rest of C's slice is as it was. The order of the operations behind an element is part of
//! the contract, because a rounding element type shows it; for exact types, [`exact`] proves that
//! it does not matter.

use vstd::prelude::*;

pub mod adapter;
pub mod api;
pub mod arith;
pub mod batched;
pub mod blocking_outcomes;
pub mod cache;
pub mod calls;
pub mod cells;
pub mod choice_outcomes;
pub mod complex;
pub mod complex_outcomes;
pub mod cpuid;
pub mod dispatch;
pub mod driver;
pub mod element;
pub mod error;
pub mod exact;
pub mod fused;
pub mod fuzz;
pub mod gemm;
pub mod gemm_i8;
pub mod homog;
pub mod integer;
pub mod integer_outcomes;
pub mod isa;
pub mod kernel;
pub mod laws;
pub mod layout;
pub mod limits;
pub mod machine_outcomes;
pub mod map;
pub mod modular;
pub mod outcomes;
pub mod packed;
pub mod packed_gemm;
pub mod panel;
pub mod parallel;
pub mod placements;
pub mod plan;
pub mod prepack;
pub mod probes;
pub mod product;
pub mod quantize;
pub mod refusals;
pub mod requant;
pub mod scalar;
pub mod sums;
pub mod sysctl;
pub mod sysfs;
pub mod text;
pub mod text_outcomes;
pub mod tuning;

pub use crate::api::{MatMut, MatRef};
pub use crate::batched::{
    gemm_batched, gemm_batched_fused, gemm_batched_fused_unchecked,
    gemm_batched_fused_unchecked_with, gemm_batched_fused_with, gemm_batched_ptr_unchecked,
    gemm_batched_ptr_unchecked_with, gemm_batched_slice, gemm_batched_slice_with,
    gemm_batched_unchecked, gemm_batched_unchecked_with, gemm_batched_with, Batch, BatchProblem,
    GemmProblem,
};
pub use crate::complex::{
    gemm_cplx, gemm_cplx_fused, gemm_cplx_fused_unchecked, gemm_cplx_fused_unchecked_with,
    gemm_cplx_fused_with, gemm_cplx_unchecked, gemm_cplx_unchecked_with, gemm_cplx_with,
    ComplexScalar, GaussI32,
};
pub use crate::element::GemmScalar;
pub use crate::error::{GemmError, Operand};
pub use crate::fused::{
    gemm_fused, gemm_fused_unchecked, gemm_fused_unchecked_with, gemm_fused_with, Activation, Bias,
    BiasDim, FusedScalar,
};
pub use crate::gemm::{gemm, gemm_unchecked, gemm_unchecked_with, gemm_with};
pub use crate::gemm_i8::{gemm_i8, gemm_i8_unchecked, gemm_i8_unchecked_with, gemm_i8_with};
pub use crate::map::{
    gemm_map, gemm_map_unchecked, gemm_map_unchecked_with, gemm_map_with, MapScalar,
};
pub use crate::packed_gemm::{
    gemm_i8_packed_b, gemm_i8_packed_b_unchecked, gemm_i8_packed_b_unchecked_with,
    gemm_i8_packed_b_with, gemm_packed_a, gemm_packed_a_fused, gemm_packed_a_fused_unchecked,
    gemm_packed_a_fused_unchecked_with, gemm_packed_a_fused_with, gemm_packed_a_unchecked,
    gemm_packed_a_unchecked_with, gemm_packed_a_with, gemm_packed_b, gemm_packed_b_fused,
    gemm_packed_b_fused_unchecked, gemm_packed_b_fused_unchecked_with, gemm_packed_b_fused_with,
    gemm_packed_b_unchecked, gemm_packed_b_unchecked_with, gemm_packed_b_with, PackedConsume,
};
pub use crate::parallel::{Context, Parallelism};
pub use crate::prepack::{
    prepack_lhs, prepack_lhs_unchecked, prepack_rhs, prepack_rhs_i8, prepack_rhs_i8_unchecked,
    prepack_rhs_unchecked, PackedLhs, PackedRhs,
};
pub use crate::quantize::Scale;
pub use crate::requant::{
    gemm_i8_requant, gemm_i8_requant_u8, gemm_i8_requant_u8_unchecked,
    gemm_i8_requant_u8_unchecked_with, gemm_i8_requant_u8_with, gemm_i8_requant_unchecked,
    gemm_i8_requant_unchecked_with, gemm_i8_requant_with, RequantScale, Requantize,
};

verus! {

} // verus!
