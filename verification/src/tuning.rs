//! Runtime knobs. A knob holds a plain number; several use `0` for "derive from the machine".

use vstd::prelude::*;

use crate::arith::{max_int, max_usize, min_int, min_usize, saturate, saturating_mul};
use crate::parallel::Target;

verus! {

/// The largest value a knob can hold. The setters hold larger values here.
pub const KNOB_MAX: usize = usize::MAX - 1;

/// The element size up to which the depth ceiling [`Tuning::tiny_kc`] is divided, on targets other
/// than aarch64: there a private L2 makes the residency of the panels bind first.
pub const KC_SIZEOF_DIV_CAP: usize = 16;

/// The element size up to which [`Tuning::tiny_kc`] is divided on aarch64: a wider element keeps
/// the whole ceiling, since dividing it would multiply the slices.
pub const KC_SIZEOF_DIV_CAP_AARCH64: usize = 4;

/// The knobs that shape blocking, packing and routing. The hints among them are for an engine that
/// spreads its jobs over threads: nothing here reads them, and no result depends on them.
#[derive(Clone, Copy, Debug, PartialEq, Eq, Structural)]
pub struct Tuning {
    /// Work (`m*n*k`) below which a call stays on one worker.
    pub parallel_threshold: usize,
    /// Rows above which the right operand is packed.
    pub rhs_pack_threshold: usize,
    /// Reused columns above which the left operand is packed.
    pub lhs_pack_threshold: usize,
    /// Depth stride, in bytes, from which a column-major left operand is packed (`0`: half a
    /// page).
    pub lhs_pack_stride: usize,
    /// Depth walk, in bytes, from which the stride gate applies (`0`: 4 MiB).
    pub lhs_pack_span: usize,
    /// Column tiles from which the stride gate applies.
    pub lhs_pack_reuse: usize,
    /// Largest vector dimension of the matrix-vector route.
    pub gemv_threshold: usize,
    /// Largest depth of the shallow route.
    pub small_k_threshold: usize,
    /// Largest output dimension of the small-output route.
    pub small_mn_dim: usize,
    /// Depth above which the small-output route copies a strided operand.
    pub small_mn_pack_min_k: usize,
    /// Touched bytes below which a matrix-vector product stays on one worker (`0`: from the
    /// cache).
    pub gemv_parallel_bytes: usize,
    /// Work from which the left operand is packed once for all workers.
    pub shared_lhs_mnk: usize,
    /// Cap on `mc`, in register panels.
    pub mc_reg_panels: usize,
    /// Cap on `nc`, in register panels, on a machine without an L3.
    pub nc_no_l3_panels: usize,
    /// Largest output dimension of the small-matrix blocking.
    pub tiny_block_dim: usize,
    /// Depth ceiling of the small-matrix blocking, for a 4-byte element.
    pub kc: usize,
    /// Floor on the modelled depth.
    pub kc_min: usize,
    /// Right micropanel bytes past which a narrow output accumulates in depth slices (`0`: half
    /// the L2).
    pub deep_kc_bytes: usize,
    /// Working set past which output tiles are prefetched (`0`: the last-level cache).
    pub prefetch_min_bytes: usize,
    /// Work from which a multi-worker integer product keeps the dot kernel.
    pub i8_vnni_min_par_mnk: usize,
    /// The element size up to which the depth ceiling of the small-matrix blocking is divided.
    /// It belongs to the target and has no setter.
    pub kc_sizeof_div_cap: usize,
    /// Hint: the most workers of a matrix-vector product (`0`: no cap).
    pub gemv_thread_cap: usize,
    /// Hint: jobs per worker of a product (`0`: the engine decides).
    pub parallel_oversample: usize,
    /// Hint: the output dimension that calls for one more worker (`0`: the engine decides).
    pub thread_dim_stride: usize,
    /// Hint: the largest depth that is streamed without packing (`0`: the engine decides).
    pub k_stream_max: usize,
    /// Hint: bytes of a batch element from which its workers share it (`0`: the engine decides).
    pub seq_internal_bytes_per_worker: usize,
    /// Hint: jobs per worker of a product with a prepacked operand (`0`: the engine decides).
    pub packed_oversample: usize,
    /// Hint: the side of the tiles in which an operand is transposed while it is packed (`0`: the
    /// engine decides).
    pub pack_transpose_tile: usize,
}

/// The default knobs.
pub open spec fn default_tuning() -> Tuning {
    Tuning {
        parallel_threshold: 884736,
        rhs_pack_threshold: 128,
        lhs_pack_threshold: 128,
        lhs_pack_stride: 0,
        lhs_pack_span: 0,
        lhs_pack_reuse: 128,
        gemv_threshold: 1,
        small_k_threshold: 8,
        small_mn_dim: 8,
        small_mn_pack_min_k: 64,
        gemv_parallel_bytes: 0,
        shared_lhs_mnk: 134217728,
        mc_reg_panels: 8,
        nc_no_l3_panels: 128,
        tiny_block_dim: 64,
        kc: 512,
        kc_min: 512,
        deep_kc_bytes: 0,
        prefetch_min_bytes: 0,
        i8_vnni_min_par_mnk: 2097152,
        kc_sizeof_div_cap: KC_SIZEOF_DIV_CAP,
        gemv_thread_cap: 0,
        parallel_oversample: 0,
        thread_dim_stride: 0,
        k_stream_max: 0,
        seq_internal_bytes_per_worker: 0,
        packed_oversample: 0,
        pack_transpose_tile: 0,
    }
}

/// The default knobs on a target.
pub open spec fn target_tuning(target: Target) -> Tuning {
    Tuning {
        kc_sizeof_div_cap: if target is Aarch64 {
            KC_SIZEOF_DIV_CAP_AARCH64
        } else {
            KC_SIZEOF_DIV_CAP
        },
        ..default_tuning()
    }
}

/// What a setter stores for `v`.
pub open spec fn knob(v: usize) -> usize {
    if v > KNOB_MAX {
        KNOB_MAX
    } else {
        v
    }
}

fn hold(v: usize) -> (r: usize)
    ensures
        r == knob(v),
{
    if v > KNOB_MAX {
        KNOB_MAX
    } else {
        v
    }
}

impl Tuning {
    /// The default knobs.
    pub fn new() -> (r: Tuning)
        ensures
            r == default_tuning(),
    {
        Tuning {
            parallel_threshold: 884736,
            rhs_pack_threshold: 128,
            lhs_pack_threshold: 128,
            lhs_pack_stride: 0,
            lhs_pack_span: 0,
            lhs_pack_reuse: 128,
            gemv_threshold: 1,
            small_k_threshold: 8,
            small_mn_dim: 8,
            small_mn_pack_min_k: 64,
            gemv_parallel_bytes: 0,
            shared_lhs_mnk: 134217728,
            mc_reg_panels: 8,
            nc_no_l3_panels: 128,
            tiny_block_dim: 64,
            kc: 512,
            kc_min: 512,
            deep_kc_bytes: 0,
            prefetch_min_bytes: 0,
            i8_vnni_min_par_mnk: 2097152,
            kc_sizeof_div_cap: KC_SIZEOF_DIV_CAP,
            gemv_thread_cap: 0,
            parallel_oversample: 0,
            thread_dim_stride: 0,
            k_stream_max: 0,
            seq_internal_bytes_per_worker: 0,
            packed_oversample: 0,
            pack_transpose_tile: 0,
        }
    }

    /// The default knobs on a target.
    pub fn for_target(target: Target) -> (r: Tuning)
        ensures
            r == target_tuning(target),
    {
        let mut r: Tuning = Tuning::new();
        if let Target::Aarch64 = target {
            r.kc_sizeof_div_cap = KC_SIZEOF_DIV_CAP_AARCH64;
        }
        r
    }

    pub fn set_parallel_threshold(&mut self, v: usize)
        ensures
            *final(self) == (Tuning { parallel_threshold: knob(v), ..*old(self) }),
    {
        self.parallel_threshold = hold(v);
    }

    pub fn set_rhs_pack_threshold(&mut self, v: usize)
        ensures
            *final(self) == (Tuning { rhs_pack_threshold: knob(v), ..*old(self) }),
    {
        self.rhs_pack_threshold = hold(v);
    }

    pub fn set_lhs_pack_threshold(&mut self, v: usize)
        ensures
            *final(self) == (Tuning { lhs_pack_threshold: knob(v), ..*old(self) }),
    {
        self.lhs_pack_threshold = hold(v);
    }

    pub fn set_lhs_pack_stride(&mut self, v: usize)
        ensures
            *final(self) == (Tuning { lhs_pack_stride: knob(v), ..*old(self) }),
    {
        self.lhs_pack_stride = hold(v);
    }

    pub fn set_lhs_pack_span(&mut self, v: usize)
        ensures
            *final(self) == (Tuning { lhs_pack_span: knob(v), ..*old(self) }),
    {
        self.lhs_pack_span = hold(v);
    }

    pub fn set_lhs_pack_reuse(&mut self, v: usize)
        ensures
            *final(self) == (Tuning { lhs_pack_reuse: knob(v), ..*old(self) }),
    {
        self.lhs_pack_reuse = hold(v);
    }

    pub fn set_gemv_threshold(&mut self, v: usize)
        ensures
            *final(self) == (Tuning { gemv_threshold: knob(v), ..*old(self) }),
    {
        self.gemv_threshold = hold(v);
    }

    pub fn set_small_k_threshold(&mut self, v: usize)
        ensures
            *final(self) == (Tuning { small_k_threshold: knob(v), ..*old(self) }),
    {
        self.small_k_threshold = hold(v);
    }

    pub fn set_small_mn_dim(&mut self, v: usize)
        ensures
            *final(self) == (Tuning { small_mn_dim: knob(v), ..*old(self) }),
    {
        self.small_mn_dim = hold(v);
    }

    pub fn set_small_mn_pack_min_k(&mut self, v: usize)
        ensures
            *final(self) == (Tuning { small_mn_pack_min_k: knob(v), ..*old(self) }),
    {
        self.small_mn_pack_min_k = hold(v);
    }

    pub fn set_gemv_parallel_bytes(&mut self, v: usize)
        ensures
            *final(self) == (Tuning { gemv_parallel_bytes: knob(v), ..*old(self) }),
    {
        self.gemv_parallel_bytes = hold(v);
    }

    pub fn set_shared_lhs_mnk(&mut self, v: usize)
        ensures
            *final(self) == (Tuning { shared_lhs_mnk: knob(v), ..*old(self) }),
    {
        self.shared_lhs_mnk = hold(v);
    }

    pub fn set_mc_reg_panels(&mut self, v: usize)
        ensures
            *final(self) == (Tuning { mc_reg_panels: knob(v), ..*old(self) }),
    {
        self.mc_reg_panels = hold(v);
    }

    pub fn set_nc_no_l3_panels(&mut self, v: usize)
        ensures
            *final(self) == (Tuning { nc_no_l3_panels: knob(v), ..*old(self) }),
    {
        self.nc_no_l3_panels = hold(v);
    }

    pub fn set_tiny_block_dim(&mut self, v: usize)
        ensures
            *final(self) == (Tuning { tiny_block_dim: knob(v), ..*old(self) }),
    {
        self.tiny_block_dim = hold(v);
    }

    pub fn set_kc(&mut self, v: usize)
        ensures
            *final(self) == (Tuning { kc: knob(v), ..*old(self) }),
    {
        self.kc = hold(v);
    }

    pub fn set_kc_min(&mut self, v: usize)
        ensures
            *final(self) == (Tuning { kc_min: knob(v), ..*old(self) }),
    {
        self.kc_min = hold(v);
    }

    pub fn set_deep_kc_bytes(&mut self, v: usize)
        ensures
            *final(self) == (Tuning { deep_kc_bytes: knob(v), ..*old(self) }),
    {
        self.deep_kc_bytes = hold(v);
    }

    pub fn set_prefetch_min_bytes(&mut self, v: usize)
        ensures
            *final(self) == (Tuning { prefetch_min_bytes: knob(v), ..*old(self) }),
    {
        self.prefetch_min_bytes = hold(v);
    }

    pub fn set_i8_vnni_min_par_mnk(&mut self, v: usize)
        ensures
            *final(self) == (Tuning { i8_vnni_min_par_mnk: knob(v), ..*old(self) }),
    {
        self.i8_vnni_min_par_mnk = hold(v);
    }

    pub fn set_gemv_thread_cap(&mut self, v: usize)
        ensures
            *final(self) == (Tuning { gemv_thread_cap: knob(v), ..*old(self) }),
    {
        self.gemv_thread_cap = hold(v);
    }

    pub fn set_parallel_oversample(&mut self, v: usize)
        ensures
            *final(self) == (Tuning { parallel_oversample: knob(v), ..*old(self) }),
    {
        self.parallel_oversample = hold(v);
    }

    pub fn set_thread_dim_stride(&mut self, v: usize)
        ensures
            *final(self) == (Tuning { thread_dim_stride: knob(v), ..*old(self) }),
    {
        self.thread_dim_stride = hold(v);
    }

    pub fn set_k_stream_max(&mut self, v: usize)
        ensures
            *final(self) == (Tuning { k_stream_max: knob(v), ..*old(self) }),
    {
        self.k_stream_max = hold(v);
    }

    pub fn set_seq_internal_bytes_per_worker(&mut self, v: usize)
        ensures
            *final(self) == (Tuning { seq_internal_bytes_per_worker: knob(v), ..*old(self) }),
    {
        self.seq_internal_bytes_per_worker = hold(v);
    }

    pub fn set_packed_oversample(&mut self, v: usize)
        ensures
            *final(self) == (Tuning { packed_oversample: knob(v), ..*old(self) }),
    {
        self.packed_oversample = hold(v);
    }

    pub fn set_pack_transpose_tile(&mut self, v: usize)
        ensures
            *final(self) == (Tuning { pack_transpose_tile: knob(v), ..*old(self) }),
    {
        self.pack_transpose_tile = hold(v);
    }

    /// The depth ceiling of the small-matrix blocking for an element of `sizeof` bytes: the
    /// depth that keeps the panel bytes of a 4-byte element at [`Tuning::kc`], with elements
    /// wider than the target's cap taken at that width. At least 1.
    pub open spec fn tiny_kc_spec(self, sizeof: int) -> int {
        max_int(
            saturate(self.kc * 4) / max_int(min_int(sizeof, self.kc_sizeof_div_cap as int), 1),
            1,
        )
    }

    /// See [`Tuning::tiny_kc_spec`].
    pub fn tiny_kc(&self, sizeof: usize) -> (r: usize)
        ensures
            r == self.tiny_kc_spec(sizeof as int),
    {
        let budget: usize = saturating_mul(self.kc, 4);
        let width: usize = max_usize(min_usize(sizeof, self.kc_sizeof_div_cap), 1);
        max_usize(budget / width, 1)
    }
}

} // verus!
