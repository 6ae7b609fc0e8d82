# gemmkit

General matrix multiply, `C <- alpha*A*B + beta*C`, over strided views, written and proved in
[Verus](https://github.com/verus-lang/verus).

Every entry has a contract that says when it succeeds, which error it returns otherwise, what each
element of C then holds, and that nothing outside C's view has changed.

| What | Where |
| --- | --- |
| Views and their checks | `src/api.rs`, `src/adapter.rs` |
| Plain products | `src/gemm.rs`, `src/homog.rs`, `src/dispatch.rs` |
| Integer and requantizing products | `src/gemm_i8.rs`, `src/integer.rs`, `src/requant.rs`, `src/quantize.rs` |
| Complex products | `src/complex.rs` |
| Bias, activation, per-element map | `src/fused.rs`, `src/map.rs` |
| Prepacked operands | `src/prepack.rs`, `src/packed.rs`, `src/packed_gemm.rs` |
| Batches | `src/batched.rs` |
| The blocked driver | `src/driver.rs`, `src/plan.rs`, `src/panel.rs`, `src/product.rs`, `src/kernel.rs` |
| Caches, blocking, tuning, kernels | `src/cache.rs`, `src/tuning.rs`, `src/isa.rs` |
| The machine from its readings | `src/probes.rs`, `src/cpuid.rs`, `src/sysfs.rs`, `src/sysctl.rs` |
| Laws across the entries | `src/laws.rs`, `src/calls.rs`, `src/exact.rs`, `src/limits.rs` |
| Drivers for fuzzing | `src/fuzz/` |

Element types are open: a type implements `GemmScalar` (or `ComplexScalar`) and the engine runs it.
The library itself implements them for wrapping `i32` and for complex numbers with wrapping `i32`
parts, and proves that their products are exact. Contracts fix the order of the operations, so they
also say what a type that rounds gets.

`app/` puts the library on the machine at hand: it reads the caches and the processor's features,
implements the element types for `f32`, `f64`, `f16`, `bf16` and complex floats, and offers entries
that panic instead of returning an error, and entries over raw pointers.

```rust
use gemmkit::{gemm, MatMut, MatRef, Parallelism};

let a = [1, 2, 3, 4, 5, 6];
let b = [7, 8, 9, 10, 11, 12];
let mut c = [0; 4];
gemm(
    1,
    MatRef::from_row_major(&a, 2, 3),
    MatRef::from_row_major(&b, 3, 2),
    0,
    MatMut::from_row_major(&mut c, 2, 2),
    Parallelism::Serial,
)
.unwrap();
assert_eq!(c, [58, 64, 139, 154]);
```
