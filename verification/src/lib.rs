//! The translation side of an AArch64-to-x86-64 JIT: a machine-code emitter,
//! the fixed helper sequences, and the per-instruction translation.
//!
//! - `x86`: the `CodeBuf` emitter. Every emitting method appends exactly the
//!   bytes of an `enc_*` spec function; the laws at its end say what those
//!   encodings mean (ModRM and REX fields, displacements, rel32 patching).
//! - `machine`: a model of the x86-64 instructions the helpers use, each with
//!   the bytes the emitter writes for it.
//! - `decode`: the decoded instruction forms.
//! - `translate`: guest-register access, NZCV packing and loading, the
//!   condition-code mapping, shifted operands, vector and scalar transfers,
//!   and `translate`, which lowers one decoded instruction.
//! - `fp_ops`: the scalar floating-point forms beyond the basic arithmetic.
//! - `simd_ops`: vector forms, lane by lane or whole through SSE.
//! - `simd_lanes`: vector compares, halving and absolute-difference forms,
//!   and element moves to general registers.
//! - `vec_fp`: the vector floating-point forms, half precision included.
//! - `simd_sat`: saturating vector forms, variable shifts, the long
//!   multiply by element, the multi-register table lookup and LD1R.
//! - `vec_mem`: the vector structure loads and stores.
//! - `laws`: what the helper sequences and translated instructions compute on
//!   the model.
//! - `arith_laws`: the same for the 64-bit multiply, divide, rotate, extract
//!   and variable-shift instructions.
//! - `mem_laws`: the same for the pre- and post-indexed loads and stores,
//!   the pairs and the atomic memory operations.
//! - `vec_laws`: the same for vector logical operations, scalar double
//!   arithmetic, vector floating-point compares and multi-register stores.
pub mod x86;
pub mod machine;
pub mod decode;
pub mod translate;
pub mod fp_ops;
pub mod simd_ops;
pub mod simd_lanes;
pub mod vec_fp;
pub mod simd_sat;
pub mod vec_mem;
pub mod laws;
pub mod arith_laws;
pub mod mem_laws;
pub mod vec_laws;
