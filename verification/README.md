# arm64jit

The translation half of an AArch64 -> x86-64 JIT, verified with Verus:
decoded AArch64 instructions in, x86-64 machine code and branch fixups out.

- `src/x86.rs` — `CodeBuf`, a byte buffer with one method per x86-64
  instruction form the translator emits. Each method's contract gives the
  exact bytes appended (`enc_*`); proof functions at the end of the file state
  what the encodings mean: ModRM/REX fields, the displacement of a memory
  operand, little-endian immediates, and that `patch_rel32` makes a jump land
  on its target.
- `src/machine.rs` — a model of the x86-64 instructions used by the helper
  sequences (registers, RFLAGS, a stack, byte memory), each instruction paired
  with the bytes the emitter writes for it.
- `src/translate.rs` — the helpers the translation of AArch64 instructions is
  built from: guest register loads and stores in the spilled `CpuState`,
  packing x86 flags into NZCV and back, the AArch64-to-x86 condition mapping,
  constant shifts of an operand, vector-register snapshots and scalar FP
  transfers. Each helper's contract names the instruction sequence it emits.
  `translate` lowers one decoded instruction: its contract gives the exact
  bytes appended (`inst_bytes`), the fixups recorded (`inst_fixups`), and
  which instructions it refuses, with the error text. What it needs of the
  host runtime (the supervisor-call dispatcher's address and the `CpuState`
  fields the run loop owns) comes in as a `HostLinks` value.
- `src/decode.rs` — `Inst`, the decoded instruction forms `translate`
  accepts: moves, add/sub (immediate, shifted, extended, with carry),
  logical operations, multiplies and divides, shifts and bitfield
  operations, conditional select and compare, loads and stores (immediate,
  indexed, register offset, pairs, exclusive, acquire/release, atomic, and
  the FP and vector forms), FP register moves, scalar FP arithmetic, FP
  compare and select, branches, SVC, system-register moves and the no-op
  and halting classes; scalar FP conversions, fused multiply-add, min/max
  and rounding; and the vector (NEON) forms listed below.
- `src/fp_ops.rs` — the scalar FP forms beyond the basic arithmetic:
  conversions between integers and FP (fixed-point too), half precision,
  fused multiply-add, absolute difference, min/max, pairwise and
  conditional compares.
- `src/simd_ops.rs`, `src/simd_lanes.rs` — the vector forms, lane by lane
  through general registers or whole through SSE: integer arithmetic,
  compares (register and against zero), halving, absolute-difference,
  widening, narrowing and accumulating forms, shifts, pairwise and
  across-lane reductions, permutes, table lookups, element moves and
  duplicates, population count, polynomial multiply.
- `src/vec_fp.rs`, `src/simd_sat.rs` — the vector floating-point forms
  (half precision included, compares, fused multiply-adds, rounding,
  estimates and conversions) and the saturating forms, variable shifts, long
  multiplies by element, two-register table lookups and LD1R.
- `src/vec_mem.rs` — the vector structure loads and stores (LD1–LD4,
  ST1–ST4).
- `src/laws.rs` — what those sequences compute: a guest register reads back
  the value stored to it, flags survive a store/load of NZCV, a conditional
  branch after that tests the AArch64 condition (all fourteen conditions
  other than AL and NV), a store of NZCV after a load keeps its four flag
  bits, floating-point compares produce the `fcmp` flags;
  and of translated instructions: MOVZ/MOVN/MOVK, ADR/ADRP, ADD/SUB
  immediate, ADD/SUB and AND/ORR/EOR (shifted register) write the expected
  value, CSEL/CSINC/CSINV/CSNEG select on the stored flags, SUBS/CMP and ADDS/CMN store
  the NZCV of the subtraction or addition (C in the borrow convention), loads and stores move the right bytes,
  LDADD returns the old value and stores the sum, BR sets the guest pc, the branches in an
  SVC's code land on its `ret`s or just past them, and
  each branch fixup names the zero rel32 field that ends the instruction's
  code.
- `src/arith_laws.rs` — what the translated X forms of MADD/MSUB, UMULH/SMULH,
  SMULL/UMULL/SMADDL/UMADDL/SMSUBL/UMSUBL, UDIV, ROR, EXTR,
  LSLV/LSRV/ASRV/RORV, UBFM and SBFM (with their aliases), ADC/SBC, ADD/SUB
  (extended register), REV and CLZ write, what the W form of ADD/SUB
  (shifted register) writes, and when CBZ/CBNZ and TBZ/TBNZ branch.
- `src/mem_laws.rs` — pre- and post-indexed loads and stores, LDP/STP and
  LDCLR/LDEOR/LDSET/SWP: the bytes moved, and the base moved by the offset.

`tests/` checks concrete encodings and runs the emitted sequences and
translated instructions on a small interpreter.
