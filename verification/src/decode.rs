//! Decoded AArch64 instructions: the integer, memory, scalar FP and
//! control-flow forms that `crate::translate::translate` lowers to x86-64.
//!
//! Register fields are 5-bit register numbers (31 is XZR or SP, as each form
//! says); `sf` selects the 64-bit (X) form over the 32-bit (W) one; branch
//! offsets are byte offsets from the instruction's own pc.
use vstd::prelude::*;
use crate::translate::ShiftKind;

verus! {

/// One decoded AArch64 instruction.
#[derive(Clone, Copy, Debug)]
pub enum Inst {
    /// MOVN (`opc == 2`), MOVK (`opc == 1`) or MOVZ (any other `opc`) of
    /// `imm16 << 16*hw`.
    MoveWide { rd: u8, imm16: u16, hw: u8, opc: u8, sf: bool },
    /// ADD/ADDS/SUB/SUBS (immediate), `imm12` optionally shifted left by 12.
    AddSubImm { rd: u8, rn: u8, imm12: u16, shift12: bool, sub: bool, s: bool, sf: bool },
    /// ADD/ADDS/SUB/SUBS (shifted register, or the extended form with
    /// `sp_operand`, where register 31 is SP).
    AddSubReg {
        rd: u8,
        rn: u8,
        rm: u8,
        sub: bool,
        s: bool,
        shift: ShiftKind,
        sh_amt: u8,
        sf: bool,
        sp_operand: bool,
    },
    /// ADD/ADDS/SUB/SUBS (extended register): `rm` extended by `opt`
    /// (UXTB .. SXTX) and shifted left by `shift`.
    AddSubExt { rd: u8, rn: u8, rm: u8, sub: bool, s: bool, sf: bool, opt: u8, shift: u8 },
    /// ADC/ADCS/SBC/SBCS.
    AddCarry { rd: u8, rn: u8, rm: u8, sf: bool, s: bool, sub: bool },
    /// AND/ORR/EOR (`op` 0..2) and BIC/ORN/EON (`op` 4..6), shifted register.
    LogicReg { rd: u8, rn: u8, rm: u8, op: u8, s: bool, shift: ShiftKind, sh_amt: u8, sf: bool },
    /// AND/ORR/EOR/ANDS (`op` 0..3) with a decoded bitmask immediate.
    LogicImm { rd: u8, rn: u8, mask: u64, op: u8, sf: bool },
    /// LDR/STR (unsigned scaled immediate) of `size` bytes at
    /// `x[rn] + imm * size`; `sext` for the sign-extending loads.
    LdStrImm { rt: u8, rn: u8, imm: u32, size: u8, ld: bool, sext: bool },
    /// LDR/STR with a signed 9-bit byte offset: pre-indexed (`writeback` and
    /// `pre`, access at `x[rn] + imm9`, then `x[rn] += imm9`), post-indexed
    /// (`writeback`, access at `x[rn]`, then the update) or unscaled.
    LdStrImmWb {
        rt: u8,
        rn: u8,
        imm9: i32,
        size: u8,
        ld: bool,
        sext: bool,
        writeback: bool,
        pre: bool,
    },
    /// LDAR/STLR of `1 << size` bytes at `x[rn]`.
    AcqRel { size: u8, ld: bool, rt: u8, rn: u8 },
    /// LDXR/STXR of `1 << size` bytes at `x[rn]`; a store writes the status
    /// register `rs`.
    LdExr { size: u8, ld: bool, rs: u8, rt: u8, rn: u8 },
    /// UMULH/SMULH: the high 64 bits of the 128-bit product.
    MulHigh { rd: u8, rn: u8, rm: u8, signed: bool },
    /// UDIV/SDIV (`div`), or MADD/MSUB (MSUB when `signed`) with the addend
    /// `ra` (31 is XZR).
    MulDiv { div: bool, signed: bool, rd: u8, rn: u8, rm: u8, ra: u8, sf: bool },
    /// SMULL/UMULL and the long multiply-accumulates: the 32-bit operands
    /// extended, multiplied, plus or (`sub`) minus `ra`.
    MulLong { rd: u8, rn: u8, rm: u8, ra: u8, signed: bool, sub: bool },
    /// UDIV/SDIV of the division instruction class.
    Div { rd: u8, rn: u8, rm: u8, signed: bool, is_x: bool },
    /// LSLV/LSRV/ASRV/RORV (`op` 0..3).
    VarShiftVar { rd: u8, rn: u8, rm: u8, op: u8, sf: bool },
    /// ROR (immediate).
    Ror { rd: u8, rn: u8, rot: u32, sf: bool },
    /// EXTR: `rn:rm` shifted right by `lsb`.
    Extr { rd: u8, rn: u8, rm: u8, lsb: u32, sf: bool },
    /// CSEL/CSINC/CSINV/CSNEG (`op` 0..3) on condition `cond`.
    CSel { rd: u8, rn: u8, rm: u8, cond: u8, op: u8, sf: bool },
    /// UBFM/SBFM (`arith`) and BFM (`insert`) with rotate `immr` and field
    /// end `imms`: the shift, extract, extend and insert aliases.
    BitField { rd: u8, rn: u8, immr: u32, imms: u32, sf: bool, arith: bool, insert: bool },
    /// CLZ, or CLS with `cls`.
    ClzCls { rd: u8, rn: u8, sf: bool, cls: bool },
    /// DC/IC cache maintenance; `zva` for DC ZVA, which zeroes the 16 bytes
    /// at `x[rt]`.
    CacheMaintain { zva: bool, rt: u8 },
    /// The MTE tag instructions: a tag load (`load`) reads tag 0 into `rt`;
    /// a writeback form (`wb`) advances `rn` by `wb_off`.
    MteTag { load: bool, rt: u8, rn: u8, wb: bool, wb_off: i64 },
    /// LDR/STR (register offset): `x[rn] + (ext(rm) << shift)`, with the
    /// index extension `index_ext` (2 UXTW, 1 UXTB, otherwise all 64 bits)
    /// and the shift by the access size when `shift`.
    LdStrReg { rt: u8, rn: u8, rm: u8, size: u8, ld: bool, shift: bool, sext: bool, index_ext: u8 },
    /// LDP/STP (and LDPSW with `sext`) of two registers at `x[rn] + imm`
    /// (pre-indexed with `preidx`, post-indexed with `writeback` alone, else
    /// a plain offset): 64-bit (`size_64`) or 32-bit general registers, or
    /// the D (`fp_d`), S (`fp_s`) or Q (`q128`) vector registers.
    LdStPair {
        rt: u8,
        rt2: u8,
        rn: u8,
        imm: i32,
        ld: bool,
        writeback: bool,
        preidx: bool,
        size_64: bool,
        q128: bool,
        fp_d: bool,
        fp_s: bool,
        sext: bool,
    },
    /// RBIT (`op` 0), REV16 (1), REV/REV32-in-W (2), REV32 (3).
    Rev { rd: u8, rn: u8, op: u8, sf: bool },
    /// LDR/STR of a Q register at `x[rn] + 16 * imm`.
    VecLdStImm { vt: u8, rn: u8, imm: u32, ld: bool },
    /// LDR/STR of a Q register at `x[rn] + x[rm]`.
    VecLdStrReg { vt: u8, rn: u8, rm: u8, ld: bool },
    /// LDUR/STUR of a Q register at `x[rn] + imm9`.
    VecLdStImmUnscaled { vt: u8, rn: u8, imm9: i32, ld: bool },
    /// LDR/STR of a Q register, pre-indexed (`pre`) or post-indexed by `imm9`.
    VecLdStIndexed { vt: u8, rn: u8, imm9: i32, ld: bool, pre: bool },
    /// LDUR/STUR of a B/H/S/D register (`size` bytes) at `x[rn] + imm9`.
    FpLdStImmUnscaled { vt: u8, rn: u8, imm9: i32, size: u8, ld: bool },
    /// LDR/STR of a B/H/S/D register, pre-indexed (`pre`) or post-indexed.
    FpLdStImmWb { vt: u8, rn: u8, imm9: i32, size: u8, ld: bool, pre: bool },
    /// LDR/STR of a B/H/S/D register at `x[rn] + imm * size`.
    FpLdStImm { vt: u8, rn: u8, imm: u32, size: u8, ld: bool },
    /// CCMP/CCMN (`cmn`) of `rn` with `rm` (`is_reg`) or `imm`: the flags
    /// of the comparison when `cond` holds, else the immediate `nzcv`.
    CcMp { rn: u8, rm: u8, imm: u8, nzcv: u8, cond: u8, cmn: bool, sf: bool, is_reg: bool },
    /// FMOV between a general register and the low 64 (`sz`), 32 or 16
    /// (`half`) bits of a vector register: to the general register when `f`.
    FmovGp { f: bool, sz: bool, half: bool, rd: u8, rn: u8 },
    /// FMOV of a D (`double`) or S register from the immediate bit pattern.
    FmovImm { rd: u8, double: bool, value_bits: u64 },
    /// FMOV of an H register from the immediate bit pattern.
    FmovImm16 { rd: u8, value_bits: u16 },
    /// FMOV between D (`sz`) or S registers.
    FmovFp { rd: u8, rn: u8, sz: bool },
    /// MOVI/MVNI (`kind` 0 or other), BIC (1) and ORR (2) vector immediates
    /// with the halves `lo` and `hi`.
    VecMovi { vd: u8, lo: u64, hi: u64, kind: u8 },
    /// FCMP of D (`sz`), S or H (`half`) registers, or against zero.
    FpCompare { rn: u8, rm: u8, against_zero: bool, sz: bool, half: bool },
    /// FCSEL of D (`sz`) or S registers on condition `cond`.
    FcsSel { rd: u8, rn: u8, rm: u8, cond: u8, sz: bool },
    /// LDADD/LDCLR/LDEOR/LDSET/SWP (`op` 0..4) of 64 (`size64`) or 32 bits at
    /// `x[rn]` with the operand `rs`, the old value to `rt`.
    LseAtomic { op: u8, size64: bool, rs: u8, rn: u8, rt: u8 },
    /// LDR/STR of a B/H/S/D register (`size` bytes) at
    /// `x[rn] + (ext(rm) << shift)`, extended and shifted as for `LdStrReg`.
    FpLdStrReg { vt: u8, rn: u8, rm: u8, size: u8, ld: bool, shift: bool, index_ext: u8 },
    /// Scalar FP on D (`sz`), S or H (`half`) registers: `op` 0 FMOV, 1 FABS,
    /// 2 FNEG (on the 64-bit pattern), 4 FMUL, 5 FADD, 6 FSUB, 7 FDIV.
    FpScalar { rd: u8, rn: u8, rm: u8, op: u8, sz: bool, half: bool },
    /// BRK: a guest breakpoint.
    Brk { imm: u16 },
    /// UDF: an undefined instruction.
    Udf { imm: u16 },
    /// NOP-class hints (including the PAC hints).
    Hint,
    /// DMB/DSB/ISB.
    WaitBarrier,
    /// SME state instructions that are no-ops with SME off.
    SmeNoop,
    /// ADDVL/ADDSVL: `rd = rn + imm_bytes` (the vector length already applied).
    AddVectorLen { rd: u8, rn: u8, imm_bytes: i64 },
    /// CNTD with the 16-byte vector length: `rd = 2`.
    SveCntd { rd: u8 },
    /// BR: branch to register.
    Br { rn: u8 },
    /// BLR: branch with link to register.
    Blr { rn: u8 },
    /// RET (to x30).
    Ret,
    /// B, or BL with `link`.
    B { imm: i64, link: bool },
    /// ADR: `rd = pc + imm`.
    Adr { rd: u8, imm: i64 },
    /// ADRP: `rd = (pc & !0xfff) + imm`.
    Adrp { rd: u8, imm: i64 },
    /// CBZ, or CBNZ with `nonzero`.
    Cbz { rt: u8, imm: i64, nonzero: bool },
    /// TBZ on bit `bit` of `rt`, or TBNZ with `nonzero`.
    Tbz { rt: u8, bit: u8, imm: i64, nonzero: bool },
    /// B.cond with the 4-bit condition `cond`.
    BCond { cond: u8, imm: i64 },
    /// SVC: a supervisor call, handed to the host dispatcher.
    Svc { imm: u16 },
    /// MRS (`read`) or MSR of system register `sysreg` through guest register
    /// `rt`: 0 TPIDR_EL0, 1 CNTFRQ_EL0, 3 CNTVCT_EL0, 4 NZCV, 5 DCZID_EL0,
    /// 6 GCSPR_EL0, 7 TPIDR2_EL0, 8 MIDR_EL1, 9 FPCR, 10 CTR_EL0; any other
    /// number is TPIDR_EL0.
    SysReg { sysreg: u8, rt: u8, read: bool },
    /// One-source scalar FP on a double (`sz`) or single: 0 FSQRT, 1 FRINTM,
    /// 2 FRINTP, 3 FRINTZ, 5 FABS, 6 FNEG, 7 FRINTA, 8 FRINTN, 9 FRINTX.
    FpUnary { rd: u8, rn: u8, op: u8, sz: bool },
    /// FABD (scalar): `|rn - rm|`.
    Fabd { rd: u8, rn: u8, rm: u8, sz: bool },
    /// FMAX/FMAXNM (`op` 4, 6) or FMIN/FMINNM (5, 7), scalar.
    FMaxMin { rd: u8, rn: u8, rm: u8, sz: bool, op: u8 },
    /// FMUL, or FNMUL with `neg`, scalar.
    FmulScalar { rd: u8, rn: u8, rm: u8, double: bool, neg: bool },
    /// FCVT single to double (`to_d`) or double to single.
    Fcvt { to_d: bool, rd: u8, rn: u8 },
    /// FCVT with a half: `op` 0 H to S, 1 S to H, 2 H to D, 3 D to H.
    FcvtHalf { rd: u8, rn: u8, op: u8 },
    /// FMADD, FMSUB (`sub`), FNMADD (`neg`), FNMSUB (both), scalar.
    Fma3 { rd: u8, rn: u8, rm: u8, ra: u8, sz: bool, sub: bool, neg: bool },
    /// FCVTZS/FCVTZU (`unsigned`) from D`rn` (`dbl`) or S`rn` into the
    /// same-size FP register.
    FcvtTzReg { rd: u8, rn: u8, dbl: bool, unsigned: bool },
    /// SCVTF/UCVTF (`unsigned`) of the 64-bit (`sf`) or 32-bit general
    /// register `rn` to a double (`to_double`) or single.
    Scvtf { rd: u8, rn: u8, to_double: bool, sf: bool, unsigned: bool },
    /// SCVTF/UCVTF with `fbits` fraction bits.
    ScvtfFixed { rd: u8, rn: u8, to_double: bool, sf: bool, unsigned: bool, fbits: u8 },
    /// UCVTF between FP registers, single (`sng`) or double.
    ScalarUcvtf { rd: u8, rn: u8, sng: bool },
    /// SCVTF between FP registers, single (`sng`) or double.
    ScalarScvtf { rd: u8, rn: u8, sng: bool },
    /// FMAXP/FMINP (`min`) of the two elements of V`rn`, double (`sz`) or
    /// single; `nm` marks the NaN-ignoring forms.
    FpPair { rd: u8, rn: u8, sz: bool, min: bool, nm: bool },
    /// FCVT{A,P,M,Z}{S,U} to a general register: `mode` 2 to nearest, 3
    /// toward +inf, 4 toward -inf, else toward zero; from a single
    /// (`src_sng`) or double, with `fbits` fraction bits.
    FcvtToInt { rd: u8, rn: u8, mode: u8, sf: bool, unsigned: bool, src_sng: bool, fbits: u8 },
    /// FCCMP: when `cond` holds NZCV is the compare of `rn` and `rm` (double
    /// with `sz`), else the immediate `nzcv`.
    FpCondCompare { rn: u8, rm: u8, nzcv: u8, cond: u8, sz: bool },
    /// MOV Vd.D[1], Vn.D[0].
    InsD1D0 { rd: u8, rn: u8 },
    /// ADD (`op` 0) or SUB (`op` 1) Vd.4S.
    Simd4s { rd: u8, rn: u8, rm: u8, op: u8 },
    /// ADD/SUB (`sub`) of byte lanes, 16B or 8B (`q` clear).
    SimdAddB { rd: u8, rn: u8, rm: u8, sub: bool, q: bool },
    /// ADD/SUB (`sub`) of halfword lanes, 8H or 4H (`q` clear).
    SimdAddH { rd: u8, rn: u8, rm: u8, sub: bool, q: bool },
    /// MVN Vd.16B.
    SimdNot { rd: u8, rn: u8 },
    /// DUP Vd.2D, Vn.D[index].
    SimdDupD { rd: u8, rn: u8, index: u8 },
    /// ADDP Dd, Vn.2D.
    SimdPairAddD { rd: u8, rn: u8, unsigned: bool },
    /// ADD/SUB (`sub`) Vd.2D.
    SimdAddD { rd: u8, rn: u8, rm: u8, sub: bool },
    /// ORR Vd.16B.
    SimdOrr16 { rd: u8, rn: u8, rm: u8 },
    /// MUL of `lanes` 32-bit lanes.
    SimdMul { rd: u8, rn: u8, rm: u8, lanes: u8 },
    /// MUL of `lanes` 16-bit lanes.
    SimdMulH { rd: u8, rn: u8, rm: u8, lanes: u8 },
    /// AND (`op` 0), EOR (1), ORR (2) or BIC (3) Vd.16B.
    SimdVLog { rd: u8, rn: u8, rm: u8, op: u8 },
    /// BIT, or BIF with `bif`.
    SimdBit { rd: u8, rn: u8, rm: u8, bif: bool },
    /// BSL (`op` 0) or the select of `rd` by `rm`.
    SimdSel { rd: u8, rn: u8, rm: u8, op: u8 },
    /// URHADD of `bytes` byte lanes.
    Urhadd { rd: u8, rn: u8, rm: u8, bytes: u8 },
    /// MOV Sd/Dd, Vn.T[index] of an `esize`-byte element.
    SimdLaneS { rd: u8, rn: u8, esize: u8, index: u8 },
    /// INS Vd.T[index], Rn of an `esize`-byte element.
    InsGp { rd: u8, rn: u8, esize: u8, index: u8 },
    /// UMOV/SMOV (`signed`) Wd/Xd (`is_x`), Vn.T[index].
    SimdMovEl { rd: u8, rn: u8, esize: u8, index: u8, signed: bool, is_x: bool },
    /// DUP Vd.T, Rn of `esize`-byte elements, 16 bytes (`q`) or 8.
    SimdDupGp { rd: u8, rn: u8, esize: u8, q: bool },
    /// CMHI of `lanes` 32-bit lanes.
    SimdCmhi { rd: u8, rn: u8, rm: u8, lanes: u8 },
    /// CMHS of `lanes` 32-bit lanes.
    SimdCmhs { rd: u8, rn: u8, rm: u8, lanes: u8 },
    /// CMHI Vd.2D.
    SimdCmhiD { rd: u8, rn: u8, rm: u8 },
    /// CMHS Vd.2D.
    SimdCmhsD { rd: u8, rn: u8, rm: u8 },
    /// CMHI of `lanes` 16-bit lanes.
    SimdCmhiH { rd: u8, rn: u8, rm: u8, lanes: u8 },
    /// CMHI, or CMHS with `ge`, of `lanes` byte lanes.
    SimdCmhiB { rd: u8, rn: u8, rm: u8, lanes: u8, ge: bool },
    /// CNT Vd.8B.
    SimdPopcnt { rd: u8, rn: u8 },
    /// UADDLV Hd, Vn.8B.
    SimdSum8 { rd: u8, rn: u8 },
    /// MLA/MLS (`sub`) of `lanes` 32-bit lanes.
    SimdMla { rd: u8, rn: u8, rm: u8, lanes: u8, sub: bool },
    /// MLA/MLS (`sub`) by the element `index` of `rm`.
    SimdMlaEl { rd: u8, rn: u8, rm: u8, index: u8, lanes: u8, sub: bool },
    /// SHL Vd.T, Vn.T, #shift of `esize`-byte lanes.
    SimdShl { rd: u8, rn: u8, esize: u8, shift: u8 },
    /// FMOV Vd.T, #imm of `esize`-byte elements.
    SimdFmovImm { rd: u8, esize: u8, value_bits: u64, q: bool },
    /// MOV Vd.T[dst_idx], Vn.T[src_idx].
    SimdInsD { rd: u8, rn: u8, dst_idx: u8, src_idx: u8, esize: u8 },
    /// CMTST of `lanes` `esize`-byte lanes.
    SimdCmTest { rd: u8, rn: u8, rm: u8, lanes: u8, esize: u8 },
    /// REV64/REV32/REV16 by the `granule` in bytes.
    SimdRev { rd: u8, rn: u8, granule: u8, q: bool },
    /// DUP Vd.T, Vn.T[src_idx].
    SimDup { rd: u8, rn: u8, esize: u8, src_idx: u8, q: bool },
    /// LD1 {Vt.T}, [Xn], #bytes (16 or 8).
    Ld1V { rd: u8, rn: u8, bytes: u8 },
    /// ST1 {Vt.T}, [Xn], #bytes (16 or 8).
    St1V { rd: u8, rn: u8, bytes: u8 },
    /// LD1 {Vt.T}[index], [Xn].
    Ld1L { rd: u8, rn: u8, esize: u8, index: u8 },
    /// LD1 of `nreg` consecutive registers, post-index `post`.
    Ld1N { rd: u8, rn: u8, nreg: u8, q: bool, post: u8 },
    /// ST1 of `nreg` consecutive registers, post-index `post`.
    St1N { rd: u8, rn: u8, nreg: u8, q: bool, post: u8 },
    /// LD2 {Vt, Vt2}, [Xn] of `esize`-byte elements.
    Ld2 { rd: u8, rn: u8, q: bool, post: u8, esize: u8 },
    /// ST2 {Vt, Vt2}, [Xn].
    St2 { rd: u8, rn: u8, q: bool, post: u8, esize: u8 },
    /// LD3 {Vt..Vt3}, [Xn].
    Ld3N { rd: u8, rn: u8, q: bool, post: u8, esize: u8 },
    /// ST3 {Vt..Vt3}, [Xn].
    St3N { rd: u8, rn: u8, q: bool, post: u8, esize: u8 },
    /// LD4 {Vt..Vt4}, [Xn].
    Ld4N { rd: u8, rn: u8, q: bool, post: u8, esize: u8 },
    /// ST4 {Vt..Vt4}, [Xn].
    St4N { rd: u8, rn: u8, q: bool, post: u8, esize: u8 },
    /// UZP1 of `esize`-byte elements, 16 bytes (`q`) or 8.
    SimdUz1 { rd: u8, rn: u8, rm: u8, esize: u8, q: bool },
    /// UZP2.
    SimdUz2 { rd: u8, rn: u8, rm: u8, esize: u8, q: bool },
    /// ZIP1.
    SimdZip1 { rd: u8, rn: u8, rm: u8, esize: u8, q: bool },
    /// ZIP2.
    SimdZip2 { rd: u8, rn: u8, rm: u8, esize: u8, q: bool },
    /// TRN1.
    SimdTrn1 { rd: u8, rn: u8, rm: u8, esize: u8, q: bool },
    /// TRN2.
    SimdTrn2 { rd: u8, rn: u8, rm: u8, esize: u8, q: bool },
    /// ADDV of `size`-byte elements.
    Addv { rd: u8, rn: u8, size: u8, q: bool },
    /// SMIN/SMAX/UMIN/UMAX (`max`, `unsigned`) of `esize`-byte lanes.
    SminMax { rd: u8, rn: u8, rm: u8, max: bool, unsigned: bool, esize: u8, q: bool },
    /// TBL, or TBX with `tbx`, over `n_tables` registers from `rn`.
    Tbl { rd: u8, rn: u8, rm: u8, tbx: bool, n_tables: u8 },
    /// XTN to `dst_esize`-byte lanes.
    SimdXtn { rd: u8, rn: u8, dst_esize: u8 },
    /// CMEQ over `lanes` lanes of `esize` bytes.
    SimdCmEq { rd: u8, rn: u8, rm: u8, lanes: u8, esize: u8 },
    /// CMGT, or CMGE with `ge`, over `lanes` signed lanes.
    SimdCmgt { rd: u8, rn: u8, rm: u8, lanes: u8, esize: u8, ge: bool },
    /// SHADD/UHADD of `esize`-byte lanes.
    SimdHadd { rd: u8, rn: u8, rm: u8, unsigned: bool, esize: u8, q: bool },
    /// SHSUB/UHSUB of `esize`-byte lanes.
    SimdHsub { rd: u8, rn: u8, rm: u8, unsigned: bool, esize: u8, q: bool },
    /// SABD/UABD (`signed`) of `esize`-byte lanes.
    SimdAbd { rd: u8, rn: u8, rm: u8, signed: bool, esize: u8, q: bool },
    /// UMOV/SMOV (`sign`) of element `index` to a W or X (`wide`) register.
    SimdLaneGp { rd: u8, rn: u8, esize: u8, index: u8, sign: bool, wide: bool },
    /// USHR/SSHR (`unsigned`) by `shift` on 16 bytes of `esize`-byte lanes.
    SimdShr { rd: u8, rn: u8, esize: u8, shift: u8, unsigned: bool },
    /// PMULL, or PMULL2 with `hi`, of 64-bit elements.
    Pmull1q { rd: u8, rn: u8, rm: u8, hi: bool },
    /// ADDP of `esize`-byte lanes.
    SimdAddp { rd: u8, rn: u8, rm: u8, esize: u8, q: bool },
    /// UXTL/SXTL (`sign`) of `esrc`-byte lanes, from the upper half with
    /// `upper`.
    SimdXtl { rd: u8, rn: u8, sign: bool, esrc: u8, upper: bool },
    /// NEG (`op` 0) or ABS of `esize`-byte lanes.
    SimdArithUnary { rd: u8, rn: u8, esize: u8, q: bool, op: u8 },
    /// SADDL/UADDL, or SSUBL/USUBL with `sub`, of `esrc`-byte lanes.
    SimdAddl { rd: u8, rn: u8, rm: u8, esrc: u8, sign: bool, sub: bool, upper: bool },
    /// SADDW/UADDW, or SSUBW/USUBW with `sub`, with `esrc`-byte narrow lanes.
    SimdAddw { rd: u8, rn: u8, rm: u8, sign: bool, esrc: u8, upper: bool, sub: bool },
    /// USRA/SSRA (`unsigned`) by `shift` on 16 bytes of `esize`-byte lanes.
    SimdShrAcc { rd: u8, rn: u8, esize: u8, shift: u8, unsigned: bool },
    /// CMEQ (`cond` 0), CMGT, CMGE, CMLT or CMLE (4) against zero.
    SimdCompareZero { rd: u8, rn: u8, esize: u8, q: bool, cond: u8 },
    /// SMAXP/SMINP/UMAXP/UMINP (`min`, `unsigned`) of `esize`-byte lanes.
    SimdMaxMinP { rd: u8, rn: u8, rm: u8, min: bool, unsigned: bool, esize: u8, q: bool },
    /// SMINV/SMAXV/UMINV/UMAXV (`signed`, `is_min`) of `size`-byte lanes.
    SimdReduceMinMax { rd: u8, rn: u8, size: u8, signed: bool, is_min: bool, q: bool },
    /// SHRN/RSHRN (`round`) by `shift` from `esrc`-byte lanes, into the upper
    /// half with `upper`.
    SimdShrn { rd: u8, rn: u8, esrc: u8, shift: u8, upper: bool, round: bool },
    /// EXT from byte `imm` of `rn:rm`, 16 bytes with `q`, else 8.
    SimdExt { rd: u8, rn: u8, rm: u8, imm: u8, q: bool },
    /// SHLL/SHLL2 (`upper`) to `dst_esize`-byte lanes, `nlanes` of them.
    WidenShl { rd: u8, rn: u8, dst_esize: u8, nlanes: u8, signed: bool, upper: bool },
    /// SADDLP/UADDLP, or SADALP/UADALP with `acc`, over `n_pairs` pairs.
    SimdAdalp { rd: u8, rn: u8, src_esize: u8, n_pairs: u8, signed: bool, upper: bool, acc: bool },
    /// SMULL/UMULL (`unsigned`) to `res_esize`-byte lanes, SMLAL/UMLAL with
    /// `acc`, SMLSL/UMLSL with `acc` and `sub`; from the upper half with `q`.
    SimdMull { rd: u8, rn: u8, rm: u8, res_esize: u8, unsigned: bool, q: bool, acc: bool, sub: bool },
    /// SQXTN/UQXTN/SQXTUN to `dst_esize`-byte lanes (`src_signed`,
    /// `dst_signed`).
    SaturatNarrow { rd: u8, rn: u8, dst_esize: u8, src_signed: bool, dst_signed: bool, q: bool },
    /// ADDHN/SUBHN (`sub`), RADDHN/RSUBHN with `round`, to `dst_esize`-byte
    /// lanes, into the upper half with `q`.
    SimdHighNarrow { rd: u8, rn: u8, rm: u8, dst_esize: u8, sub: bool, round: bool, q: bool },
    /// FNEG (`op` 0), FABS (1) or FSQRT (2) of `esize`-byte lanes.
    SimdFpUnary { rd: u8, rn: u8, op: u8, esize: u8, q: bool },
    /// 32-bit vector FP arithmetic `op`: FADD, FSUB, FMUL, FDIV, FMAX,
    /// FMIN, FRECPS (8), FRSQRTS (9).
    VecFpArith { rd: u8, rn: u8, rm: u8, op: u8, q: bool },
    /// FMAXV/FMINV (`min`) over four singles.
    FMaxV { rd: u8, rn: u8, min: bool },
    /// FMLA/FMLS (`sub`) of doubles (`el64`) or singles.
    Fmla { rd: u8, rn: u8, rm: u8, el64: bool, q: bool, sub: bool },
    /// FMLA/FMLS by element `idx` of `vlm`.
    FmlaEl { rd: u8, rn: u8, vlm: u8, idx: u8, el64: bool, q: bool, sub: bool },
    /// FCMEQ/FCMGT/FCMGE (`op`) of `esize`-byte lanes.
    VecFpCompare { rd: u8, rn: u8, rm: u8, esize: u8, op: u8, q: bool },
    /// FP compare against zero (`op`) of `esize`-byte lanes.
    VecFpCompareZero { rd: u8, rn: u8, op: u8, esize: u8, q: bool },
    /// FADDP/FMAXP/FMINP (vector) of singles (`nm`: the NaN-ignoring forms).
    SimdFpPair3 { rd: u8, rn: u8, rm: u8, add: bool, min: bool, nm: bool, q: bool },
    /// Arithmetic `op` on two doubles.
    Simd2dFp { rd: u8, rn: u8, rm: u8, op: u8 },
    /// FRINTN/M/P/Z/A (`mode` 0..4) of `esize`-byte lanes.
    SimdFrint { rd: u8, rn: u8, mode: u8, esize: u8, q: bool },
    /// FRECPE, or FRSQRTE with `sqrt`, of `esize`-byte lanes.
    SimdFreFrsqrte { rd: u8, rn: u8, sqrt: bool, esize: u8, q: bool },
    /// FMUL by element `index` of `rm`.
    SimdFmulEl { rd: u8, rn: u8, rm: u8, esize: u8, index: u8, q: bool },
    /// Half-precision arithmetic `op` (FMLA 8, FMLS 9).
    SimdFp16As { rd: u8, rn: u8, rm: u8, op: u8, q: bool },
    /// Half-precision FMLA/FMLS/FMUL (`op`) by element `idx` of `vlm`.
    SimdFp16BEl { rd: u8, rn: u8, vlm: u8, idx: u8, op: u8, q: bool },
    /// Half-precision FCMEQ/FCMGE/FCMGT (`op`) of two registers.
    SimdFp16Compare { rd: u8, rn: u8, rm: u8, op: u8, q: bool },
    /// Half-precision compare against zero (`op`).
    SimdFp16CompareZero { rd: u8, rn: u8, op: u8, q: bool },
    /// FCVTZS/FCVTZU (`signed`) of `esize`-byte lanes.
    FcvVec { rd: u8, rn: u8, signed: bool, esize: u8, q: bool },
    /// SCVTF/UCVTF (`signed`) of `esize`-byte lanes.
    VecIntToFp { rd: u8, rn: u8, esize: u8, signed: bool, q: bool },
    /// FP to integer (vector) of `esize`-byte lanes, rounding `mode`.
    SimdFpToInt { rd: u8, rn: u8, unsigned: bool, esize: u8, q: bool, mode: u8 },
    /// UCVTF of two 64-bit lanes.
    Ucvtf2d { rd: u8, rn: u8 },
    /// SCVTF/UCVTF (`unsigned`) of 16-bit lanes to halves.
    SimdI2Fp16 { rd: u8, rn: u8, unsigned: bool, q: bool },
    /// FCVTL/FCVTL2 (`upper`) from halves (`half`) or singles.
    VecFcvtl { rd: u8, rn: u8, upper: bool, half: bool },
    /// FCVTN/FCVTN2 (`upper`) from two doubles.
    VecFcvtn { rd: u8, rn: u8, upper: bool },
    /// SQADD/UQADD, or SQSUB/UQSUB with `sub`, of `esize`-byte lanes.
    SimdSatAdd { rd: u8, rn: u8, rm: u8, esize: u8, sub: bool, unsigned: bool, q: bool },
    /// SQSHL (`sat` 0), UQSHL (1) or SQSHLU (2) by `shift`.
    SimdSatShl { rd: u8, rn: u8, esize: u8, shift: u8, sat: u8 },
    /// SQSHRN/UQSHRN/SQSHRUN by `shift` from `src_esize` to `dst_esize` bytes.
    SatNarrowShift { rd: u8, rn: u8, src_esize: u8, dst_esize: u8, shift: u8, src_signed: bool, dst_signed: bool, q: bool },
    /// SMULL/UMULL by element `index` of `rm`, accumulating with `acc`.
    SimdMullEl { rd: u8, rn: u8, rm: u8, index: u8, res_esize: u8, unsigned: bool, q: bool, acc: bool, sub: bool },
    /// SSHL/USHL (`signed_`), SRSHL/URSHL with `rounding`, by the counts of `rm`.
    SimdVShift { rd: u8, rn: u8, rm: u8, esize: u8, signed_: bool, q: bool, rounding: bool },
    /// TBL, or TBX with `tbx`, over `len2 + 1` registers from `rn`.
    SimdTbl { rd: u8, rn: u8, rm: u8, len2: u8, tbx: bool, q: bool },
    /// LD1R of an `esize`-byte element at `x[rn]`.
    Ld1 { rd: u8, rn: u8, esize: u8, q: bool },
    /// SHA1/SHA256 operation `mode`, done by the host helper.
    Sha { mode: u8, rd: u8, rn: u8, rm: u8 },
}

} // verus!
