//! Building blocks of the per-instruction AArch64 -> x86-64 translation.
//!
//! Guest registers live in a spilled `CpuState` whose address the translated
//! prologue keeps in RBX: guest register `g` is the quadword `[RBX + 8*g]`,
//! the packed NZCV word is at `[RBX + 264]` and the 16-byte vector registers
//! start at `[RBX + 272]`. Each helper here emits a fixed x86-64 sequence; its
//! contract names that sequence as a program of `crate::machine::Op`s.
use vstd::prelude::*;
use crate::machine::{
    emitted_nth, lemma_prog_bytes_concat, lemma_take_all, op_bytes, prog_bytes, sext32, AluOp, Op,
    ShiftOp,
};
use crate::decode::Inst;
use crate::x86::{
    enc_ari_imm, enc_ari_imm32, enc_binop, enc_binop32, enc_bswap, enc_cmov_rr64, enc_grp3,
    enc_grp3_sized,
    enc_mov_load64, enc_mov_ri64, enc_mov_rr64, enc_mov_store64, enc_shift32_ri8, enc_shift_cl,
    enc_shift_ri8,
    enc_zero_ext_r32, le32, mem_base_ok, modrm_byte, opt, rel32_disp, rex_w, splice, CodeBuf, RAX,
    RBX, RCX, RDI, RDX, R10, RSP, RSI, enc_mov_load32, enc_mov_store32, enc_call_r64,
};

verus! {

/// Byte offset of `CpuState.nzcv`, the packed N/Z/C/V word (bits 31..28),
/// right after the 32 guest registers and the pc.
pub const NZCV_OFF: i32 = 264;

/// Byte offset of the first 16-byte guest vector register in `CpuState`.
pub const VECTOR_BASE: i32 = 272;

/// Byte offset of the two 16-byte scratch slots (at 0x800 and 0x810) that
/// hold a snapshot of a permute source.
pub const PERMSCRATCH_OFF: i32 = 0x800;

/// The shift applied to the second operand of a shifted-register instruction.
#[derive(Clone, Copy, PartialEq, Eq, Debug)]
pub enum ShiftKind {
    Lsl,
    Lsr,
    Asr,
    Ror,
}

/// A branch whose target is resolved once the buffer is laid out: the guest
/// target pc and the byte offset of the rel32 displacement field.
#[derive(Debug, Clone, Copy)]
pub struct Fixup {
    pub target_pc: u64,
    pub disp_off: usize,
    /// The x86 jcc condition byte (0x84 = JZ), 0xff for an unconditional
    /// `jmp` (E9), or 0xfe for the `call` (E8) of a BL.
    pub cc: u8,
}

/// A guest register whose slot offset `8*g` fits the 32-bit displacement.
pub open spec fn slot_ok(g: u32) -> bool {
    i32::MIN <= (g as i32) * 8 <= i32::MAX
}

/// Byte offset of guest register `g` inside `CpuState`.
pub open spec fn slot_of(g: u32) -> i32 {
    ((g as i32) * 8) as i32
}

/// Byte offset of guest register `g` inside `CpuState` (`x[g]` at `8*g`).
pub fn slot(g: u32) -> (off: i32)
    requires
        slot_ok(g),
    ensures
        off == slot_of(g),
{
    (g as i32) * 8
}

/// `mov x, [RBX + 8*g]`
pub open spec fn ldg_prog(x: u8, g: u32) -> Seq<Op> {
    seq![Op::Load64(x, RBX, slot_of(g))]
}

/// `mov [RBX + 8*g], x`
pub open spec fn stg_prog(g: u32, x: u8) -> Seq<Op> {
    seq![Op::Store64(RBX, slot_of(g), x)]
}

/// Load guest register `g` into x86 register `x`.
pub fn ldg(buf: &mut CodeBuf, x: u8, g: u32)
    requires
        slot_ok(g),
    ensures
        final(buf)@ == old(buf)@ + prog_bytes(ldg_prog(x, g)),
{
    let ghost start = buf@;
    let ghost prog = ldg_prog(x, g);
    buf.mov_load64(x, RBX, slot(g));
    proof {
        emitted_nth(start, prog, 0, buf@);
        lemma_take_all(prog);
    }
}

/// Store x86 register `x` into guest register `g`.
pub fn stg(buf: &mut CodeBuf, g: u32, x: u8)
    requires
        slot_ok(g),
    ensures
        final(buf)@ == old(buf)@ + prog_bytes(stg_prog(g, x)),
{
    let ghost start = buf@;
    let ghost prog = stg_prog(g, x);
    buf.mov_store64(RBX, slot(g), x);
    proof {
        emitted_nth(start, prog, 0, buf@);
        lemma_take_all(prog);
    }
}

/// `mov rax, 0; mov [RBX + 8*g], rax`
pub open spec fn stg0_prog(g: u32) -> Seq<Op> {
    seq![Op::MovImm64(RAX, 0), Op::Store64(RBX, slot_of(g), RAX)]
}

/// Write 0 to guest register `g`.
pub fn stg0(buf: &mut CodeBuf, g: u32)
    requires
        slot_ok(g),
    ensures
        final(buf)@ == old(buf)@ + prog_bytes(stg0_prog(g)),
{
    let ghost start = buf@;
    let ghost prog = stg0_prog(g);
    buf.mov_ri64(RAX, 0);
    proof {
        emitted_nth(start, prog, 0, buf@);
    }
    buf.mov_store64(RBX, slot(g), RAX);
    proof {
        emitted_nth(start, prog, 1, buf@);
        lemma_take_all(prog);
    }
}

/// RAX = the value a store's source field `g` names: zero for 31 (XZR),
/// else guest register `g`.
pub open spec fn ldg_src_prog(g: u32) -> Seq<Op> {
    if g == 31 {
        seq![Op::MovImm64(RAX, 0)]
    } else {
        seq![Op::Load64(RAX, RBX, slot_of(g))]
    }
}

/// Load guest register `g` into RAX as the value of a store. The source field
/// of an AArch64 store reads register 31 as XZR (zero), never SP: `str xzr`
/// stores 0. An addressing base (where 31 is SP) goes through `ldg` instead.
pub fn ldg_src(buf: &mut CodeBuf, g: u32)
    requires
        slot_ok(g),
    ensures
        final(buf)@ == old(buf)@ + prog_bytes(ldg_src_prog(g)),
{
    let ghost start = buf@;
    let ghost prog = ldg_src_prog(g);
    if g == 31 {
        buf.mov_ri64(RAX, 0);  // XZR reads as zero
    } else {
        buf.mov_load64(RAX, RBX, slot(g));
    }
    proof {
        emitted_nth(start, prog, 0, buf@);
        lemma_take_all(prog);
    }
}

/// Store RAX into guest register `g`, or nothing when `g` is 31.
pub open spec fn stg_if_writable_prog(g: u32) -> Seq<Op> {
    if g != 31 {
        seq![Op::Store64(RBX, slot_of(g), RAX)]
    } else {
        Seq::empty()
    }
}

/// Store RAX into guest register `g` after a load, unless `g` is 31: a load
/// into XZR discards the value and must not write the SP slot.
pub fn stg_if_writable(buf: &mut CodeBuf, g: u32)
    requires
        slot_ok(g),
    ensures
        final(buf)@ == old(buf)@ + prog_bytes(stg_if_writable_prog(g)),
{
    let ghost start = buf@;
    let ghost prog = stg_if_writable_prog(g);
    if g != 31 {
        buf.mov_store64(RBX, slot(g), RAX);
        proof {
            emitted_nth(start, prog, 0, buf@);
            lemma_take_all(prog);
        }
    } else {
        proof {
            assert(start + prog_bytes(prog) =~= start);
        }
    }
}

/// `shl r, 32; shr r, 32`
pub open spec fn zext_w_prog(r: u8) -> Seq<Op> {
    seq![Op::ShiftRI(ShiftOp::Shl, r, 32), Op::ShiftRI(ShiftOp::Shr, r, 32)]
}

/// Zero-extend the low 32 bits of x86 register `r` into its upper half: an
/// AArch64 write of a W register clears the upper 32 bits of the X register.
pub fn zext_w(buf: &mut CodeBuf, r: u8)
    ensures
        final(buf)@ == old(buf)@ + prog_bytes(zext_w_prog(r)),
{
    let ghost start = buf@;
    let ghost prog = zext_w_prog(r);
    buf.shl_ri8(r, 32);
    proof {
        emitted_nth(start, prog, 0, buf@);
    }
    buf.shr_ri8(r, 32);
    proof {
        emitted_nth(start, prog, 1, buf@);
        lemma_take_all(prog);
    }
}

/// The sequence that packs the live x86 flags into `CpuState.nzcv`.
pub open spec fn store_nzcv_prog() -> Seq<Op> {
    seq![
        Op::Push(RAX),
        Op::Push(RCX),
        Op::Push(RDX),
        Op::Pushfq,
        Op::Pop(RAX),
        Op::AluRR(AluOp::Xor, RDX, RDX),
        Op::MovRR(RCX, RAX),
        Op::AluRI(AluOp::And, RCX, 1),
        Op::ShiftRI(ShiftOp::Shl, RCX, 29),
        Op::AluRR(AluOp::Or, RDX, RCX),
        Op::MovRR(RCX, RAX),
        Op::ShiftRI(ShiftOp::Shr, RCX, 11),
        Op::AluRI(AluOp::And, RCX, 1),
        Op::ShiftRI(ShiftOp::Shl, RCX, 28),
        Op::AluRR(AluOp::Or, RDX, RCX),
        Op::MovRR(RCX, RAX),
        Op::ShiftRI(ShiftOp::Shr, RCX, 6),
        Op::AluRI(AluOp::And, RCX, 1),
        Op::ShiftRI(ShiftOp::Shl, RCX, 30),
        Op::AluRR(AluOp::Or, RDX, RCX),
        Op::MovRR(RCX, RAX),
        Op::ShiftRI(ShiftOp::Shr, RCX, 7),
        Op::AluRI(AluOp::And, RCX, 1),
        Op::ShiftRI(ShiftOp::Shl, RCX, 31),
        Op::AluRR(AluOp::Or, RDX, RCX),
        Op::Store32(RBX, NZCV_OFF, RDX),
        Op::Pop(RDX),
        Op::Pop(RCX),
        Op::Pop(RAX),
    ]
}

/// Convert the live x86 status flags (CF/ZF/SF/OF of the last arithmetic
/// instruction) into a packed AArch64 NZCV word (N bit 31, Z 30, C 29, V 28)
/// stored at `CpuState.nzcv`. RAX/RCX/RDX are saved and restored. Must run
/// right after the flag-setting instruction.
#[verifier::spinoff_prover]
#[verifier::rlimit(100)]
pub fn store_nzcv(buf: &mut CodeBuf)
    ensures
        final(buf)@ == old(buf)@ + prog_bytes(store_nzcv_prog()),
{
    let ghost start = buf@;
    let ghost prog = store_nzcv_prog();
    buf.push(RAX);
    proof {
        emitted_nth(start, prog, 0, buf@);
    }
    buf.push(RCX);
    proof {
        emitted_nth(start, prog, 1, buf@);
    }
    buf.push(RDX);
    proof {
        emitted_nth(start, prog, 2, buf@);
    }
    buf.pushfq();
    proof {
        emitted_nth(start, prog, 3, buf@);
    }
    buf.pop(RAX);
    proof {
        emitted_nth(start, prog, 4, buf@);
    }
    // eax = rflags: CF bit 0, ZF bit 6, SF bit 7, OF bit 11
    buf.xor_rr64(RDX, RDX);
    proof {
        emitted_nth(start, prog, 5, buf@);
    }
    // C = CF -> nzcv bit 29
    buf.mov_rr64(RCX, RAX);
    proof {
        emitted_nth(start, prog, 6, buf@);
    }
    buf.and_ri64(RCX, 1);
    proof {
        emitted_nth(start, prog, 7, buf@);
    }
    buf.shl_ri8(RCX, 29);
    proof {
        emitted_nth(start, prog, 8, buf@);
    }
    buf.or_rr64(RDX, RCX);
    proof {
        emitted_nth(start, prog, 9, buf@);
    }
    // V = OF -> nzcv bit 28
    buf.mov_rr64(RCX, RAX);
    proof {
        emitted_nth(start, prog, 10, buf@);
    }
    buf.shr_ri8(RCX, 11);
    proof {
        emitted_nth(start, prog, 11, buf@);
    }
    buf.and_ri64(RCX, 1);
    proof {
        emitted_nth(start, prog, 12, buf@);
    }
    buf.shl_ri8(RCX, 28);
    proof {
        emitted_nth(start, prog, 13, buf@);
    }
    buf.or_rr64(RDX, RCX);
    proof {
        emitted_nth(start, prog, 14, buf@);
    }
    // Z = ZF -> nzcv bit 30
    buf.mov_rr64(RCX, RAX);
    proof {
        emitted_nth(start, prog, 15, buf@);
    }
    buf.shr_ri8(RCX, 6);
    proof {
        emitted_nth(start, prog, 16, buf@);
    }
    buf.and_ri64(RCX, 1);
    proof {
        emitted_nth(start, prog, 17, buf@);
    }
    buf.shl_ri8(RCX, 30);
    proof {
        emitted_nth(start, prog, 18, buf@);
    }
    buf.or_rr64(RDX, RCX);
    proof {
        emitted_nth(start, prog, 19, buf@);
    }
    // N = SF -> nzcv bit 31
    buf.mov_rr64(RCX, RAX);
    proof {
        emitted_nth(start, prog, 20, buf@);
    }
    buf.shr_ri8(RCX, 7);
    proof {
        emitted_nth(start, prog, 21, buf@);
    }
    buf.and_ri64(RCX, 1);
    proof {
        emitted_nth(start, prog, 22, buf@);
    }
    buf.shl_ri8(RCX, 31);
    proof {
        emitted_nth(start, prog, 23, buf@);
    }
    buf.or_rr64(RDX, RCX);
    proof {
        emitted_nth(start, prog, 24, buf@);
    }
    buf.mov_store32(RBX, NZCV_OFF, RDX);
    proof {
        emitted_nth(start, prog, 25, buf@);
    }
    buf.pop(RDX);
    proof {
        emitted_nth(start, prog, 26, buf@);
    }
    buf.pop(RCX);
    proof {
        emitted_nth(start, prog, 27, buf@);
    }
    buf.pop(RAX);
    proof {
        emitted_nth(start, prog, 28, buf@);
    }
    proof {
        lemma_take_all(prog);
    }
}

/// The sequence that packs the flags of a `comisd`/`comiss` into `CpuState.nzcv`.
pub open spec fn store_nzcv_fp_prog() -> Seq<Op> {
    seq![
        Op::Push(RAX),
        Op::Push(RCX),
        Op::Push(RDX),
        Op::Pushfq,
        Op::Pop(RAX),
        Op::AluRR(AluOp::Xor, RDX, RDX),
        Op::MovRR(RCX, RAX),
        Op::ShiftRI(ShiftOp::Shr, RCX, 2),
        Op::AluRI(AluOp::And, RCX, 1),
        Op::ShiftRI(ShiftOp::Shl, RCX, 28),
        Op::AluRR(AluOp::Or, RDX, RCX),
        Op::MovRR(RCX, RAX),
        Op::AluRI(AluOp::And, RCX, 1),
        Op::MovRR(RDI, RAX),
        Op::ShiftRI(ShiftOp::Shr, RDI, 2),
        Op::AluRI(AluOp::And, RDI, 1),
        Op::AluRI(AluOp::Xor, RDI, 1),
        Op::AluRR(AluOp::And, RCX, RDI),
        Op::ShiftRI(ShiftOp::Shl, RCX, 29),
        Op::AluRR(AluOp::Or, RDX, RCX),
        Op::MovRR(RCX, RAX),
        Op::ShiftRI(ShiftOp::Shr, RCX, 6),
        Op::AluRI(AluOp::And, RCX, 1),
        Op::MovRR(RDI, RAX),
        Op::ShiftRI(ShiftOp::Shr, RDI, 2),
        Op::AluRI(AluOp::And, RDI, 1),
        Op::AluRI(AluOp::Xor, RDI, 1),
        Op::AluRR(AluOp::And, RCX, RDI),
        Op::ShiftRI(ShiftOp::Shl, RCX, 30),
        Op::AluRR(AluOp::Or, RDX, RCX),
        Op::MovRR(RCX, RAX),
        Op::AluRI(AluOp::And, RCX, 1),
        Op::MovRR(RDI, RAX),
        Op::ShiftRI(ShiftOp::Shr, RDI, 6),
        Op::AluRI(AluOp::And, RDI, 1),
        Op::AluRI(AluOp::Xor, RDI, 1),
        Op::AluRR(AluOp::And, RCX, RDI),
        Op::ShiftRI(ShiftOp::Shl, RCX, 31),
        Op::AluRR(AluOp::Or, RDX, RCX),
        Op::Store32(RBX, NZCV_OFF, RDX),
        Op::Pop(RDX),
        Op::Pop(RCX),
        Op::Pop(RAX),
    ]
}

/// Pack the result of a floating-point compare (the x86 flags of a `comisd`
/// or `comiss`) into `CpuState.nzcv`: V = PF (unordered), C = CF && !PF in
/// the borrow sense used by the condition mapping, Z = ZF && !PF (NaN never
/// compares equal), N = CF && !ZF (ordered less-than). RAX/RCX/RDX are saved
/// and restored; RDI is clobbered.
#[verifier::spinoff_prover]
#[verifier::rlimit(100)]
pub fn store_nzcv_fp(buf: &mut CodeBuf)
    ensures
        final(buf)@ == old(buf)@ + prog_bytes(store_nzcv_fp_prog()),
{
    let ghost start = buf@;
    let ghost prog = store_nzcv_fp_prog();
    buf.push(RAX);
    proof {
        emitted_nth(start, prog, 0, buf@);
    }
    buf.push(RCX);
    proof {
        emitted_nth(start, prog, 1, buf@);
    }
    buf.push(RDX);
    proof {
        emitted_nth(start, prog, 2, buf@);
    }
    buf.pushfq();
    proof {
        emitted_nth(start, prog, 3, buf@);
    }
    buf.pop(RAX);
    proof {
        emitted_nth(start, prog, 4, buf@);
    }
    // eax = rflags: CF bit 0, PF bit 2, ZF bit 6
    buf.xor_rr64(RDX, RDX);
    proof {
        emitted_nth(start, prog, 5, buf@);
    }
    // V = PF -> bit 28
    buf.mov_rr64(RCX, RAX);
    proof {
        emitted_nth(start, prog, 6, buf@);
    }
    buf.shr_ri8(RCX, 2);
    proof {
        emitted_nth(start, prog, 7, buf@);
    }
    buf.and_ri64(RCX, 1);
    proof {
        emitted_nth(start, prog, 8, buf@);
    }
    buf.shl_ri8(RCX, 28);
    proof {
        emitted_nth(start, prog, 9, buf@);
    }
    buf.or_rr64(RDX, RCX);
    proof {
        emitted_nth(start, prog, 10, buf@);
    }
    // C = CF && !PF -> bit 29, in the borrow sense that the condition codes expect
    buf.mov_rr64(RCX, RAX);
    proof {
        emitted_nth(start, prog, 11, buf@);
    }
    buf.and_ri64(RCX, 1);
    proof {
        emitted_nth(start, prog, 12, buf@);
    }
    buf.mov_rr64(RDI, RAX);
    proof {
        emitted_nth(start, prog, 13, buf@);
    }
    buf.shr_ri8(RDI, 2);
    proof {
        emitted_nth(start, prog, 14, buf@);
    }
    buf.and_ri64(RDI, 1);
    proof {
        emitted_nth(start, prog, 15, buf@);
    }
    buf.xor_ri64(RDI, 1);
    proof {
        emitted_nth(start, prog, 16, buf@);
    }
    buf.and_rr64(RCX, RDI);
    proof {
        emitted_nth(start, prog, 17, buf@);
    }
    buf.shl_ri8(RCX, 29);
    proof {
        emitted_nth(start, prog, 18, buf@);
    }
    buf.or_rr64(RDX, RCX);
    proof {
        emitted_nth(start, prog, 19, buf@);
    }
    // Z = ZF && !PF -> bit 30: an unordered compare is never equal
    buf.mov_rr64(RCX, RAX);
    proof {
        emitted_nth(start, prog, 20, buf@);
    }
    buf.shr_ri8(RCX, 6);
    proof {
        emitted_nth(start, prog, 21, buf@);
    }
    buf.and_ri64(RCX, 1);
    proof {
        emitted_nth(start, prog, 22, buf@);
    }
    buf.mov_rr64(RDI, RAX);
    proof {
        emitted_nth(start, prog, 23, buf@);
    }
    buf.shr_ri8(RDI, 2);
    proof {
        emitted_nth(start, prog, 24, buf@);
    }
    buf.and_ri64(RDI, 1);
    proof {
        emitted_nth(start, prog, 25, buf@);
    }
    buf.xor_ri64(RDI, 1);
    proof {
        emitted_nth(start, prog, 26, buf@);
    }
    buf.and_rr64(RCX, RDI);
    proof {
        emitted_nth(start, prog, 27, buf@);
    }
    buf.shl_ri8(RCX, 30);
    proof {
        emitted_nth(start, prog, 28, buf@);
    }
    buf.or_rr64(RDX, RCX);
    proof {
        emitted_nth(start, prog, 29, buf@);
    }
    // N = CF && !ZF -> bit 31: the ordered less-than case
    buf.mov_rr64(RCX, RAX);
    proof {
        emitted_nth(start, prog, 30, buf@);
    }
    buf.and_ri64(RCX, 1);
    proof {
        emitted_nth(start, prog, 31, buf@);
    }
    buf.mov_rr64(RDI, RAX);
    proof {
        emitted_nth(start, prog, 32, buf@);
    }
    buf.shr_ri8(RDI, 6);
    proof {
        emitted_nth(start, prog, 33, buf@);
    }
    buf.and_ri64(RDI, 1);
    proof {
        emitted_nth(start, prog, 34, buf@);
    }
    buf.xor_ri64(RDI, 1);
    proof {
        emitted_nth(start, prog, 35, buf@);
    }
    buf.and_rr64(RCX, RDI);
    proof {
        emitted_nth(start, prog, 36, buf@);
    }
    buf.shl_ri8(RCX, 31);
    proof {
        emitted_nth(start, prog, 37, buf@);
    }
    buf.or_rr64(RDX, RCX);
    proof {
        emitted_nth(start, prog, 38, buf@);
    }
    buf.mov_store32(RBX, NZCV_OFF, RDX);
    proof {
        emitted_nth(start, prog, 39, buf@);
    }
    buf.pop(RDX);
    proof {
        emitted_nth(start, prog, 40, buf@);
    }
    buf.pop(RCX);
    proof {
        emitted_nth(start, prog, 41, buf@);
    }
    buf.pop(RAX);
    proof {
        emitted_nth(start, prog, 42, buf@);
    }
    proof {
        lemma_take_all(prog);
    }
}

/// The sequence that loads `CpuState.nzcv` into RFLAGS.
pub open spec fn load_nzcv_to_eflags_prog() -> Seq<Op> {
    seq![
        Op::Push(RAX),
        Op::Push(RCX),
        Op::Load32(RCX, RBX, NZCV_OFF),
        Op::MovImm64(RDX, 0x202),
        Op::MovRR(RAX, RCX),
        Op::ShiftRI(ShiftOp::Shr, RAX, 29),
        Op::AluRI(AluOp::And, RAX, 1),
        Op::AluRR(AluOp::Or, RDX, RAX),
        Op::MovRR(RAX, RCX),
        Op::ShiftRI(ShiftOp::Shr, RAX, 28),
        Op::AluRI(AluOp::And, RAX, 1),
        Op::ShiftRI(ShiftOp::Shl, RAX, 11),
        Op::AluRR(AluOp::Or, RDX, RAX),
        Op::MovRR(RAX, RCX),
        Op::ShiftRI(ShiftOp::Shr, RAX, 24),
        Op::AluRI(AluOp::And, RAX, 0xc0),
        Op::AluRR(AluOp::Or, RDX, RAX),
        Op::Pop(RCX),
        Op::Pop(RAX),
        Op::Push(RDX),
        Op::Popfq,
    ]
}

/// Load the stored `CpuState.nzcv` into RFLAGS (CF = C, ZF = Z, SF = N,
/// OF = V) so that a following `jcc`/`cmovcc` chosen by `x86_cc_for_cond`
/// tests the AArch64 condition. RAX/RCX are preserved and RDX is clobbered;
/// the `popfq` is the last flag-writing instruction, so the consumer must
/// follow it directly.
#[verifier::spinoff_prover]
#[verifier::rlimit(100)]
pub fn load_nzcv_to_eflags(buf: &mut CodeBuf)
    ensures
        final(buf)@ == old(buf)@ + prog_bytes(load_nzcv_to_eflags_prog()),
{
    let ghost start = buf@;
    let ghost prog = load_nzcv_to_eflags_prog();
    buf.push(RAX);
    proof {
        emitted_nth(start, prog, 0, buf@);
    }
    buf.push(RCX);
    proof {
        emitted_nth(start, prog, 1, buf@);
    }
    buf.mov_load32(RCX, RBX, NZCV_OFF);
    proof {
        emitted_nth(start, prog, 2, buf@);
    }
    // RCX = packed nzcv; RDX accumulates the RFLAGS image
    buf.mov_ri64(RDX, 0x202);
    proof {
        emitted_nth(start, prog, 3, buf@);
    }
    // C -> CF (bit 0)
    buf.mov_rr64(RAX, RCX);
    proof {
        emitted_nth(start, prog, 4, buf@);
    }
    buf.shr_ri8(RAX, 29);
    proof {
        emitted_nth(start, prog, 5, buf@);
    }
    buf.and_ri64(RAX, 1);
    proof {
        emitted_nth(start, prog, 6, buf@);
    }
    buf.or_rr64(RDX, RAX);
    proof {
        emitted_nth(start, prog, 7, buf@);
    }
    // V -> OF (bit 11)
    buf.mov_rr64(RAX, RCX);
    proof {
        emitted_nth(start, prog, 8, buf@);
    }
    buf.shr_ri8(RAX, 28);
    proof {
        emitted_nth(start, prog, 9, buf@);
    }
    buf.and_ri64(RAX, 1);
    proof {
        emitted_nth(start, prog, 10, buf@);
    }
    buf.shl_ri8(RAX, 11);
    proof {
        emitted_nth(start, prog, 11, buf@);
    }
    buf.or_rr64(RDX, RAX);
    proof {
        emitted_nth(start, prog, 12, buf@);
    }
    // Z -> ZF (bit 6) and N -> SF (bit 7) with one shift by 24
    buf.mov_rr64(RAX, RCX);
    proof {
        emitted_nth(start, prog, 13, buf@);
    }
    buf.shr_ri8(RAX, 24);
    proof {
        emitted_nth(start, prog, 14, buf@);
    }
    buf.and_ri64(RAX, 0xc0);
    proof {
        emitted_nth(start, prog, 15, buf@);
    }
    buf.or_rr64(RDX, RAX);
    proof {
        emitted_nth(start, prog, 16, buf@);
    }
    // restore RAX/RCX, then load RFLAGS as the last flag-writing instruction
    buf.pop(RCX);
    proof {
        emitted_nth(start, prog, 17, buf@);
    }
    buf.pop(RAX);
    proof {
        emitted_nth(start, prog, 18, buf@);
    }
    buf.push(RDX);
    proof {
        emitted_nth(start, prog, 19, buf@);
    }
    buf.popfq();
    proof {
        emitted_nth(start, prog, 20, buf@);
    }
    proof {
        lemma_take_all(prog);
    }
}

/// A one-op program's bytes are that op's bytes.
pub proof fn lemma_prog_bytes_single(op: Op)
    ensures
        prog_bytes(seq![op]) == op_bytes(op),
{
    let e = Seq::<Op>::empty();
    assert(seq![op].drop_last() =~= e);
    assert(seq![op].last() == op);
    assert(prog_bytes(e) == Seq::<u8>::empty());
    assert(prog_bytes(seq![op]) =~= op_bytes(op));
}

/// Materialize `val` in RAX and store it to guest register `rd`: the short
/// sign-extended `mov r64, imm32` when it yields `val`, else `mov r64, imm64`.
pub open spec fn guest_imm_prog(rd: u32, val: u64) -> Seq<Op> {
    seq![
        if sext32(val as u32) == val {
            Op::MovImm32(RAX, val as u32)
        } else {
            Op::MovImm64(RAX, val)
        },
        Op::Store64(RBX, slot_of(rd), RAX),
    ]
}

/// Constant `val` into guest register `rd`.
pub fn mov_guest_imm(buf: &mut CodeBuf, rd: u32, val: u64)
    requires
        slot_ok(rd),
    ensures
        final(buf)@ == old(buf)@ + prog_bytes(guest_imm_prog(rd, val)),
{
    let ghost start = buf@;
    let ghost prog = guest_imm_prog(rd, val);
    // The imm32 form sign-extends, so it serves exactly when the upper 32 bits
    // are the sign extension of the lower 32.
    let lo = val as u32 as i32;
    proof {
        assert((val as u32 as i32) as u32 == val as u32) by (bit_vector);
    }
    if (lo as i64 as u64) == val {
        buf.mov_ri32(RAX, lo as u32);
    } else {
        buf.mov_ri64(RAX, val);
    }
    proof {
        emitted_nth(start, prog, 0, buf@);
    }
    stg(buf, rd, RAX);
    proof {
        lemma_prog_bytes_single(Op::Store64(RBX, slot_of(rd), RAX));
        emitted_nth(start, prog, 1, buf@);
        lemma_take_all(prog);
    }
}

/// The x86 `jcc` second opcode byte (0F 8x) that tests AArch64 condition
/// `cond` on flags in the translator's convention, or `None` for AL/NV.
pub open spec fn cond_cc(cond: u8) -> Option<u8> {
    if cond == 0x0 {
        Some(0x84u8)
    } else if cond == 0x1 {
        Some(0x85u8)
    } else if cond == 0x2 {
        Some(0x83u8)
    } else if cond == 0x3 {
        Some(0x82u8)
    } else if cond == 0x4 {
        Some(0x88u8)
    } else if cond == 0x5 {
        Some(0x89u8)
    } else if cond == 0x6 {
        Some(0x80u8)
    } else if cond == 0x7 {
        Some(0x81u8)
    } else if cond == 0x8 {
        Some(0x87u8)
    } else if cond == 0x9 {
        Some(0x86u8)
    } else if cond == 0xA {
        Some(0x8du8)
    } else if cond == 0xB {
        Some(0x8cu8)
    } else if cond == 0xC {
        Some(0x8fu8)
    } else if cond == 0xD {
        Some(0x8eu8)
    } else {
        None
    }
}

/// Map an AArch64 condition code (0..15) to the x86-64 `0F 8x` jcc opcode.
/// The stored C flag follows the subtract-borrow convention (x86 CF), so
/// HS is JAE (!CF) and LO is JB (CF); V is loaded into OF, so VS is JO.
pub fn x86_cc_for_cond(cond: u8) -> (r: Option<u8>)
    ensures
        r == cond_cc(cond),
{
    Some(
        match cond {
            0x0 => 0x84,  // EQ  (ZF)
            0x1 => 0x85,  // NE  (!ZF)
            0x2 => 0x83,  // HS  (!CF, JAE)
            0x3 => 0x82,  // LO  (CF, JB)
            0x4 => 0x88,  // MI  (SF)
            0x5 => 0x89,  // PL  (!SF)
            0x6 => 0x80,  // VS  (OF, JO)
            0x7 => 0x81,  // VC  (!OF, JNO)
            0x8 => 0x87,  // HI  (!CF && !ZF, JA)
            0x9 => 0x86,  // LS  (CF || ZF, JBE)
            0xA => 0x8d,  // GE  (SF == OF)
            0xB => 0x8c,  // LT  (SF != OF)
            0xC => 0x8f,  // GT  (!ZF && SF == OF)
            0xD => 0x8e,  // LE  (ZF || SF != OF)
            _ => return None,
        },
    )
}

/// The shift of the second operand of an AArch64 shifted-register
/// instruction by the constant `amt`, on x86 register `x`.
pub open spec fn shift_const_prog(x: u8, kind: ShiftKind, amt: u8, sf: bool) -> Seq<Op> {
    if amt == 0 {
        Seq::empty()
    } else {
        match kind {
            ShiftKind::Lsl => seq![Op::ShiftRI(ShiftOp::Shl, x, amt)],
            ShiftKind::Lsr => seq![Op::ShiftRI(ShiftOp::Shr, x, amt)],
            ShiftKind::Asr => if sf {
                seq![Op::ShiftRI(ShiftOp::Sar, x, amt)]
            } else {
                seq![Op::Movsxd(x, x), Op::ShiftRI(ShiftOp::Sar, x, amt)]
            },
            ShiftKind::Ror => if sf {
                seq![Op::ShiftRI(ShiftOp::Ror, x, amt)]
            } else {
                seq![Op::Ror32(x, amt)]
            },
        }
    }
}

/// Apply AArch64 shift `kind` by the constant `amt` to the value in x86
/// register `x`, with the immediate-count shift forms (no CL scratch, so the
/// shifted value stays in `x`). For a 32-bit operation (`!sf`) an ASR first
/// sign-extends bit 31: the value is zero-extended, and a plain 64-bit `sar`
/// would shift zeros in; a ROR rotates within the low 32 bits.
pub fn apply_shift_const(buf: &mut CodeBuf, x: u8, kind: ShiftKind, amt: u8, sf: bool)
    ensures
        final(buf)@ == old(buf)@ + prog_bytes(shift_const_prog(x, kind, amt, sf)),
{
    let ghost start = buf@;
    let ghost prog = shift_const_prog(x, kind, amt, sf);
    if amt == 0 {
        proof {
            assert(start + prog_bytes(prog) =~= start);
        }
        return ;
    }
    match kind {
        ShiftKind::Lsl => {
            buf.shl_ri8(x, amt);
            proof {
                emitted_nth(start, prog, 0, buf@);
            }
        },
        ShiftKind::Lsr => {
            buf.shr_ri8(x, amt);
            proof {
                emitted_nth(start, prog, 0, buf@);
            }
        },
        ShiftKind::Asr => {
            if !sf {
                buf.movsxd_r64_r32(x, x);  // sign-extend bit 31 before the 64-bit sar
                proof {
                    emitted_nth(start, prog, 0, buf@);
                }
                buf.sar_ri8(x, amt);
                proof {
                    emitted_nth(start, prog, 1, buf@);
                }
            } else {
                buf.sar_ri8(x, amt);
                proof {
                    emitted_nth(start, prog, 0, buf@);
                }
            }
        },
        ShiftKind::Ror => {
            if sf {
                buf.ror_ri8(x, amt);
            } else {
                buf.ror32_ri8(x, amt);  // a W rotate stays within 32 bits
            }
            proof {
                emitted_nth(start, prog, 0, buf@);
            }
        },
    }
    proof {
        lemma_take_all(prog);
    }
}

/// Byte offset of guest vector register `r` inside `CpuState`.
pub open spec fn vslot_of(r: u8) -> i32 {
    (VECTOR_BASE + r * 16) as i32
}

/// Where `permute_source` leaves the source to read: the scratch slot when
/// `src` aliases `rd`, else the source register itself.
pub open spec fn permute_off(rd: u8, src: u8, scratch_hi: bool) -> i32 {
    if src == rd {
        (PERMSCRATCH_OFF + if scratch_hi {
            16int
        } else {
            0int
        }) as i32
    } else {
        vslot_of(src)
    }
}

/// The copy of the 16-byte vector register `src` to the scratch slot (both
/// 8-byte halves through RAX) when it aliases `rd`, else nothing.
pub open spec fn permute_prog(rd: u8, src: u8, scratch_hi: bool) -> Seq<Op> {
    let orig = vslot_of(src);
    let scratch = permute_off(rd, src, scratch_hi);
    if src == rd {
        seq![
            Op::Load64(RAX, RBX, orig),
            Op::Store64(RBX, scratch, RAX),
            Op::Load64(RAX, RBX, (orig + 8) as i32),
            Op::Store64(RBX, (scratch + 8) as i32, RAX),
        ]
    } else {
        Seq::empty()
    }
}

/// Snapshot a source vector register to a scratch slot when it aliases `rd`,
/// so that a SIMD permute writing `rd` does not clobber a source it still
/// reads. Returns the byte offset to read the source from. Register 31 is a
/// real vector register (v31) here, not XZR.
pub fn permute_source(buf: &mut CodeBuf, rd: u8, src: u8, scratch_hi: bool) -> (off: i32)
    ensures
        final(buf)@ == old(buf)@ + prog_bytes(permute_prog(rd, src, scratch_hi)),
        off == permute_off(rd, src, scratch_hi),
{
    let ghost start = buf@;
    let ghost prog = permute_prog(rd, src, scratch_hi);
    let orig = VECTOR_BASE + (src as i32) * 16;
    if src == rd {
        let scratch = PERMSCRATCH_OFF + if scratch_hi {
            16
        } else {
            0
        };
        // copy both 8-byte halves: [orig..orig+16) -> [scratch..scratch+16)
        buf.mov_load64(RAX, RBX, orig);
        proof {
            emitted_nth(start, prog, 0, buf@);
        }
        buf.mov_store64(RBX, scratch, RAX);
        proof {
            emitted_nth(start, prog, 1, buf@);
        }
        buf.mov_load64(RAX, RBX, orig + 8);
        proof {
            emitted_nth(start, prog, 2, buf@);
        }
        buf.mov_store64(RBX, scratch + 8, RAX);
        proof {
            emitted_nth(start, prog, 3, buf@);
            lemma_take_all(prog);
        }
        scratch
    } else {
        proof {
            assert(start + prog_bytes(prog) =~= start);
        }
        orig
    }
}

/// The decimal digit `d` (0..10) as a character.
pub open spec fn digit_char(d: nat) -> char {
    if d == 0 {
        '0'
    } else if d == 1 {
        '1'
    } else if d == 2 {
        '2'
    } else if d == 3 {
        '3'
    } else if d == 4 {
        '4'
    } else if d == 5 {
        '5'
    } else if d == 6 {
        '6'
    } else if d == 7 {
        '7'
    } else if d == 8 {
        '8'
    } else {
        '9'
    }
}

/// The decimal notation of `n`, without leading zeros.
pub open spec fn decimal(n: nat) -> Seq<char>
    decreases n,
{
    if n < 10 {
        seq![digit_char(n)]
    } else {
        decimal(n / 10).push(digit_char(n % 10))
    }
}

/// The decimal digit `d` as a one-character string.
fn digit_str(d: u8) -> (s: &'static str)
    requires
        d < 10,
    ensures
        s@ == seq![digit_char(d as nat)],
{
    match d {
        0 => {
            proof {
                reveal_strlit("0");
            }
            "0"
        },
        1 => {
            proof {
                reveal_strlit("1");
            }
            "1"
        },
        2 => {
            proof {
                reveal_strlit("2");
            }
            "2"
        },
        3 => {
            proof {
                reveal_strlit("3");
            }
            "3"
        },
        4 => {
            proof {
                reveal_strlit("4");
            }
            "4"
        },
        5 => {
            proof {
                reveal_strlit("5");
            }
            "5"
        },
        6 => {
            proof {
                reveal_strlit("6");
            }
            "6"
        },
        7 => {
            proof {
                reveal_strlit("7");
            }
            "7"
        },
        8 => {
            proof {
                reveal_strlit("8");
            }
            "8"
        },
        _ => {
            proof {
                reveal_strlit("9");
            }
            "9"
        },
    }
}

/// The error text of `fp_scalar_xfer` for an unsupported transfer size.
pub open spec fn xfer_size_error(size: u8) -> Seq<char> {
    "fp_scalar_xfer size "@ + decimal(size as nat) + " not implemented"@
}

/// "fp_scalar_xfer size {size} not implemented"
fn size_error(size: u8) -> (msg: String)
    ensures
        msg@ == xfer_size_error(size),
{
    let mut msg = String::from_str("fp_scalar_xfer size ");
    append_decimal(&mut msg, size);
    msg.append(" not implemented");
    msg
}

/// The transfer `fp_scalar_xfer` emits for a supported `size`: through RAX,
/// `[addr]` into the low `size` bytes of the vector slot (`ld`), or the
/// reverse.
pub open spec fn xfer_prog(addr: u8, vslot: i32, size: u8, ld: bool) -> Seq<Op> {
    if size == 8 {
        if ld {
            seq![Op::Load64(RAX, addr, 0), Op::Store64(RBX, vslot, RAX)]
        } else {
            seq![Op::Load64(RAX, RBX, vslot), Op::Store64(addr, 0, RAX)]
        }
    } else if size == 4 {
        if ld {
            seq![Op::Load32(RAX, addr, 0), Op::Store32(RBX, vslot, RAX)]
        } else {
            seq![Op::Load32(RAX, RBX, vslot), Op::Store32(addr, 0, RAX)]
        }
    } else if size == 2 {
        if ld {
            seq![Op::Load16(RAX, addr, 0), Op::Store16(RBX, vslot, RAX)]
        } else {
            seq![Op::Load16(RAX, RBX, vslot), Op::Store16(addr, 0, RAX)]
        }
    } else {
        if ld {
            seq![Op::Load8(RAX, addr, 0), Op::Store8(RBX, vslot, RAX)]
        } else {
            seq![Op::Load8(RAX, RBX, vslot), Op::Store8(addr, 0, RAX)]
        }
    }
}

/// A transfer size `fp_scalar_xfer` implements.
pub open spec fn xfer_size_ok(size: u8) -> bool {
    size == 1 || size == 2 || size == 4 || size == 8
}

/// Transfer `size` bytes (B = 1, H = 2, S = 4, D = 8) between the low bytes of
/// the guest vector slot at `vslot` (in `CpuState`, via RBX) and the memory
/// address in host register `addr`: `ld` loads `[addr]` into the slot, else
/// the slot is stored to `[addr]`. The upper bytes of the 16-byte slot are
/// left alone, as an AArch64 scalar `ldr d0` keeps the high 64 bits.
pub fn fp_scalar_xfer(buf: &mut CodeBuf, addr: u8, vslot: i32, size: u8, ld: bool) -> (r: Result<
    (),
    String,
>)
    requires
        xfer_size_ok(size) ==> mem_base_ok(addr),
        !ld ==> addr != RAX,
    ensures
        r is Ok <==> xfer_size_ok(size),
        r is Ok ==> final(buf)@ == old(buf)@ + prog_bytes(xfer_prog(addr, vslot, size, ld)),
        r matches Err(e) ==> final(buf)@ == old(buf)@ && e@ == xfer_size_error(size),
{
    let ghost start = buf@;
    let ghost prog = xfer_prog(addr, vslot, size, ld);
    match (size, ld) {
        (8, true) => {
            buf.mov_load64(RAX, addr, 0);
            proof {
                emitted_nth(start, prog, 0, buf@);
            }
            buf.mov_store64(RBX, vslot, RAX);
            proof {
                emitted_nth(start, prog, 1, buf@);
            }
        },
        (8, false) => {
            buf.mov_load64(RAX, RBX, vslot);
            proof {
                emitted_nth(start, prog, 0, buf@);
            }
            buf.mov_store64(addr, 0, RAX);
            proof {
                emitted_nth(start, prog, 1, buf@);
            }
        },
        (4, true) => {
            buf.mov_load32(RAX, addr, 0);
            proof {
                emitted_nth(start, prog, 0, buf@);
            }
            buf.mov_store32(RBX, vslot, RAX);
            proof {
                emitted_nth(start, prog, 1, buf@);
            }
        },
        (4, false) => {
            buf.mov_load32(RAX, RBX, vslot);
            proof {
                emitted_nth(start, prog, 0, buf@);
            }
            buf.mov_store32(addr, 0, RAX);
            proof {
                emitted_nth(start, prog, 1, buf@);
            }
        },
        (2, true) => {
            buf.movzx_word_mem(RAX, addr, 0);
            proof {
                emitted_nth(start, prog, 0, buf@);
            }
            buf.mov_store16(RBX, vslot, RAX);
            proof {
                emitted_nth(start, prog, 1, buf@);
            }
        },
        (2, false) => {
            buf.movzx_word_mem(RAX, RBX, vslot);
            proof {
                emitted_nth(start, prog, 0, buf@);
            }
            buf.mov_store16(addr, 0, RAX);
            proof {
                emitted_nth(start, prog, 1, buf@);
            }
        },
        (1, true) => {
            buf.movzx_byte_mem(RAX, addr, 0);
            proof {
                emitted_nth(start, prog, 0, buf@);
            }
            buf.mov_store8(RBX, vslot, RAX);
            proof {
                emitted_nth(start, prog, 1, buf@);
            }
        },
        (1, false) => {
            buf.movzx_byte_mem(RAX, RBX, vslot);
            proof {
                emitted_nth(start, prog, 0, buf@);
            }
            buf.mov_store8(addr, 0, RAX);
            proof {
                emitted_nth(start, prog, 1, buf@);
            }
        },
        (s, _) => return Err(size_error(s)),
    }
    proof {
        lemma_take_all(prog);
    }
    Ok(())
}

// ---- lowering of one decoded instruction ----

/// Byte offset of `CpuState.pc`, after the 32 guest registers.
pub const PC_OFF: i32 = 256;

/// Bytes of `ldg(x, g)`.
pub open spec fn ldg_bytes(x: u8, g: u8) -> Seq<u8> {
    prog_bytes(ldg_prog(x, g as u32))
}

/// Bytes of `stg(g, x)`.
pub open spec fn stg_bytes(g: u8, x: u8) -> Seq<u8> {
    prog_bytes(stg_prog(g as u32, x))
}

/// Bytes of `zext_w(r)`.
pub open spec fn zext_bytes(r: u8) -> Seq<u8> {
    prog_bytes(zext_w_prog(r))
}

/// Bytes of `store_nzcv`.
pub open spec fn nzcv_bytes() -> Seq<u8> {
    prog_bytes(store_nzcv_prog())
}

/// `cmc`
pub open spec fn cmc_bytes() -> Seq<u8> {
    seq![0xF5u8]
}

/// `ret`
pub open spec fn ret_bytes() -> Seq<u8> {
    seq![0xC3u8]
}

/// Register operand `g` read as XZR (zero) when it is 31, into `x`.
pub open spec fn reg_or_zero_bytes(x: u8, g: u8) -> Seq<u8> {
    if g == 31 {
        enc_mov_ri64(x, 0)
    } else {
        ldg_bytes(x, g)
    }
}

/// Load operand `g` into `x`, reading register 31 as XZR.
fn load_reg_or_zero(buf: &mut CodeBuf, x: u8, g: u8)
    ensures
        final(buf)@ == old(buf)@ + reg_or_zero_bytes(x, g),
{
    if g == 31 {
        buf.mov_ri64(x, 0);
    } else {
        ldg(buf, x, g as u32);
    }
}

/// The left shift `16 * hw` of a move-wide immediate.
pub open spec fn wide_shift(hw: u8) -> u32 {
    ((hw as u32) * 16) as u32
}

/// The MOVK mask that keeps every bit outside `[shift, shift + 16)`, within
/// the low 32 bits for a W destination.
pub open spec fn movk_clear(hw: u8, sf: bool) -> u64 {
    if sf {
        !(0xffffu64 << wide_shift(hw))
    } else {
        !(0xffffu64 << wide_shift(hw)) & 0xffff_ffff
    }
}

/// MOVZ writes the shifted immediate; MOVN its complement (truncated to 32
/// bits for a W destination, which zero-extends); MOVK replaces only its
/// 16-bit field of the old value.
pub open spec fn move_wide_bytes(rd: u8, imm16: u16, hw: u8, opc: u8, sf: bool) -> Seq<u8> {
    let val = (imm16 as u64) << wide_shift(hw);
    if opc == 2 {
        prog_bytes(guest_imm_prog(rd as u32, if sf { !val } else { !val & 0xffff_ffff }))
    } else if opc == 1 {
        ldg_bytes(RAX, rd) + enc_mov_ri64(RCX, movk_clear(hw, sf)) + enc_binop(0x21, RAX, RCX)
            + enc_mov_ri64(RCX, val) + enc_binop(0x09, RAX, RCX) + stg_bytes(rd, RAX)
    } else {
        prog_bytes(guest_imm_prog(rd as u32, val))
    }
}

fn translate_move_wide(buf: &mut CodeBuf, rd: u8, imm16: u16, hw: u8, opc: u8, sf: bool)
    requires
        hw < 4,
    ensures
        final(buf)@ == old(buf)@ + move_wide_bytes(rd, imm16, hw, opc, sf),
{
    let ghost start = buf@;
    let shift: u32 = (hw as u32) * 16;
    let val: u64 = (imm16 as u64) << shift;
    if opc == 2 {
        // MOVN into a W register zero-extends: `movn w0, #2` is 0xfffffffd.
        let v = !val;
        mov_guest_imm(buf, rd as u32, if sf { v } else { v & 0xffff_ffff });
    } else if opc == 1 {
        // MOVK: read-modify-write of the 16-bit field.
        let mut clear: u64 = !(0xffffu64 << shift);
        if !sf {
            clear = clear & 0xffff_ffff;
        }
        ldg(buf, RAX, rd as u32);
        buf.mov_ri64(RCX, clear);
        buf.and_rr64(RAX, RCX);
        buf.mov_ri64(RCX, val);
        buf.or_rr64(RAX, RCX);
        stg(buf, rd as u32, RAX);
    } else {
        mov_guest_imm(buf, rd as u32, val);
    }
    proof {
        assert(buf@ =~= start + move_wide_bytes(rd, imm16, hw, opc, sf));
    }
}

/// `cur`, reached from `start` by `acc`, grown by `piece`, is `start`
/// grown by `acc + piece`.
proof fn lemma_grow(start: Seq<u8>, acc: Seq<u8>, cur: Seq<u8>, piece: Seq<u8>, next: Seq<u8>)
    requires
        cur == start + acc,
        next == cur + piece,
    ensures
        next == start + (acc + piece),
{
    assert(next =~= start + (acc + piece));
}

/// Appending nothing.
proof fn lemma_grow_none(cur: Seq<u8>)
    ensures
        cur == cur + Seq::<u8>::empty(),
{
    assert(cur =~= cur + Seq::<u8>::empty());
}

/// The flag update of an add/sub: for ADDS/SUBS, `cmc` after an add (the
/// stored C follows the subtract-borrow convention) and `store_nzcv`.
pub open spec fn add_sub_flags_bytes(s: bool, sub: bool) -> Seq<u8> {
    opt(s, opt(!sub, cmc_bytes()) + nzcv_bytes())
}

fn add_sub_flags(buf: &mut CodeBuf, s: bool, sub: bool)
    ensures
        final(buf)@ == old(buf)@ + add_sub_flags_bytes(s, sub),
{
    let ghost start = buf@;
    if s {
        if !sub {
            buf.cmc();  // ADDS: stored C = !carry-out (borrow convention)
        }
        let ghost mid = buf@;
        store_nzcv(buf);
        proof {
            if sub {
                lemma_grow_none(start);
            }
            assert(mid == start + opt(!sub, cmc_bytes()));
            lemma_grow(start, opt(!sub, cmc_bytes()), mid, nzcv_bytes(), buf@);
        }
    } else {
        proof {
            lemma_grow_none(start);
        }
    }
}

/// The write of RAX to `rd` when `write`, zero-extended first for a W form.
pub open spec fn writeback_bytes(write: bool, sf: bool, rd: u8) -> Seq<u8> {
    opt(write, opt(!sf, zext_bytes(RAX)) + stg_bytes(rd, RAX))
}

fn writeback(buf: &mut CodeBuf, write: bool, sf: bool, rd: u8)
    ensures
        final(buf)@ == old(buf)@ + writeback_bytes(write, sf, rd),
{
    let ghost start = buf@;
    if write {
        if !sf {
            zext_w(buf, RAX);  // a W write zero-extends into X
        }
        let ghost mid = buf@;
        stg(buf, rd as u32, RAX);
        proof {
            if sf {
                lemma_grow_none(start);
            }
            assert(mid == start + opt(!sf, zext_bytes(RAX)));
            lemma_grow(start, opt(!sf, zext_bytes(RAX)), mid, stg_bytes(rd, RAX), buf@);
        }
    } else {
        proof {
            lemma_grow_none(start);
        }
    }
}

/// `zext_w(r)` for a W form, else nothing.
fn zext_if_w(buf: &mut CodeBuf, sf: bool, r: u8)
    ensures
        final(buf)@ == old(buf)@ + opt(!sf, zext_bytes(r)),
{
    if !sf {
        zext_w(buf, r);
    } else {
        proof {
            lemma_grow_none(buf@);
        }
    }
}

/// The first operand of ADD/SUB (immediate): XZR for the flag-setting form
/// with `rn` 31, else register `rn` (31 = SP).
pub open spec fn add_sub_imm_src_bytes(rn: u8, s: bool) -> Seq<u8> {
    if s && rn == 31 {
        enc_mov_ri64(RAX, 0)
    } else {
        ldg_bytes(RAX, rn)
    }
}

/// The 12-bit immediate, shifted left by 12 when `shift12`.
pub open spec fn add_sub_imm_value(imm12: u16, shift12: bool) -> u32 {
    ((imm12 as u64) << (if shift12 { 12u64 } else { 0u64 })) as u32
}

/// `add`/`sub` of the immediate to RAX, 64- or 32-bit.
pub open spec fn alu_imm_bytes(sub: bool, sf: bool, imm: u32) -> Seq<u8> {
    if sub {
        if sf {
            enc_ari_imm(5, RAX, imm)
        } else {
            enc_ari_imm32(5, RAX, imm)
        }
    } else if sf {
        enc_ari_imm(0, RAX, imm)
    } else {
        enc_ari_imm32(0, RAX, imm)
    }
}

/// ADD/SUB (immediate). The flag-setting form reads register 31 as XZR, the
/// others as SP; a 32-bit form works on the zero-extended operand with the
/// 32-bit instruction. The result goes to `rd` (31 = SP) unless the
/// instruction is a compare (S with `rd` 31).
pub open spec fn add_sub_imm_bytes(
    rd: u8,
    rn: u8,
    imm12: u16,
    shift12: bool,
    sub: bool,
    s: bool,
    sf: bool,
) -> Seq<u8> {
    add_sub_imm_src_bytes(rn, s) + opt(!sf, zext_bytes(RAX)) + alu_imm_bytes(
        sub,
        sf,
        add_sub_imm_value(imm12, shift12),
    ) + add_sub_flags_bytes(s, sub) + writeback_bytes(rd != 31 || !s, sf, rd)
}

fn translate_add_sub_imm(
    buf: &mut CodeBuf,
    rd: u8,
    rn: u8,
    imm12: u16,
    shift12: bool,
    sub: bool,
    s: bool,
    sf: bool,
)
    ensures
        final(buf)@ == old(buf)@ + add_sub_imm_bytes(rd, rn, imm12, shift12, sub, s, sf),
{
    let ghost start = buf@;
    let sh: u64 = if shift12 { 12 } else { 0 };
    let imm: u32 = ((imm12 as u64) << sh) as u32;
    let ghost a = add_sub_imm_src_bytes(rn, s);
    let ghost b = opt(!sf, zext_bytes(RAX));
    let ghost c = alu_imm_bytes(sub, sf, imm);
    let ghost d = add_sub_flags_bytes(s, sub);
    let ghost e = writeback_bytes(rd != 31 || !s, sf, rd);
    if s && rn == 31 {
        buf.mov_ri64(RAX, 0);  // `cmp wzr, #imm` reads XZR
    } else {
        ldg(buf, RAX, rn as u32);  // `sub sp, sp, #imm` reads SP
    }
    let ghost p1 = buf@;
    zext_if_w(buf, sf, RAX);  // 32-bit: high garbage in rn is ignored
    let ghost p2 = buf@;
    if sub {
        if sf {
            buf.sub_ri64(RAX, imm);
        } else {
            buf.sub_ri32(RAX, imm);  // 32-bit flags, upper half cleared
        }
    } else if sf {
        buf.add_ri64(RAX, imm);
    } else {
        buf.add_ri32(RAX, imm);
    }
    let ghost p3 = buf@;
    add_sub_flags(buf, s, sub);
    let ghost p4 = buf@;
    // rd 31 is SP for ADD/SUB; only a compare leaves it alone.
    writeback(buf, rd != 31 || !s, sf, rd);
    proof {
        assert(p1 == start + a);
        assert(p3 == p2 + c);
        lemma_grow(start, a, p1, b, p2);
        lemma_grow(start, a + b, p2, c, p3);
        lemma_grow(start, a + b + c, p3, d, p4);
        lemma_grow(start, a + b + c + d, p4, e, buf@);
    }
}

/// ADD/SUB (register): the shifted-register form reads register 31 as XZR
/// in every operand; the extended form (`sp_operand`) reads `rn` 31 as SP.
pub open spec fn add_sub_reg_src_bytes(rn: u8, sp_operand: bool) -> Seq<u8> {
    if rn == 31 && !sp_operand {
        enc_mov_ri64(RAX, 0)
    } else {
        ldg_bytes(RAX, rn)
    }
}

/// `add`/`sub` RAX, RCX, 64- or 32-bit.
pub open spec fn alu_rr_bytes(sub: bool, sf: bool) -> Seq<u8> {
    if sub {
        if sf {
            enc_binop(0x29, RAX, RCX)
        } else {
            enc_binop32(0x29, RAX, RCX)
        }
    } else if sf {
        enc_binop(0x01, RAX, RCX)
    } else {
        enc_binop32(0x01, RAX, RCX)
    }
}

/// Both operands zero-extended from 32 bits for a W form.
pub open spec fn zext_pair_bytes(sf: bool) -> Seq<u8> {
    opt(!sf, zext_bytes(RAX) + zext_bytes(RCX))
}

fn zext_pair(buf: &mut CodeBuf, sf: bool)
    ensures
        final(buf)@ == old(buf)@ + zext_pair_bytes(sf),
{
    let ghost start = buf@;
    if !sf {
        zext_w(buf, RAX);
        let ghost mid = buf@;
        zext_w(buf, RCX);
        proof {
            lemma_grow(start, zext_bytes(RAX), mid, zext_bytes(RCX), buf@);
        }
    } else {
        proof {
            lemma_grow_none(start);
        }
    }
}

/// ADD/SUB (shifted or extended register): RAX = rn, RCX = rm shifted,
/// combined with the 64- or 32-bit instruction, flags for ADDS/SUBS, and the
/// result written unless `rd` is 31 in the shifted form (XZR) or the
/// instruction is a compare.
pub open spec fn add_sub_reg_bytes(
    rd: u8,
    rn: u8,
    rm: u8,
    sub: bool,
    s: bool,
    shift: ShiftKind,
    sh_amt: u8,
    sf: bool,
    sp_operand: bool,
) -> Seq<u8> {
    add_sub_reg_src_bytes(rn, sp_operand) + reg_or_zero_bytes(RCX, rm) + zext_pair_bytes(sf)
        + prog_bytes(shift_const_prog(RCX, shift, sh_amt, sf)) + alu_rr_bytes(sub, sf)
        + add_sub_flags_bytes(s, sub) + writeback_bytes(rd != 31 || (sp_operand && !s), sf, rd)
}

fn translate_add_sub_reg(
    buf: &mut CodeBuf,
    rd: u8,
    rn: u8,
    rm: u8,
    sub: bool,
    s: bool,
    shift: ShiftKind,
    sh_amt: u8,
    sf: bool,
    sp_operand: bool,
)
    ensures
        final(buf)@ == old(buf)@ + add_sub_reg_bytes(
            rd,
            rn,
            rm,
            sub,
            s,
            shift,
            sh_amt,
            sf,
            sp_operand,
        ),
{
    let ghost start = buf@;
    let ghost a = add_sub_reg_src_bytes(rn, sp_operand);
    let ghost b = reg_or_zero_bytes(RCX, rm);
    let ghost c = zext_pair_bytes(sf);
    let ghost d = prog_bytes(shift_const_prog(RCX, shift, sh_amt, sf));
    let ghost e = alu_rr_bytes(sub, sf);
    let ghost f = add_sub_flags_bytes(s, sub);
    let ghost g = writeback_bytes(rd != 31 || (sp_operand && !s), sf, rd);
    if sp_operand && rn == 31 {
        ldg(buf, RAX, 31);  // the extended form reads rn 31 as SP
    } else if rn == 31 {
        buf.mov_ri64(RAX, 0);  // the shifted form reads rn 31 as XZR (`neg`)
    } else {
        ldg(buf, RAX, rn as u32);
    }
    let ghost p1 = buf@;
    load_reg_or_zero(buf, RCX, rm);  // rm is never SP
    let ghost p2 = buf@;
    zext_pair(buf, sf);
    let ghost p3 = buf@;
    apply_shift_const(buf, RCX, shift, sh_amt, sf);
    let ghost p4 = buf@;
    if sub {
        if sf {
            buf.sub_rr64(RAX, RCX);
        } else {
            buf.sub_rr32(RAX, RCX);
        }
    } else if sf {
        buf.add_rr64(RAX, RCX);
    } else {
        buf.add_rr32(RAX, RCX);
    }
    let ghost p5 = buf@;
    add_sub_flags(buf, s, sub);
    let ghost p6 = buf@;
    writeback(buf, rd != 31 || (sp_operand && !s), sf, rd);
    proof {
        assert(p1 == start + a);
        assert(p5 == p4 + e);
        lemma_grow(start, a, p1, b, p2);
        lemma_grow(start, a + b, p2, c, p3);
        lemma_grow(start, a + b + c, p3, d, p4);
        lemma_grow(start, a + b + c + d, p4, e, p5);
        lemma_grow(start, a + b + c + d + e, p5, f, p6);
        lemma_grow(start, a + b + c + d + e + f, p6, g, buf@);
    }
}

/// The extension `opt` of the register operand in RAX: UXTB, UXTH, UXTW by
/// masking, SXTB and SXTH by a shift pair, SXTW by `movsxd`; UXTX and SXTX
/// keep all 64 bits.
pub open spec fn extend_bytes(opt: u8) -> Seq<u8> {
    if opt == 0 {
        enc_ari_imm(4, RAX, 0xff)
    } else if opt == 1 {
        enc_ari_imm(4, RAX, 0xffff)
    } else if opt == 2 {
        enc_zero_ext_r32(RAX)
    } else if opt == 4 {
        enc_shift_ri8(4, RAX, 56) + enc_shift_ri8(7, RAX, 56)
    } else if opt == 5 {
        enc_shift_ri8(4, RAX, 48) + enc_shift_ri8(7, RAX, 48)
    } else if opt == 6 {
        seq![rex_w(RAX, RAX), 0x63u8, modrm_byte(3, RAX & 7, RAX & 7)]
    } else {
        Seq::empty()
    }
}

fn extend_rax(buf: &mut CodeBuf, opt: u8)
    ensures
        final(buf)@ == old(buf)@ + extend_bytes(opt),
{
    let ghost start = buf@;
    match opt {
        0 => buf.and_ri64(RAX, 0xff),  // UXTB
        1 => buf.and_ri64(RAX, 0xffff),  // UXTH
        2 => buf.zero_ext_r32(RAX),  // UXTW
        3 => {},  // UXTX
        4 => {
            // SXTB
            buf.shl_ri8(RAX, 56);
            buf.sar_ri8(RAX, 56);
        },
        5 => {
            // SXTH
            buf.shl_ri8(RAX, 48);
            buf.sar_ri8(RAX, 48);
        },
        6 => buf.movsxd_r64_r32(RAX, RAX),  // SXTW
        _ => {},  // SXTX
    }
    proof {
        assert(buf@ =~= start + extend_bytes(opt));
    }
}

/// The combination of Xn (in RDI) with the extended operand (in RAX): the
/// result ends in RAX, with the flags of the add or subtract for the S form.
pub open spec fn ext_combine_bytes(sub: bool, s: bool) -> Seq<u8> {
    if sub {
        enc_binop(0x29, RDI, RAX) + opt(s, nzcv_bytes()) + enc_mov_rr64(RAX, RDI)
    } else {
        enc_binop(0x01, RAX, RDI) + opt(s, nzcv_bytes())
    }
}

fn ext_combine(buf: &mut CodeBuf, sub: bool, s: bool)
    ensures
        final(buf)@ == old(buf)@ + ext_combine_bytes(sub, s),
{
    let ghost start = buf@;
    if sub {
        buf.sub_rr64(RDI, RAX);  // RDI = Rn - ext
        let ghost p1 = buf@;
        if s {
            store_nzcv(buf);
        }
        let ghost p2 = buf@;
        buf.mov_rr64(RAX, RDI);
        proof {
            if !s {
                lemma_grow_none(p1);
            }
            assert(p2 == p1 + opt(s, nzcv_bytes()));
            lemma_grow(start, enc_binop(0x29, RDI, RAX), p1, opt(s, nzcv_bytes()), p2);
            lemma_grow(
                start,
                enc_binop(0x29, RDI, RAX) + opt(s, nzcv_bytes()),
                p2,
                enc_mov_rr64(RAX, RDI),
                buf@,
            );
        }
    } else {
        buf.add_rr64(RAX, RDI);  // RAX = Rn + ext
        let ghost p1 = buf@;
        if s {
            store_nzcv(buf);
        }
        proof {
            if !s {
                lemma_grow_none(p1);
            }
            assert(buf@ == p1 + opt(s, nzcv_bytes()));
            lemma_grow(start, enc_binop(0x01, RAX, RDI), p1, opt(s, nzcv_bytes()), buf@);
        }
    }
}

/// ADD/SUB (extended register): RAX = extend(rm) << shift (rm 31 is XZR),
/// RDI = rn (31 = SP), combined; the non-flag-setting forms write `rd`
/// (31 = SP).
pub open spec fn add_sub_ext_bytes(
    rd: u8,
    rn: u8,
    rm: u8,
    sub: bool,
    s: bool,
    sf: bool,
    opt: u8,
    shift: u8,
) -> Seq<u8> {
    reg_or_zero_bytes(RAX, rm) + extend_bytes(opt) + crate::x86::opt(
        0 < shift && shift <= 3,
        enc_shift_ri8(4, RAX, shift),
    ) + ldg_bytes(RDI, rn) + ext_combine_bytes(sub, s) + writeback_bytes(!s, sf, rd)
}

fn translate_add_sub_ext(
    buf: &mut CodeBuf,
    rd: u8,
    rn: u8,
    rm: u8,
    sub: bool,
    s: bool,
    sf: bool,
    opt: u8,
    shift: u8,
)
    ensures
        final(buf)@ == old(buf)@ + add_sub_ext_bytes(rd, rn, rm, sub, s, sf, opt, shift),
{
    let ghost start = buf@;
    let ghost a = reg_or_zero_bytes(RAX, rm);
    let ghost b = extend_bytes(opt);
    let ghost c = crate::x86::opt(0 < shift && shift <= 3, enc_shift_ri8(4, RAX, shift));
    let ghost d = ldg_bytes(RDI, rn);
    let ghost e = ext_combine_bytes(sub, s);
    let ghost f = writeback_bytes(!s, sf, rd);
    load_reg_or_zero(buf, RAX, rm);  // rm 31 is XZR, never SP
    let ghost p1 = buf@;
    extend_rax(buf, opt);
    let ghost p2 = buf@;
    if shift > 0 && shift <= 3 {
        buf.shl_ri8(RAX, shift);
    }
    let ghost p3 = buf@;
    ldg(buf, RDI, rn as u32);  // rn 31 is SP in the extended form
    let ghost p4 = buf@;
    ext_combine(buf, sub, s);
    let ghost p5 = buf@;
    writeback(buf, !s, sf, rd);
    proof {
        if !(0 < shift && shift <= 3) {
            lemma_grow_none(p2);
        }
        assert(p3 == p2 + c);
        lemma_grow(start, a, p1, b, p2);
        lemma_grow(start, a + b, p2, c, p3);
        lemma_grow(start, a + b + c, p3, d, p4);
        lemma_grow(start, a + b + c + d, p4, e, p5);
        lemma_grow(start, a + b + c + d + e, p5, f, buf@);
    }
}

/// The upper halves of RAX and RCX cleared by shift pairs.
pub open spec fn clear_upper_pair_bytes() -> Seq<u8> {
    enc_shift_ri8(4, RAX, 32) + enc_shift_ri8(5, RAX, 32) + enc_shift_ri8(4, RCX, 32)
        + enc_shift_ri8(5, RCX, 32)
}

/// The add or subtract with carry: SBC subtracts the stored C (the borrow);
/// ADC adds the true carry `!C`; the S forms store NZCV in the borrow
/// convention.
pub open spec fn carry_op_bytes(sub: bool, s: bool) -> Seq<u8> {
    if sub {
        enc_binop(0x19, RAX, RCX) + opt(s, nzcv_bytes())
    } else {
        cmc_bytes() + enc_binop(0x11, RAX, RCX) + opt(s, cmc_bytes() + nzcv_bytes())
    }
}

fn carry_op(buf: &mut CodeBuf, sub: bool, s: bool)
    ensures
        final(buf)@ == old(buf)@ + carry_op_bytes(sub, s),
{
    let ghost start = buf@;
    if sub {
        buf.sbb_rr64(RAX, RCX);  // rn - rm - C_stored
        let ghost p1 = buf@;
        if s {
            store_nzcv(buf);  // sbb's CF is already the borrow
        }
        proof {
            if !s {
                lemma_grow_none(p1);
            }
            assert(buf@ == p1 + opt(s, nzcv_bytes()));
            lemma_grow(start, enc_binop(0x19, RAX, RCX), p1, opt(s, nzcv_bytes()), buf@);
        }
    } else {
        buf.cmc();  // CF = true carry = !C_stored
        buf.adc_rr64(RAX, RCX);
        let ghost p1 = buf@;
        if s {
            buf.cmc();  // store !carry-out, as `adds` does
            let ghost m = buf@;
            store_nzcv(buf);
            proof {
                lemma_grow(p1, cmc_bytes(), m, nzcv_bytes(), buf@);
            }
        }
        proof {
            if !s {
                lemma_grow_none(p1);
            }
            assert(p1 =~= start + (cmc_bytes() + enc_binop(0x11, RAX, RCX)));
            assert(buf@ == p1 + opt(s, cmc_bytes() + nzcv_bytes()));
            lemma_grow(
                start,
                cmc_bytes() + enc_binop(0x11, RAX, RCX),
                p1,
                opt(s, cmc_bytes() + nzcv_bytes()),
                buf@,
            );
        }
    }
}

/// ADC/ADCS/SBC/SBCS: both operands (31 read as SP), the 32-bit form
/// zero-extended by shift pairs, the stored C loaded into CF, the carry
/// operation, and the write of `rd` unless it is 31.
pub open spec fn add_carry_bytes(rd: u8, rn: u8, rm: u8, sf: bool, s: bool, sub: bool) -> Seq<
    u8,
> {
    ldg_bytes(RAX, rn) + ldg_bytes(RCX, rm) + opt(!sf, clear_upper_pair_bytes()) + prog_bytes(
        load_nzcv_to_eflags_prog(),
    ) + carry_op_bytes(sub, s) + opt(rd != 31, stg_bytes(rd, RAX))
}

fn translate_add_carry(buf: &mut CodeBuf, rd: u8, rn: u8, rm: u8, sf: bool, s: bool, sub: bool)
    ensures
        final(buf)@ == old(buf)@ + add_carry_bytes(rd, rn, rm, sf, s, sub),
{
    let ghost start = buf@;
    let ghost a = ldg_bytes(RAX, rn) + ldg_bytes(RCX, rm);
    let ghost b = opt(!sf, clear_upper_pair_bytes());
    let ghost c = prog_bytes(load_nzcv_to_eflags_prog());
    let ghost d = carry_op_bytes(sub, s);
    let ghost e = opt(rd != 31, stg_bytes(rd, RAX));
    ldg(buf, RAX, rn as u32);
    ldg(buf, RCX, rm as u32);
    let ghost p1 = buf@;
    if !sf {
        // 32-bit form: zero the upper halves so the 64-bit adc/sbb carries
        // exactly as the 32-bit operation does
        buf.shl_ri8(RAX, 32);
        buf.shr_ri8(RAX, 32);
        buf.shl_ri8(RCX, 32);
        buf.shr_ri8(RCX, 32);
    }
    let ghost p2 = buf@;
    load_nzcv_to_eflags(buf);  // stored C into CF; RAX and RCX survive
    let ghost p3 = buf@;
    carry_op(buf, sub, s);
    let ghost p4 = buf@;
    if rd != 31 {
        stg(buf, rd as u32, RAX);
    }
    proof {
        assert(p1 =~= start + a);
        if sf {
            lemma_grow_none(p1);
        }
        assert(p2 =~= p1 + b);
        if rd == 31 {
            lemma_grow_none(p4);
        }
        assert(buf@ == p4 + e);
        lemma_grow(start, a, p1, b, p2);
        lemma_grow(start, a + b, p2, c, p3);
        lemma_grow(start, a + b + c, p3, d, p4);
        lemma_grow(start, a + b + c + d, p4, e, buf@);
    }
}

/// The `and`/`or`/`xor` opcode of logical operation `op` (its low two bits).
pub open spec fn logic_opcode(op: u8) -> u8 {
    if op == 0 || op == 4 {
        0x21
    } else if op == 1 || op == 5 {
        0x09
    } else {
        0x31
    }
}

/// A register logical operation the translator implements: AND, ORR, EOR
/// and the inverted BIC, ORN, EON.
pub open spec fn logic_reg_op_ok(op: u8) -> bool {
    op <= 2 || (4 <= op && op <= 6)
}

/// The logical operation of RCX into RAX; the inverted forms first apply
/// `not` to RCX (re-zero-extended for a W form).
pub open spec fn logic_reg_op_bytes(op: u8, sf: bool) -> Seq<u8> {
    if op <= 2 {
        enc_binop(logic_opcode(op), RAX, RCX)
    } else if 4 <= op && op <= 6 {
        enc_grp3(2, RCX) + opt(!sf, zext_bytes(RCX)) + enc_binop(logic_opcode(op), RAX, RCX)
    } else {
        Seq::empty()
    }
}

fn logic_reg_op(buf: &mut CodeBuf, op: u8, sf: bool)
    ensures
        final(buf)@ == old(buf)@ + logic_reg_op_bytes(op, sf),
{
    let ghost start = buf@;
    if op >= 4 && op <= 6 {
        buf.not_r64(RCX);
        let ghost p1 = buf@;
        zext_if_w(buf, sf, RCX);  // a 64-bit `not` sets the high half
        let ghost p2 = buf@;
        if op == 4 {
            buf.and_rr64(RAX, RCX);  // BIC
        } else if op == 5 {
            buf.or_rr64(RAX, RCX);  // ORN
        } else {
            buf.xor_rr64(RAX, RCX);  // EON
        }
        proof {
            assert(buf@ == p2 + enc_binop(logic_opcode(op), RAX, RCX));
            lemma_grow(start, enc_grp3(2, RCX), p1, opt(!sf, zext_bytes(RCX)), p2);
            lemma_grow(
                start,
                enc_grp3(2, RCX) + opt(!sf, zext_bytes(RCX)),
                p2,
                enc_binop(logic_opcode(op), RAX, RCX),
                buf@,
            );
        }
    } else if op == 0 {
        buf.and_rr64(RAX, RCX);
    } else if op == 1 {
        buf.or_rr64(RAX, RCX);
    } else if op == 2 {
        buf.xor_rr64(RAX, RCX);
    } else {
        proof {
            lemma_grow_none(start);
        }
    }
}

/// AND/ORR/EOR/BIC/ORN/EON (shifted register): operands with 31 as XZR,
/// zero-extended for a W form, RCX shifted, combined; for an implemented
/// `op`, NZCV for the S form (the x86 logical ops leave C and V clear, as
/// AArch64 does) and the write of `rd` unless it is 31 (XZR).
pub open spec fn logic_reg_bytes(
    rd: u8,
    rn: u8,
    rm: u8,
    op: u8,
    s: bool,
    shift: ShiftKind,
    sh_amt: u8,
    sf: bool,
) -> Seq<u8> {
    reg_or_zero_bytes(RAX, rn) + reg_or_zero_bytes(RCX, rm) + zext_pair_bytes(sf) + prog_bytes(
        shift_const_prog(RCX, shift, sh_amt, sf),
    ) + logic_reg_op_bytes(op, sf) + opt(
        logic_reg_op_ok(op),
        opt(s, nzcv_bytes()) + writeback_bytes(rd != 31, sf, rd),
    )
}

fn translate_logic_reg(
    buf: &mut CodeBuf,
    rd: u8,
    rn: u8,
    rm: u8,
    op: u8,
    s: bool,
    shift: ShiftKind,
    sh_amt: u8,
    sf: bool,
) -> (ok: bool)
    ensures
        ok == logic_reg_op_ok(op),
        final(buf)@ == old(buf)@ + logic_reg_bytes(rd, rn, rm, op, s, shift, sh_amt, sf),
{
    let ghost start = buf@;
    let ghost a = reg_or_zero_bytes(RAX, rn);
    let ghost b = reg_or_zero_bytes(RCX, rm);
    let ghost c = zext_pair_bytes(sf);
    let ghost d = prog_bytes(shift_const_prog(RCX, shift, sh_amt, sf));
    let ghost e = logic_reg_op_bytes(op, sf);
    let ghost f = opt(logic_reg_op_ok(op), opt(s, nzcv_bytes()) + writeback_bytes(rd != 31, sf, rd));
    load_reg_or_zero(buf, RAX, rn);  // `orr xd, xzr, xm` is `mov xd, xm`
    let ghost p1 = buf@;
    load_reg_or_zero(buf, RCX, rm);
    let ghost p2 = buf@;
    zext_pair(buf, sf);  // 32-bit ops ignore the high halves
    let ghost p3 = buf@;
    apply_shift_const(buf, RCX, shift, sh_amt, sf);
    let ghost p4 = buf@;
    logic_reg_op(buf, op, sf);
    let ghost p5 = buf@;
    let ok = op <= 2 || (op >= 4 && op <= 6);
    if ok {
        if s {
            store_nzcv(buf);
        }
        let ghost m = buf@;
        writeback(buf, rd != 31, sf, rd);
        proof {
            if !s {
                lemma_grow_none(p5);
            }
            assert(m == p5 + opt(s, nzcv_bytes()));
            lemma_grow(p5, opt(s, nzcv_bytes()), m, writeback_bytes(rd != 31, sf, rd), buf@);
        }
    } else {
        proof {
            lemma_grow_none(p5);
        }
    }
    proof {
        assert(buf@ == p5 + f);
        lemma_grow(start, a, p1, b, p2);
        lemma_grow(start, a + b, p2, c, p3);
        lemma_grow(start, a + b + c, p3, d, p4);
        lemma_grow(start, a + b + c + d, p4, e, p5);
        lemma_grow(start, a + b + c + d + e, p5, f, buf@);
    }
    ok
}

/// The bitmask-immediate operation on RAX and RCX: AND, ORR, EOR, or ANDS
/// (AND and NZCV); nothing for another `op`.
pub open spec fn logic_imm_op_bytes(op: u8) -> Seq<u8> {
    if op == 0 {
        enc_binop(0x21, RAX, RCX)
    } else if op == 1 {
        enc_binop(0x09, RAX, RCX)
    } else if op == 2 {
        enc_binop(0x31, RAX, RCX)
    } else if op == 3 {
        enc_binop(0x21, RAX, RCX) + nzcv_bytes()
    } else {
        Seq::empty()
    }
}

/// AND/ORR/EOR/ANDS (immediate): RAX = rn (31 as XZR), RCX = the mask,
/// combined; for an implemented `op` the result is truncated to 32 bits for
/// a W form and written to `rd` unless it is 31.
pub open spec fn logic_imm_bytes(rd: u8, rn: u8, mask: u64, op: u8, sf: bool) -> Seq<u8> {
    reg_or_zero_bytes(RAX, rn) + enc_mov_ri64(RCX, mask) + logic_imm_op_bytes(op) + opt(
        op <= 3,
        opt(!sf, enc_zero_ext_r32(RAX)) + opt(rd != 31, stg_bytes(rd, RAX)),
    )
}

fn translate_logic_imm(buf: &mut CodeBuf, rd: u8, rn: u8, mask: u64, op: u8, sf: bool) -> (ok:
    bool)
    ensures
        ok == (op <= 3),
        final(buf)@ == old(buf)@ + logic_imm_bytes(rd, rn, mask, op, sf),
{
    let ghost start = buf@;
    load_reg_or_zero(buf, RAX, rn);  // `mov xd, #imm` is `orr xd, xzr, #imm`
    buf.mov_ri64(RCX, mask);
    let ghost p1 = buf@;
    if op == 0 {
        buf.and_rr64(RAX, RCX);
    } else if op == 1 {
        buf.or_rr64(RAX, RCX);
    } else if op == 2 {
        buf.xor_rr64(RAX, RCX);
    } else if op == 3 {
        buf.and_rr64(RAX, RCX);  // ANDS / TST
        store_nzcv(buf);
    }
    let ghost p2 = buf@;
    if op <= 3 {
        if !sf {
            buf.zero_ext_r32(RAX);
        }
        let ghost m = buf@;
        if rd != 31 {
            stg(buf, rd as u32, RAX);
        }
        proof {
            if sf {
                lemma_grow_none(p2);
            }
            if rd == 31 {
                lemma_grow_none(m);
            }
            assert(m == p2 + opt(!sf, enc_zero_ext_r32(RAX)));
            assert(buf@ == m + opt(rd != 31, stg_bytes(rd, RAX)));
            lemma_grow(
                p2,
                opt(!sf, enc_zero_ext_r32(RAX)),
                m,
                opt(rd != 31, stg_bytes(rd, RAX)),
                buf@,
            );
        }
    } else {
        proof {
            lemma_grow_none(p2);
        }
    }
    proof {
        assert(p1 =~= start + (reg_or_zero_bytes(RAX, rn) + enc_mov_ri64(RCX, mask)));
        assert(p2 =~= p1 + logic_imm_op_bytes(op));
        lemma_grow(
            start,
            reg_or_zero_bytes(RAX, rn) + enc_mov_ri64(RCX, mask),
            p1,
            logic_imm_op_bytes(op),
            p2,
        );
        lemma_grow(
            start,
            reg_or_zero_bytes(RAX, rn) + enc_mov_ri64(RCX, mask) + logic_imm_op_bytes(op),
            p2,
            opt(op <= 3, opt(!sf, enc_zero_ext_r32(RAX)) + opt(rd != 31, stg_bytes(rd, RAX))),
            buf@,
        );
    }
    op <= 3
}

/// Bytes of `ldg_src(g)`.
pub open spec fn ldg_src_bytes(g: u8) -> Seq<u8> {
    prog_bytes(ldg_src_prog(g as u32))
}

/// `mov [RBX + PC_OFF], rax`: the guest pc for the dispatcher.
pub open spec fn pc_store_bytes() -> Seq<u8> {
    enc_mov_store64(RBX, PC_OFF, RAX)
}

/// `jmp rel32` with a zero displacement.
pub open spec fn jmp_bytes() -> Seq<u8> {
    seq![0xE9u8, 0u8, 0u8, 0u8, 0u8]
}

/// `call rel32` with a zero displacement.
pub open spec fn call_bytes() -> Seq<u8> {
    seq![0xE8u8, 0u8, 0u8, 0u8, 0u8]
}

/// `jcc rel32` (0F cc) with a zero displacement.
pub open spec fn jcc_bytes(cc: u8) -> Seq<u8> {
    seq![0x0Fu8, cc, 0u8, 0u8, 0u8, 0u8]
}

/// The guest address `imm` bytes from `pc`, modulo 2^64.
pub open spec fn branch_target(pc: u64, imm: i64) -> u64 {
    pc.wrapping_add(imm as u64)
}

/// ADDVL/ADDSVL: RAX = rn (31 as XZR), plus the byte count when non-zero,
/// written to `rd` unless it is 31.
pub open spec fn add_vector_len_bytes(rd: u8, rn: u8, imm_bytes: i64) -> Seq<u8> {
    ldg_src_bytes(rn) + opt(imm_bytes != 0, enc_ari_imm(0, RAX, imm_bytes as u32)) + opt(
        rd != 31,
        stg_bytes(rd, RAX),
    )
}

fn translate_add_vector_len(buf: &mut CodeBuf, rd: u8, rn: u8, imm_bytes: i64)
    ensures
        final(buf)@ == old(buf)@ + add_vector_len_bytes(rd, rn, imm_bytes),
{
    let ghost start = buf@;
    ldg_src(buf, rn as u32);
    let ghost p1 = buf@;
    if imm_bytes != 0 {
        buf.add_ri64(RAX, imm_bytes as u32);
    }
    let ghost p2 = buf@;
    if rd != 31 {
        stg(buf, rd as u32, RAX);
    }
    proof {
        if imm_bytes == 0 {
            lemma_grow_none(p1);
        }
        if rd == 31 {
            lemma_grow_none(p2);
        }
        let a = ldg_src_bytes(rn);
        let b = opt(imm_bytes != 0, enc_ari_imm(0, RAX, imm_bytes as u32));
        assert(p2 == p1 + b);
        lemma_grow(start, a, p1, b, p2);
        lemma_grow(start, a + b, p2, opt(rd != 31, stg_bytes(rd, RAX)), buf@);
    }
}

/// CNTD: 2 (the doublewords in a 16-byte vector) into `rd` unless it is 31.
pub open spec fn sve_cntd_bytes(rd: u8) -> Seq<u8> {
    opt(rd != 31, enc_mov_ri64(RAX, 2) + stg_bytes(rd, RAX))
}

fn translate_sve_cntd(buf: &mut CodeBuf, rd: u8)
    ensures
        final(buf)@ == old(buf)@ + sve_cntd_bytes(rd),
{
    let ghost start = buf@;
    if rd != 31 {
        buf.mov_ri64(RAX, 2);
        stg(buf, rd as u32, RAX);
        proof {
            assert(buf@ =~= start + sve_cntd_bytes(rd));
        }
    } else {
        proof {
            lemma_grow_none(start);
        }
    }
}

/// BR: the guest pc becomes `x[rn]` and control returns to the dispatcher.
pub open spec fn br_bytes(rn: u8) -> Seq<u8> {
    ldg_bytes(RAX, rn) + pc_store_bytes() + ret_bytes()
}

fn translate_br(buf: &mut CodeBuf, rn: u8)
    ensures
        final(buf)@ == old(buf)@ + br_bytes(rn),
{
    let ghost start = buf@;
    ldg(buf, RAX, rn as u32);
    buf.mov_store64(RBX, PC_OFF, RAX);
    buf.ret();
    proof {
        assert(buf@ =~= start + br_bytes(rn));
    }
}

/// The link value `pc + 4` into x30.
pub open spec fn link_bytes(pc: u64) -> Seq<u8> {
    enc_mov_ri64(RAX, pc.wrapping_add(4)) + stg_bytes(30, RAX)
}

fn store_link(buf: &mut CodeBuf, pc: u64)
    ensures
        final(buf)@ == old(buf)@ + link_bytes(pc),
{
    let ghost start = buf@;
    buf.mov_ri64(RAX, pc.wrapping_add(4));
    stg(buf, 30, RAX);
    proof {
        assert(buf@ =~= start + link_bytes(pc));
    }
}

/// BLR: x30 = pc + 4, then as BR.
pub open spec fn blr_bytes(pc: u64, rn: u8) -> Seq<u8> {
    link_bytes(pc) + br_bytes(rn)
}

/// RET: the guest pc becomes x30, x0 is returned in RAX.
pub open spec fn ret_inst_bytes() -> Seq<u8> {
    ldg_bytes(RAX, 30) + pc_store_bytes() + enc_mov_load64(RAX, RBX, 0) + ret_bytes()
}

fn translate_ret(buf: &mut CodeBuf)
    ensures
        final(buf)@ == old(buf)@ + ret_inst_bytes(),
{
    let ghost start = buf@;
    ldg(buf, RAX, 30);
    buf.mov_store64(RBX, PC_OFF, RAX);
    buf.mov_load64(RAX, RBX, 0);
    buf.ret();
    proof {
        assert(buf@ =~= start + ret_inst_bytes());
    }
}

/// B: `jmp rel32`; BL: the link, then `call rel32`.
pub open spec fn b_bytes(pc: u64, link: bool) -> Seq<u8> {
    if link {
        link_bytes(pc) + call_bytes()
    } else {
        jmp_bytes()
    }
}

/// The fixup of B/BL emitted at buffer offset `at`: a call fixup (0xfe) for
/// BL, an unconditional-jump fixup (0xff) for B.
pub open spec fn b_fixups(pc: u64, imm: i64, link: bool, at: int) -> Seq<Fixup> {
    if link {
        seq![
            Fixup {
                target_pc: branch_target(pc, imm),
                disp_off: (at + link_bytes(pc).len() + 1) as usize,
                cc: 0xfe,
            },
        ]
    } else {
        seq![Fixup { target_pc: branch_target(pc, imm), disp_off: (at + 1) as usize, cc: 0xff }]
    }
}

fn translate_b(buf: &mut CodeBuf, pc: u64, imm: i64, link: bool, fixups: &mut Vec<Fixup>)
    ensures
        final(buf)@ == old(buf)@ + b_bytes(pc, link),
        final(fixups)@ == old(fixups)@ + b_fixups(pc, imm, link, old(buf)@.len() as int),
{
    let ghost start = buf@;
    if link {
        // BL: guest LR = pc + 4, then a host call to the target block.
        store_link(buf, pc);
        let disp = buf.call_rel32();
        fixups.push(Fixup { target_pc: pc.wrapping_add(imm as u64), disp_off: disp, cc: 0xfe });
    } else {
        let disp = buf.jmp_rel32();
        fixups.push(Fixup { target_pc: pc.wrapping_add(imm as u64), disp_off: disp, cc: 0xff });
    }
    proof {
        assert(buf@ =~= start + b_bytes(pc, link));
        assert(fixups@ =~= old(fixups)@ + b_fixups(pc, imm, link, start.len() as int));
    }
}

/// ADR: `rd = pc + imm`.
pub open spec fn adr_value(pc: u64, imm: i64) -> u64 {
    (pc as i64).wrapping_add(imm) as u64
}

/// ADRP: `rd = (pc & !0xfff) + imm`.
pub open spec fn adrp_value(pc: u64, imm: i64) -> u64 {
    ((pc as i64) & !0xfffi64).wrapping_add(imm) as u64
}

/// The constant `v` into guest register `rd` through RAX (`mov r64, imm64`).
pub open spec fn const_to_reg_bytes(rd: u8, v: u64) -> Seq<u8> {
    enc_mov_ri64(RAX, v) + stg_bytes(rd, RAX)
}

fn const_to_reg(buf: &mut CodeBuf, rd: u8, v: u64)
    ensures
        final(buf)@ == old(buf)@ + const_to_reg_bytes(rd, v),
{
    let ghost start = buf@;
    buf.mov_ri64(RAX, v);
    stg(buf, rd as u32, RAX);
    proof {
        assert(buf@ =~= start + const_to_reg_bytes(rd, v));
    }
}

/// The jcc second byte of CBZ/TBZ (JZ) or CBNZ/TBNZ (JNZ).
pub open spec fn zero_test_cc(nonzero: bool) -> u8 {
    if nonzero {
        0x85
    } else {
        0x84
    }
}

/// CBZ/CBNZ: `test` of `rt` (31 as XZR) against itself, then the jcc.
pub open spec fn cbz_bytes(rt: u8, nonzero: bool) -> Seq<u8> {
    ldg_src_bytes(rt) + enc_binop(0x85, RAX, RAX) + jcc_bytes(zero_test_cc(nonzero))
}

/// The fixup of CBZ/CBNZ emitted at `at`.
pub open spec fn cbz_fixups(pc: u64, rt: u8, imm: i64, nonzero: bool, at: int) -> Seq<Fixup> {
    seq![
        Fixup {
            target_pc: branch_target(pc, imm),
            disp_off: (at + ldg_src_bytes(rt).len() + enc_binop(0x85, RAX, RAX).len() + 2) as usize,
            cc: zero_test_cc(nonzero),
        },
    ]
}

fn translate_cbz(
    buf: &mut CodeBuf,
    pc: u64,
    rt: u8,
    imm: i64,
    nonzero: bool,
    fixups: &mut Vec<Fixup>,
)
    ensures
        final(buf)@ == old(buf)@ + cbz_bytes(rt, nonzero),
        final(fixups)@ == old(fixups)@ + cbz_fixups(pc, rt, imm, nonzero, old(buf)@.len() as int),
{
    let ghost start = buf@;
    let target = pc.wrapping_add(imm as u64);
    ldg_src(buf, rt as u32);
    buf.test_rr64(RAX, RAX);
    let cc: u8 = if nonzero { 0x85 } else { 0x84 };  // jnz / jz
    let disp = buf.jcc_rel32(cc);
    fixups.push(Fixup { target_pc: target, disp_off: disp, cc });
    proof {
        assert(buf@ =~= start + cbz_bytes(rt, nonzero));
        assert(fixups@ =~= old(fixups)@ + cbz_fixups(pc, rt, imm, nonzero, start.len() as int));
    }
}

/// The single-bit mask of TBZ/TBNZ (0 for a bit number past 63).
pub open spec fn tbz_mask(bit: u8) -> u64 {
    if bit < 64 {
        1u64 << bit
    } else {
        0
    }
}

/// TBZ/TBNZ: `rt` (31 as XZR) in RAX, the bit mask in RCX, `test`, jcc.
pub open spec fn tbz_bytes(rt: u8, bit: u8, nonzero: bool) -> Seq<u8> {
    ldg_src_bytes(rt) + enc_mov_ri64(RCX, tbz_mask(bit)) + enc_binop(0x85, RAX, RCX) + jcc_bytes(
        zero_test_cc(nonzero),
    )
}

/// The fixup of TBZ/TBNZ emitted at `at`.
pub open spec fn tbz_fixups(pc: u64, rt: u8, bit: u8, imm: i64, nonzero: bool, at: int) -> Seq<
    Fixup,
> {
    seq![
        Fixup {
            target_pc: branch_target(pc, imm),
            disp_off: (at + ldg_src_bytes(rt).len() + enc_mov_ri64(RCX, tbz_mask(bit)).len()
                + enc_binop(0x85, RAX, RCX).len() + 2) as usize,
            cc: zero_test_cc(nonzero),
        },
    ]
}

fn translate_tbz(
    buf: &mut CodeBuf,
    pc: u64,
    rt: u8,
    bit: u8,
    imm: i64,
    nonzero: bool,
    fixups: &mut Vec<Fixup>,
)
    ensures
        final(buf)@ == old(buf)@ + tbz_bytes(rt, bit, nonzero),
        final(fixups)@ == old(fixups)@ + tbz_fixups(
            pc,
            rt,
            bit,
            imm,
            nonzero,
            old(buf)@.len() as int,
        ),
{
    let ghost start = buf@;
    let target = pc.wrapping_add(imm as u64);
    ldg_src(buf, rt as u32);
    let b: u8 = if bit < 63 { bit } else { 63 };
    let mask: u64 = (1u64 << b) & (if bit >= 64 { 0 } else { 0xffff_ffff_ffff_ffff });
    proof {
        assert(mask == tbz_mask(bit)) by (bit_vector)
            requires
                b == (if bit < 63 { bit } else { 63u8 }),
                mask == (1u64 << b) & (if bit >= 64 { 0u64 } else { 0xffff_ffff_ffff_ffffu64 }),
        ;
    }
    buf.mov_ri64(RCX, mask);
    buf.test_rr64(RAX, RCX);  // ZF = the tested bit is clear
    let cc: u8 = if nonzero { 0x85 } else { 0x84 };
    let disp = buf.jcc_rel32(cc);
    fixups.push(Fixup { target_pc: target, disp_off: disp, cc });
    proof {
        assert(buf@ =~= start + tbz_bytes(rt, bit, nonzero));
        assert(fixups@ =~= old(fixups)@ + tbz_fixups(
            pc,
            rt,
            bit,
            imm,
            nonzero,
            start.len() as int,
        ));
    }
}

/// B.cond: AL is a `jmp`, NV emits nothing, the others load NZCV into
/// RFLAGS and emit the mapped jcc; a condition past 15 emits nothing.
pub open spec fn bcond_bytes(cond: u8) -> Seq<u8> {
    if cond == 0xE {
        jmp_bytes()
    } else if cond == 0xF {
        Seq::empty()
    } else {
        match cond_cc(cond) {
            Some(cc) => prog_bytes(load_nzcv_to_eflags_prog()) + jcc_bytes(cc),
            None => Seq::empty(),
        }
    }
}

/// The fixup of B.cond emitted at `at`.
pub open spec fn bcond_fixups(pc: u64, cond: u8, imm: i64, at: int) -> Seq<Fixup> {
    if cond == 0xE {
        seq![Fixup { target_pc: branch_target(pc, imm), disp_off: (at + 1) as usize, cc: 0xff }]
    } else if cond == 0xF {
        Seq::empty()
    } else {
        match cond_cc(cond) {
            Some(cc) => seq![
                Fixup {
                    target_pc: branch_target(pc, imm),
                    disp_off: (at + prog_bytes(load_nzcv_to_eflags_prog()).len() + 2) as usize,
                    cc,
                },
            ],
            None => Seq::empty(),
        }
    }
}

fn translate_bcond(buf: &mut CodeBuf, pc: u64, cond: u8, imm: i64, fixups: &mut Vec<Fixup>) -> (ok:
    bool)
    ensures
        ok == (cond <= 0xF),
        final(buf)@ == old(buf)@ + bcond_bytes(cond),
        final(fixups)@ == old(fixups)@ + bcond_fixups(pc, cond, imm, old(buf)@.len() as int),
{
    let ghost start = buf@;
    let target = pc.wrapping_add(imm as u64);
    if cond == 0xE {
        // AL: an unconditional jmp
        let disp = buf.jmp_rel32();
        fixups.push(Fixup { target_pc: target, disp_off: disp, cc: 0xff });
    } else if cond == 0xF {
        // NV: never taken, nothing to emit
        proof {
            lemma_grow_none(start);
            assert(fixups@ =~= old(fixups)@ + Seq::<Fixup>::empty());
        }
    } else {
        match x86_cc_for_cond(cond) {
            Some(cc) => {
                // The stored NZCV is the authoritative copy: popfq is the last
                // instruction before the jcc that reads it.
                load_nzcv_to_eflags(buf);
                let disp = buf.jcc_rel32(cc);
                fixups.push(Fixup { target_pc: target, disp_off: disp, cc });
            },
            None => {
                proof {
                    lemma_grow_none(start);
                    assert(fixups@ =~= old(fixups)@ + Seq::<Fixup>::empty());
                }
                return false;
            },
        }
    }
    proof {
        assert(buf@ =~= start + bcond_bytes(cond));
        assert(fixups@ =~= old(fixups)@ + bcond_fixups(pc, cond, imm, start.len() as int));
    }
    true
}

/// The byte offset `imm * size` of a scaled load/store, or 0 when the
/// product leaves the 32-bit range.
pub open spec fn ldst_off(imm: u32, size: u8) -> i32 {
    let p = (imm as i32) as int * size as int;
    if i32::MIN <= p <= i32::MAX {
        p as i32
    } else {
        0
    }
}

/// The address `x[rn] + off` into RDX (register 31 is SP as a base).
pub open spec fn ldst_addr_prog(rn: u8, off: i32) -> Seq<Op> {
    seq![Op::Load64(RDX, RBX, slot_of(rn as u32))] + if off != 0 {
        seq![Op::Lea(RDX, RDX, off)]
    } else {
        Seq::empty()
    }
}

/// A load/store size and form the translator implements: 1, 2 or 4 bytes
/// sign-extended, 1, 2, 4 or 8 bytes otherwise.
pub open spec fn ldst_size_ok(size: u8, ld: bool, sext: bool) -> bool {
    if ld && sext {
        size == 1 || size == 2 || size == 4
    } else {
        size == 1 || size == 2 || size == 4 || size == 8
    }
}

/// The fixed part of the access at `[RDX + disp]`: the load into RAX,
/// sign-extended to 64 bits for `sext`, or the store of RAX.
pub open spec fn ldst_core_prog(size: u8, ld: bool, sext: bool, disp: i32) -> Seq<Op> {
    if ld && sext {
        if size == 4 {
            seq![Op::Load32(RAX, RDX, disp), Op::Movsxd(RAX, RAX)]
        } else if size == 2 {
            seq![
                Op::Load16(RAX, RDX, disp),
                Op::ShiftRI(ShiftOp::Shl, RAX, 48),
                Op::ShiftRI(ShiftOp::Sar, RAX, 48),
            ]
        } else {
            seq![
                Op::Load8(RAX, RDX, disp),
                Op::ShiftRI(ShiftOp::Shl, RAX, 56),
                Op::ShiftRI(ShiftOp::Sar, RAX, 56),
            ]
        }
    } else if ld {
        if size == 8 {
            seq![Op::Load64(RAX, RDX, disp)]
        } else if size == 4 {
            seq![Op::Load32(RAX, RDX, disp)]
        } else if size == 2 {
            seq![Op::Load16(RAX, RDX, disp)]
        } else {
            seq![Op::Load8(RAX, RDX, disp)]
        }
    } else if size == 8 {
        seq![Op::Store64(RDX, disp, RAX)]
    } else if size == 4 {
        seq![Op::Store32(RDX, disp, RAX)]
    } else if size == 2 {
        seq![Op::Store16(RDX, disp, RAX)]
    } else {
        seq![Op::Store8(RDX, disp, RAX)]
    }
}

/// The access of an implemented size at `[RDX + disp]`: a load then the
/// write of `rt` (none for XZR), or the store source (31 as XZR) then the
/// store.
pub open spec fn ldst_access_prog(rt: u8, size: u8, ld: bool, sext: bool, disp: i32) -> Seq<Op> {
    if !ldst_size_ok(size, ld, sext) {
        Seq::empty()
    } else if ld {
        ldst_core_prog(size, ld, sext, disp) + stg_if_writable_prog(rt as u32)
    } else {
        ldg_src_prog(rt as u32) + ldst_core_prog(size, ld, sext, disp)
    }
}

/// LDR/STR (unsigned immediate) as a program: the address, then the access.
pub open spec fn ld_str_imm_prog(rt: u8, rn: u8, imm: u32, size: u8, ld: bool, sext: bool) -> Seq<
    Op,
> {
    ldst_addr_prog(rn, ldst_off(imm, size)) + ldst_access_prog(rt, size, ld, sext, 0)
}

fn ldst_core(buf: &mut CodeBuf, size: u8, ld: bool, sext: bool, disp: i32)
    requires
        ldst_size_ok(size, ld, sext),
    ensures
        final(buf)@ == old(buf)@ + prog_bytes(ldst_core_prog(size, ld, sext, disp)),
{
    let ghost start = buf@;
    let ghost prog = ldst_core_prog(size, ld, sext, disp);
    if ld && sext {
        if size == 4 {
            buf.mov_load32(RAX, RDX, disp);
            proof {
                emitted_nth(start, prog, 0, buf@);
            }
            buf.movsxd_r64_r32(RAX, RAX);  // ldrsw
            proof {
                emitted_nth(start, prog, 1, buf@);
            }
        } else if size == 2 {
            buf.movzx_word_mem(RAX, RDX, disp);
            proof {
                emitted_nth(start, prog, 0, buf@);
            }
            buf.shl_ri8(RAX, 48);
            proof {
                emitted_nth(start, prog, 1, buf@);
            }
            buf.sar_ri8(RAX, 48);  // 16 -> 64 sign extension
            proof {
                emitted_nth(start, prog, 2, buf@);
            }
        } else {
            buf.movzx_byte_mem(RAX, RDX, disp);
            proof {
                emitted_nth(start, prog, 0, buf@);
            }
            buf.shl_ri8(RAX, 56);
            proof {
                emitted_nth(start, prog, 1, buf@);
            }
            buf.sar_ri8(RAX, 56);  // 8 -> 64 sign extension
            proof {
                emitted_nth(start, prog, 2, buf@);
            }
        }
    } else {
        if ld {
            if size == 8 {
                buf.mov_load64(RAX, RDX, disp);
            } else if size == 4 {
                buf.mov_load32(RAX, RDX, disp);  // a W load zero-extends
            } else if size == 2 {
                buf.movzx_word_mem(RAX, RDX, disp);  // ldrh zero-extends
            } else {
                buf.movzx_byte_mem(RAX, RDX, disp);  // ldrb zero-extends
            }
        } else if size == 8 {
            buf.mov_store64(RDX, disp, RAX);
        } else if size == 4 {
            buf.mov_store32(RDX, disp, RAX);
        } else if size == 2 {
            buf.mov_store16(RDX, disp, RAX);
        } else {
            buf.mov_store8(RDX, disp, RAX);
        }
        proof {
            emitted_nth(start, prog, 0, buf@);
        }
    }
    proof {
        lemma_take_all(prog);
    }
}

/// The access at `[RDX + disp]`, when the size is implemented.
fn ldst_access(buf: &mut CodeBuf, rt: u8, size: u8, ld: bool, sext: bool, disp: i32) -> (ok: bool)
    ensures
        ok == ldst_size_ok(size, ld, sext),
        final(buf)@ == old(buf)@ + prog_bytes(ldst_access_prog(rt, size, ld, sext, disp)),
{
    let ghost start = buf@;
    let ok = if ld && sext {
        size == 1 || size == 2 || size == 4
    } else {
        size == 1 || size == 2 || size == 4 || size == 8
    };
    if ok {
        if ld {
            ldst_core(buf, size, ld, sext, disp);
            stg_if_writable(buf, rt as u32);  // a load into XZR writes nothing
            proof {
                lemma_prog_bytes_concat(
                    ldst_core_prog(size, ld, sext, disp),
                    stg_if_writable_prog(rt as u32),
                );
            }
        } else {
            ldg_src(buf, rt as u32);  // `str xzr` stores zero
            ldst_core(buf, size, ld, sext, disp);
            proof {
                lemma_prog_bytes_concat(ldg_src_prog(rt as u32), ldst_core_prog(size, ld, sext, disp));
            }
        }
    } else {
        proof {
            assert(prog_bytes(ldst_access_prog(rt, size, ld, sext, disp)) =~= Seq::<u8>::empty());
            lemma_grow_none(start);
        }
    }
    proof {
        assert(buf@ =~= start + prog_bytes(ldst_access_prog(rt, size, ld, sext, disp)));
    }
    ok
}

fn translate_ld_str_imm(buf: &mut CodeBuf, rt: u8, rn: u8, imm: u32, size: u8, ld: bool, sext: bool) -> (ok:
    bool)
    ensures
        ok == ldst_size_ok(size, ld, sext),
        final(buf)@ == old(buf)@ + prog_bytes(ld_str_imm_prog(rt, rn, imm, size, ld, sext)),
{
    let ghost start = buf@;
    let imm_s: i32 = #[verifier::truncate] (imm as i32);
    proof {
        assert(-0x80_0000_0000 <= imm_s as int * size as int <= 0x80_0000_0000) by (nonlinear_arith)
            requires
                -0x8000_0000 <= imm_s <= 0x7fff_ffff,
                0 <= size <= 255,
        ;
    }
    let prod: i64 = imm_s as i64 * size as i64;
    let off: i32 = if i32::MIN as i64 <= prod && prod <= i32::MAX as i64 {
        prod as i32
    } else {
        0
    };
    let ghost addr = ldst_addr_prog(rn, off);
    // address = rn + imm * size, in RDX
    ldg(buf, RDX, rn as u32);
    proof {
        lemma_prog_bytes_single(Op::Load64(RDX, RBX, slot_of(rn as u32)));
        assert(addr[0] == Op::Load64(RDX, RBX, slot_of(rn as u32)));
        emitted_nth(start, addr, 0, buf@);
    }
    if off != 0 {
        buf.lea64(RDX, RDX, off);
        proof {
            emitted_nth(start, addr, 1, buf@);
        }
    }
    proof {
        lemma_take_all(addr);
    }
    let ok = ldst_access(buf, rt, size, ld, sext, 0);
    proof {
        lemma_prog_bytes_concat(addr, ldst_access_prog(rt, size, ld, sext, 0));
    }
    ok
}

/// The offset of the access of a pre/post-indexed or unscaled load/store:
/// none for post-index.
pub open spec fn wb_access_off(imm9: i32, writeback: bool, pre: bool) -> i32 {
    if writeback && !pre {
        0
    } else {
        imm9
    }
}

/// `x[rn] += imm9` through RAX.
pub open spec fn base_update_prog(rn: u8, imm9: i32) -> Seq<Op> {
    seq![Op::Load64(RAX, RBX, slot_of(rn as u32))] + (if imm9 != 0 {
        seq![Op::AluRI(AluOp::Add, RAX, imm9 as u32)]
    } else {
        Seq::empty()
    }) + seq![Op::Store64(RBX, slot_of(rn as u32), RAX)]
}

fn base_update(buf: &mut CodeBuf, rn: u8, imm9: i32)
    ensures
        final(buf)@ == old(buf)@ + prog_bytes(base_update_prog(rn, imm9)),
{
    let ghost start = buf@;
    let ghost prog = base_update_prog(rn, imm9);
    ldg(buf, RAX, rn as u32);
    proof {
        lemma_prog_bytes_single(Op::Load64(RAX, RBX, slot_of(rn as u32)));
        assert(prog[0] == Op::Load64(RAX, RBX, slot_of(rn as u32)));
        emitted_nth(start, prog, 0, buf@);
    }
    if imm9 != 0 {
        buf.add_ri64(RAX, imm9 as u32);  // the imm32 sign-extends
        proof {
            emitted_nth(start, prog, 1, buf@);
        }
    }
    let ghost k: int = if imm9 != 0 { 2 } else { 1 };
    stg(buf, rn as u32, RAX);
    proof {
        lemma_prog_bytes_single(Op::Store64(RBX, slot_of(rn as u32), RAX));
        assert(prog[k] == Op::Store64(RBX, slot_of(rn as u32), RAX));
        emitted_nth(start, prog, k, buf@);
        assert(prog.len() == k + 1);
        lemma_take_all(prog);
    }
}

/// The base register of a load/store into RDX (31 is SP).
pub open spec fn base_prog(rn: u8) -> Seq<Op> {
    seq![Op::Load64(RDX, RBX, slot_of(rn as u32))]
}

/// A pre/post-indexed or unscaled load/store: the base, the access, and for
/// an implemented size with writeback the base update.
pub open spec fn ld_str_wb_prog(
    rt: u8,
    rn: u8,
    imm9: i32,
    size: u8,
    ld: bool,
    sext: bool,
    writeback: bool,
    pre: bool,
) -> Seq<Op> {
    base_prog(rn) + ldst_access_prog(rt, size, ld, sext, wb_access_off(imm9, writeback, pre)) + (
    if ldst_size_ok(size, ld, sext) && writeback {
        base_update_prog(rn, imm9)
    } else {
        Seq::empty()
    })
}

fn load_base(buf: &mut CodeBuf, rn: u8)
    ensures
        final(buf)@ == old(buf)@ + prog_bytes(base_prog(rn)),
{
    ldg(buf, RDX, rn as u32);
}

fn translate_ld_str_wb(
    buf: &mut CodeBuf,
    rt: u8,
    rn: u8,
    imm9: i32,
    size: u8,
    ld: bool,
    sext: bool,
    writeback: bool,
    pre: bool,
) -> (ok: bool)
    ensures
        ok == ldst_size_ok(size, ld, sext),
        final(buf)@ == old(buf)@ + prog_bytes(
            ld_str_wb_prog(rt, rn, imm9, size, ld, sext, writeback, pre),
        ),
{
    let ghost start = buf@;
    // pre-index and unscaled access x[rn] + imm9, post-index x[rn]
    let access_off = if writeback && !pre {
        0
    } else {
        imm9
    };
    load_base(buf, rn);
    let ghost p1 = buf@;
    let ok = ldst_access(buf, rt, size, ld, sext, access_off);
    let ghost p2 = buf@;
    if ok && writeback {
        base_update(buf, rn, imm9);
    }
    proof {
        let a = base_prog(rn);
        let b = ldst_access_prog(rt, size, ld, sext, access_off);
        let c = if ok && writeback {
            base_update_prog(rn, imm9)
        } else {
            Seq::empty()
        };
        if !(ok && writeback) {
            assert(prog_bytes(c) =~= Seq::<u8>::empty());
            lemma_grow_none(p2);
        }
        lemma_grow(start, prog_bytes(a), p1, prog_bytes(b), p2);
        lemma_grow(start, prog_bytes(a) + prog_bytes(b), p2, prog_bytes(c), buf@);
        lemma_prog_bytes_concat(a, b);
        lemma_prog_bytes_concat(a + b, c);
    }
    ok
}

/// The byte count `1 << size` of an exclusive or acquire/release access,
/// or 0 (no implemented size) past 3.
pub open spec fn log2_size(size: u8) -> u8 {
    if size == 0 {
        1
    } else if size == 1 {
        2
    } else if size == 2 {
        4
    } else if size == 3 {
        8
    } else {
        0
    }
}

fn log2_size_exec(size: u8) -> (n: u8)
    ensures
        n == log2_size(size),
{
    if size == 0 {
        1
    } else if size == 1 {
        2
    } else if size == 2 {
        4
    } else if size == 3 {
        8
    } else {
        0
    }
}

/// LDAR/STLR: a plain access (ordering is moot in a single-threaded
/// translation); LDXR/STXR: the same, a store also writing status 0
/// (success) to `rs`.
pub open spec fn exclusive_prog(rt: u8, rn: u8, size: u8, ld: bool, status: Option<u8>) -> Seq<Op> {
    base_prog(rn) + ldst_access_prog(rt, log2_size(size), ld, false, 0) + match status {
        Some(rs) => if size <= 3 && !ld {
            stg0_prog(rs as u32)
        } else {
            Seq::empty()
        },
        None => Seq::empty(),
    }
}

fn translate_exclusive(buf: &mut CodeBuf, rt: u8, rn: u8, size: u8, ld: bool, status: Option<u8>) -> (ok:
    bool)
    ensures
        ok == (size <= 3),
        final(buf)@ == old(buf)@ + prog_bytes(exclusive_prog(rt, rn, size, ld, status)),
{
    let ghost start = buf@;
    load_base(buf, rn);
    let ghost p1 = buf@;
    let ok = ldst_access(buf, rt, log2_size_exec(size), ld, false, 0);
    let ghost p2 = buf@;
    let ghost c = match status {
        Some(rs) => if size <= 3 && !ld {
            stg0_prog(rs as u32)
        } else {
            Seq::empty()
        },
        None => Seq::empty(),
    };
    match status {
        Some(rs) => {
            if ok && !ld {
                stg0(buf, rs as u32);  // the exclusive store always succeeds
            }
        },
        None => {},
    }
    proof {
        let a = base_prog(rn);
        let b = ldst_access_prog(rt, log2_size(size), ld, false, 0);
        if buf@ == p2 {
            assert(prog_bytes(c) =~= Seq::<u8>::empty());
            lemma_grow_none(p2);
        }
        lemma_grow(start, prog_bytes(a), p1, prog_bytes(b), p2);
        lemma_grow(start, prog_bytes(a) + prog_bytes(b), p2, prog_bytes(c), buf@);
        lemma_prog_bytes_concat(a, b);
        lemma_prog_bytes_concat(a + b, c);
    }
    ok
}

/// `head`, the decimal `n`, `tail`.
pub(crate) fn decimal_msg(head: &str, n: u8, tail: &str) -> (msg: String)
    ensures
        msg@ == head@ + decimal(n as nat) + tail@,
{
    let mut msg = String::from_str(head);
    append_decimal(&mut msg, n);
    msg.append(tail);
    msg
}

/// `movsxd rd, rs32`
pub open spec fn movsxd_bytes(rd: u8, rs: u8) -> Seq<u8> {
    seq![rex_w(rd, rs), 0x63u8, modrm_byte(3, rd & 7, rs & 7)]
}

/// `imul rd, rs` (64-bit, low half of the product)
pub open spec fn imul_bytes(rd: u8, rs: u8) -> Seq<u8> {
    seq![rex_w(rd, rs), 0x0Fu8, 0xAFu8, modrm_byte(3, rd & 7, rs & 7)]
}

/// UMULH/SMULH: one-operand `mul`/`imul` of RAX by RCX leaves the high half
/// in RDX, written to `rd` unless it is 31.
pub open spec fn mul_high_bytes(rd: u8, rn: u8, rm: u8, signed: bool) -> Seq<u8> {
    ldg_bytes(RAX, rn) + ldg_bytes(RCX, rm) + enc_grp3(if signed { 5 } else { 4 }, RCX) + opt(
        rd != 31,
        stg_bytes(rd, RDX),
    )
}

fn translate_mul_high(buf: &mut CodeBuf, rd: u8, rn: u8, rm: u8, signed: bool)
    ensures
        final(buf)@ == old(buf)@ + mul_high_bytes(rd, rn, rm, signed),
{
    let ghost start = buf@;
    ldg(buf, RAX, rn as u32);
    ldg(buf, RCX, rm as u32);
    if signed {
        buf.imul_high_r64(RCX);  // RDX:RAX = RAX * RCX, signed
    } else {
        buf.mul_high_r64(RCX);  // RDX:RAX = RAX * RCX, unsigned
    }
    let ghost p1 = buf@;
    if rd != 31 {
        stg(buf, rd as u32, RDX);
    }
    proof {
        let a = ldg_bytes(RAX, rn) + ldg_bytes(RCX, rm) + enc_grp3(if signed { 5 } else { 4 }, RCX);
        assert(p1 =~= start + a);
        if rd == 31 {
            lemma_grow_none(p1);
        }
        lemma_grow(start, a, p1, opt(rd != 31, stg_bytes(rd, RDX)), buf@);
    }
}

/// The division of UDIV/SDIV in MulDiv: the dividend in RAX (a W SDIV
/// operand sign-extended), RDX the sign (`cqo`) or zero, the divisor in RCX
/// (sign-extended for W SDIV), `idiv`/`div` leaving the quotient in RAX.
pub open spec fn mul_div_divide_bytes(rn: u8, rm: u8, signed: bool, sf: bool) -> Seq<u8> {
    ldg_bytes(RAX, rn) + (if signed {
        opt(!sf, movsxd_bytes(RAX, RAX)) + seq![0x48u8, 0x99u8]
    } else {
        enc_binop(0x31, RDX, RDX)
    }) + ldg_bytes(RCX, rm) + opt(signed && !sf, movsxd_bytes(RCX, RCX)) + enc_grp3_sized(
        true,
        if signed { 7 } else { 6 },
        RCX,
    )
}

/// MADD/MSUB in MulDiv: RAX = rn * rm, then `+ ra` (MADD) or `ra -` (MSUB,
/// through RDI) when `ra` is not XZR.
pub open spec fn mul_add_bytes(rn: u8, rm: u8, ra: u8, signed: bool) -> Seq<u8> {
    ldg_bytes(RAX, rn) + ldg_bytes(RCX, rm) + imul_bytes(RAX, RCX) + opt(
        ra != 31,
        ldg_bytes(RDI, ra) + if signed {
            enc_binop(0x29, RDI, RAX) + enc_mov_rr64(RAX, RDI)
        } else {
            enc_binop(0x01, RAX, RDI)
        },
    )
}

/// UDIV/SDIV or MADD/MSUB; the result truncated to 32 bits for a W form and
/// written to `rd` unless it is 31.
pub open spec fn mul_div_bytes(div: bool, signed: bool, rd: u8, rn: u8, rm: u8, ra: u8, sf: bool) -> Seq<
    u8,
> {
    (if div {
        mul_div_divide_bytes(rn, rm, signed, sf)
    } else {
        mul_add_bytes(rn, rm, ra, signed)
    }) + opt(!sf, enc_zero_ext_r32(RAX)) + opt(rd != 31, stg_bytes(rd, RAX))
}

fn mul_div_divide(buf: &mut CodeBuf, rn: u8, rm: u8, signed: bool, sf: bool)
    ensures
        final(buf)@ == old(buf)@ + mul_div_divide_bytes(rn, rm, signed, sf),
{
    let ghost start = buf@;
    ldg(buf, RAX, rn as u32);  // the dividend
    let ghost p1 = buf@;
    if signed {
        if !sf {
            buf.movsxd_r64_r32(RAX, RAX);  // re-extend only a W operand
        }
        let ghost m = buf@;
        buf.cqo();  // RAX -> RDX:RAX, signed
        proof {
            if sf {
                lemma_grow_none(p1);
            }
            assert(m == p1 + opt(!sf, movsxd_bytes(RAX, RAX)));
            lemma_grow(p1, opt(!sf, movsxd_bytes(RAX, RAX)), m, seq![0x48u8, 0x99u8], buf@);
        }
    } else {
        buf.xor_rr64(RDX, RDX);  // unsigned: zero high half
    }
    let ghost p2 = buf@;
    ldg(buf, RCX, rm as u32);  // the divisor
    let ghost p3 = buf@;
    if signed && !sf {
        buf.movsxd_r64_r32(RCX, RCX);
    }
    let ghost p4 = buf@;
    if signed {
        buf.idiv_r64(RCX);
    } else {
        buf.div_r64(RCX);
    }
    proof {
        let a = ldg_bytes(RAX, rn);
        let b = if signed {
            opt(!sf, movsxd_bytes(RAX, RAX)) + seq![0x48u8, 0x99u8]
        } else {
            enc_binop(0x31, RDX, RDX)
        };
        let c = ldg_bytes(RCX, rm);
        let d = opt(signed && !sf, movsxd_bytes(RCX, RCX));
        let e = enc_grp3_sized(true, if signed { 7 } else { 6 }, RCX);
        if !(signed && !sf) {
            lemma_grow_none(p3);
        }
        assert(p4 == p3 + d);
        assert(buf@ == p4 + e);
        lemma_grow(start, a, p1, b, p2);
        lemma_grow(start, a + b, p2, c, p3);
        lemma_grow(start, a + b + c, p3, d, p4);
        lemma_grow(start, a + b + c + d, p4, e, buf@);
    }
}

fn mul_add(buf: &mut CodeBuf, rn: u8, rm: u8, ra: u8, signed: bool)
    ensures
        final(buf)@ == old(buf)@ + mul_add_bytes(rn, rm, ra, signed),
{
    let ghost start = buf@;
    ldg(buf, RAX, rn as u32);
    ldg(buf, RCX, rm as u32);
    buf.imul_rr64(RAX, RCX);  // RAX = rn * rm (low 64 bits)
    let ghost p1 = buf@;
    let ghost tail = if signed {
        enc_binop(0x29, RDI, RAX) + enc_mov_rr64(RAX, RDI)
    } else {
        enc_binop(0x01, RAX, RDI)
    };
    if ra != 31 {
        // ra 31 is XZR here, never SP
        ldg(buf, RDI, ra as u32);
        if signed {
            buf.sub_rr64(RDI, RAX);  // MSUB: ra - rn * rm
            buf.mov_rr64(RAX, RDI);
        } else {
            buf.add_rr64(RAX, RDI);  // MADD: rn * rm + ra
        }
        proof {
            assert(buf@ =~= p1 + (ldg_bytes(RDI, ra) + tail));
        }
    } else {
        proof {
            lemma_grow_none(p1);
        }
    }
    proof {
        let a = ldg_bytes(RAX, rn) + ldg_bytes(RCX, rm) + imul_bytes(RAX, RCX);
        assert(p1 =~= start + a);
        lemma_grow(start, a, p1, opt(ra != 31, ldg_bytes(RDI, ra) + tail), buf@);
    }
}

/// The final W truncation and write of RAX shared by the multiply forms.
fn truncate_and_write(buf: &mut CodeBuf, sf: bool, rd: u8)
    ensures
        final(buf)@ == old(buf)@ + (opt(!sf, enc_zero_ext_r32(RAX)) + opt(
            rd != 31,
            stg_bytes(rd, RAX),
        )),
{
    let ghost start = buf@;
    if !sf {
        buf.zero_ext_r32(RAX);
    }
    let ghost p1 = buf@;
    if rd != 31 {
        stg(buf, rd as u32, RAX);
    }
    proof {
        if sf {
            lemma_grow_none(start);
        }
        if rd == 31 {
            lemma_grow_none(p1);
        }
        assert(p1 == start + opt(!sf, enc_zero_ext_r32(RAX)));
        lemma_grow(start, opt(!sf, enc_zero_ext_r32(RAX)), p1, opt(rd != 31, stg_bytes(rd, RAX)), buf@);
    }
}

fn translate_mul_div(
    buf: &mut CodeBuf,
    div: bool,
    signed: bool,
    rd: u8,
    rn: u8,
    rm: u8,
    ra: u8,
    sf: bool,
)
    ensures
        final(buf)@ == old(buf)@ + mul_div_bytes(div, signed, rd, rn, rm, ra, sf),
{
    let ghost start = buf@;
    if div {
        mul_div_divide(buf, rn, rm, signed, sf);
    } else {
        mul_add(buf, rn, rm, ra, signed);
    }
    let ghost p1 = buf@;
    truncate_and_write(buf, sf, rd);
    proof {
        let a = if div {
            mul_div_divide_bytes(rn, rm, signed, sf)
        } else {
            mul_add_bytes(rn, rm, ra, signed)
        };
        lemma_grow(start, a, p1, opt(!sf, enc_zero_ext_r32(RAX)) + opt(rd != 31, stg_bytes(rd, RAX)), buf@);
        assert(a + (opt(!sf, enc_zero_ext_r32(RAX)) + opt(rd != 31, stg_bytes(rd, RAX))) =~= a + opt(
            !sf,
            enc_zero_ext_r32(RAX),
        ) + opt(rd != 31, stg_bytes(rd, RAX)));
    }
}

/// The 32-bit operand in `r` sign- or zero-extended to 64 bits.
pub open spec fn ext32_bytes(signed: bool, r: u8) -> Seq<u8> {
    if signed {
        movsxd_bytes(r, r)
    } else {
        enc_zero_ext_r32(r)
    }
}

/// SMULL/UMULL and the long multiply-accumulates: both 32-bit operands
/// extended, multiplied (the 64-bit product is exact), then `ra` added, or
/// the product negated and `ra` added (`sub`), unless `ra` is XZR; written
/// to `rd` unless it is 31.
pub open spec fn mul_long_bytes(rd: u8, rn: u8, rm: u8, ra: u8, signed: bool, sub: bool) -> Seq<u8> {
    ldg_bytes(RAX, rn) + ext32_bytes(signed, RAX) + ldg_bytes(RCX, rm) + ext32_bytes(signed, RCX)
        + imul_bytes(RAX, RCX) + opt(
        ra != 31,
        ldg_bytes(RDI, ra) + opt(sub, enc_grp3(3, RAX)) + enc_binop(0x01, RAX, RDI),
    ) + opt(rd != 31, stg_bytes(rd, RAX))
}

fn ext32(buf: &mut CodeBuf, signed: bool, r: u8)
    ensures
        final(buf)@ == old(buf)@ + ext32_bytes(signed, r),
{
    if signed {
        buf.movsxd_r64_r32(r, r);
    } else {
        buf.zero_ext_r32(r);
    }
}

fn translate_mul_long(buf: &mut CodeBuf, rd: u8, rn: u8, rm: u8, ra: u8, signed: bool, sub: bool)
    ensures
        final(buf)@ == old(buf)@ + mul_long_bytes(rd, rn, rm, ra, signed, sub),
{
    let ghost start = buf@;
    ldg(buf, RAX, rn as u32);
    ext32(buf, signed, RAX);
    ldg(buf, RCX, rm as u32);
    ext32(buf, signed, RCX);
    buf.imul_rr64(RAX, RCX);  // RAX = rn * rm (long)
    let ghost p1 = buf@;
    if ra != 31 {
        ldg(buf, RDI, ra as u32);
        let ghost m = buf@;
        if sub {
            buf.neg_r64(RAX);  // msubl: ra - rn * rm
        }
        let ghost m2 = buf@;
        buf.add_rr64(RAX, RDI);
        proof {
            if !sub {
                lemma_grow_none(m);
            }
            assert(m2 == m + opt(sub, enc_grp3(3, RAX)));
            lemma_grow(p1, ldg_bytes(RDI, ra), m, opt(sub, enc_grp3(3, RAX)), m2);
            lemma_grow(
                p1,
                ldg_bytes(RDI, ra) + opt(sub, enc_grp3(3, RAX)),
                m2,
                enc_binop(0x01, RAX, RDI),
                buf@,
            );
        }
    } else {
        proof {
            lemma_grow_none(p1);
        }
    }
    let ghost p2 = buf@;
    if rd != 31 {
        stg(buf, rd as u32, RAX);
    }
    proof {
        let a = ldg_bytes(RAX, rn) + ext32_bytes(signed, RAX) + ldg_bytes(RCX, rm) + ext32_bytes(
            signed,
            RCX,
        ) + imul_bytes(RAX, RCX);
        let b = opt(ra != 31, ldg_bytes(RDI, ra) + opt(sub, enc_grp3(3, RAX)) + enc_binop(0x01, RAX, RDI));
        assert(p1 =~= start + a);
        assert(p2 == p1 + b);
        if rd == 31 {
            lemma_grow_none(p2);
        }
        lemma_grow(start, a, p1, b, p2);
        lemma_grow(start, a + b, p2, opt(rd != 31, stg_bytes(rd, RAX)), buf@);
    }
}

/// UDIV/SDIV of the Div class: RDX is cleared and `idiv`, `div` (64-bit) or
/// `div` (32-bit) leaves the quotient in RAX, written to `rd`.
pub open spec fn div_bytes(rd: u8, rn: u8, rm: u8, signed: bool, is_x: bool) -> Seq<u8> {
    ldg_bytes(RAX, rn) + ldg_bytes(RCX, rm) + enc_binop(0x31, RDX, RDX) + (if signed {
        enc_grp3_sized(true, 7, RCX)
    } else if is_x {
        enc_grp3_sized(true, 6, RCX)
    } else {
        enc_grp3_sized(false, 6, RCX)
    }) + stg_bytes(rd, RAX)
}

fn translate_div(buf: &mut CodeBuf, rd: u8, rn: u8, rm: u8, signed: bool, is_x: bool)
    ensures
        final(buf)@ == old(buf)@ + div_bytes(rd, rn, rm, signed, is_x),
{
    let ghost start = buf@;
    ldg(buf, RAX, rn as u32);  // dividend
    ldg(buf, RCX, rm as u32);  // divisor
    buf.xor_rr64(RDX, RDX);
    if signed {
        buf.idiv_r64(RCX);
    } else if is_x {
        buf.div_r64(RCX);
    } else {
        buf.div_r32(RCX);
    }
    stg(buf, rd as u32, RAX);  // quotient
    proof {
        assert(buf@ =~= start + div_bytes(rd, rn, rm, signed, is_x));
    }
}

/// The group-2 extension of LSLV/LSRV/ASRV/RORV.
pub open spec fn var_shift_ext(op: u8) -> u8 {
    if op == 0 {
        4
    } else if op == 1 {
        5
    } else if op == 2 {
        7
    } else {
        1
    }
}

/// LSLV/LSRV/ASRV/RORV: the count masked to the operand width (a W ASRV
/// sign-extends the value first), the shift by CL, the W result truncated,
/// and the write of `rd` unless it is 31.
pub open spec fn var_shift_bytes(rd: u8, rn: u8, rm: u8, op: u8, sf: bool) -> Seq<u8> {
    ldg_bytes(RAX, rn) + ldg_bytes(RCX, rm) + (if sf {
        enc_ari_imm(4, RCX, 0x3f)
    } else {
        enc_ari_imm(4, RCX, 0x1f) + opt(op == 2, movsxd_bytes(RAX, RAX))
    }) + enc_shift_cl(var_shift_ext(op), RAX) + opt(!sf, enc_zero_ext_r32(RAX)) + opt(
        rd != 31,
        stg_bytes(rd, RAX),
    )
}

fn translate_var_shift(buf: &mut CodeBuf, rd: u8, rn: u8, rm: u8, op: u8, sf: bool)
    ensures
        final(buf)@ == old(buf)@ + var_shift_bytes(rd, rn, rm, op, sf),
{
    let ghost start = buf@;
    ldg(buf, RAX, rn as u32);  // value
    ldg(buf, RCX, rm as u32);  // count
    let ghost p1 = buf@;
    if sf {
        buf.and_ri64(RCX, 0x3f);
    } else {
        buf.and_ri64(RCX, 0x1f);
        let ghost m = buf@;
        if op == 2 {
            buf.movsxd_r64_r32(RAX, RAX);  // W ASRV: sign-extend bit 31 first
        }
        proof {
            if op != 2 {
                lemma_grow_none(m);
            }
            assert(buf@ == m + opt(op == 2, movsxd_bytes(RAX, RAX)));
            lemma_grow(p1, enc_ari_imm(4, RCX, 0x1f), m, opt(op == 2, movsxd_bytes(RAX, RAX)), buf@);
        }
    }
    let ghost p2 = buf@;
    if op == 0 {
        buf.shl_cl64(RAX);
    } else if op == 1 {
        buf.shr_cl64(RAX);
    } else if op == 2 {
        buf.sar_cl64(RAX);
    } else {
        buf.ror_cl64(RAX);
    }
    let ghost p3 = buf@;
    truncate_and_write(buf, sf, rd);
    proof {
        let a = ldg_bytes(RAX, rn) + ldg_bytes(RCX, rm);
        let b = if sf {
            enc_ari_imm(4, RCX, 0x3f)
        } else {
            enc_ari_imm(4, RCX, 0x1f) + opt(op == 2, movsxd_bytes(RAX, RAX))
        };
        let c = enc_shift_cl(var_shift_ext(op), RAX);
        let d = opt(!sf, enc_zero_ext_r32(RAX)) + opt(rd != 31, stg_bytes(rd, RAX));
        assert(p1 =~= start + a);
        assert(p2 == p1 + b);
        assert(p3 == p2 + c);
        lemma_grow(start, a, p1, b, p2);
        lemma_grow(start, a + b, p2, c, p3);
        lemma_grow(start, a + b + c, p3, d, buf@);
        assert(a + b + c + d =~= var_shift_bytes(rd, rn, rm, op, sf));
    }
}

/// ROR (immediate): a 64-bit rotate of rn by the count masked to the operand
/// width, the W result truncated, written to `rd`.
pub open spec fn ror_bytes(rd: u8, rn: u8, rot: u32, sf: bool) -> Seq<u8> {
    ldg_bytes(RAX, rn) + enc_shift_ri8(1, RAX, (rot & (if sf { 63u32 } else { 31u32 })) as u8) + opt(
        !sf,
        enc_zero_ext_r32(RAX),
    ) + stg_bytes(rd, RAX)
}

fn translate_ror(buf: &mut CodeBuf, rd: u8, rn: u8, rot: u32, sf: bool)
    ensures
        final(buf)@ == old(buf)@ + ror_bytes(rd, rn, rot, sf),
{
    let ghost start = buf@;
    ldg(buf, RAX, rn as u32);
    let r = (rot & (if sf { 63u32 } else { 31u32 })) as u8;
    buf.ror_ri8(RAX, r);
    let ghost p1 = buf@;
    if !sf {
        buf.zero_ext_r32(RAX);
    }
    let ghost p2 = buf@;
    stg(buf, rd as u32, RAX);
    proof {
        if sf {
            lemma_grow_none(p1);
        }
        let a = ldg_bytes(RAX, rn) + enc_shift_ri8(1, RAX, r);
        assert(p1 =~= start + a);
        assert(p2 == p1 + opt(!sf, enc_zero_ext_r32(RAX)));
        lemma_grow(start, a, p1, opt(!sf, enc_zero_ext_r32(RAX)), p2);
        lemma_grow(start, a + opt(!sf, enc_zero_ext_r32(RAX)), p2, stg_bytes(rd, RAX), buf@);
    }
}

/// The shift `lsb` of EXTR within the operand width.
pub open spec fn extr_lsb(lsb: u32, sf: bool) -> u32 {
    lsb & (if sf { 63u32 } else { 31u32 })
}

/// The left shift `width - lsb` of the high word of EXTR, within the width.
pub open spec fn extr_hi(lsb: u32, sf: bool) -> u32 {
    let bits: u32 = if sf { 64 } else { 32 };
    ((bits - extr_lsb(lsb, sf)) as u32) & ((bits - 1) as u32)
}

/// EXTR: rm shifted right by `lsb` or-ed with rn shifted left by the rest of
/// the width (zero when `lsb` is 0), the W result truncated, written to `rd`.
pub open spec fn extr_bytes(rd: u8, rn: u8, rm: u8, lsb: u32, sf: bool) -> Seq<u8> {
    let l = extr_lsb(lsb, sf);
    let hi = extr_hi(lsb, sf);
    ldg_bytes(RAX, rm) + opt(l != 0, enc_shift_ri8(5, RAX, l as u8)) + ldg_bytes(R10, rn) + (if l
        == 0 {
        enc_mov_ri64(R10, 0)
    } else {
        opt(hi != 0, enc_shift_ri8(4, R10, hi as u8))
    }) + enc_binop(0x09, RAX, R10) + opt(!sf, enc_zero_ext_r32(RAX)) + stg_bytes(rd, RAX)
}

fn translate_extr(buf: &mut CodeBuf, rd: u8, rn: u8, rm: u8, lsb: u32, sf: bool)
    ensures
        final(buf)@ == old(buf)@ + extr_bytes(rd, rn, rm, lsb, sf),
{
    let ghost start = buf@;
    let bits: u32 = if sf { 64 } else { 32 };
    let l: u32 = lsb & (bits - 1);
    proof {
        assert(l < bits) by (bit_vector)
            requires
                bits == 64u32 || bits == 32u32,
                l == lsb & ((bits - 1) as u32),
        ;
    }
    let hi: u32 = (bits - l) & (bits - 1);
    proof {
        assert(l == extr_lsb(lsb, sf) && hi == extr_hi(lsb, sf)) by (bit_vector)
            requires
                bits == (if sf { 64u32 } else { 32u32 }),
                l == lsb & ((bits - 1) as u32),
                hi == ((bits - l) as u32) & ((bits - 1) as u32),
        ;
    }
    // the low word: rm >> lsb
    ldg(buf, RAX, rm as u32);
    let ghost p1 = buf@;
    if l != 0 {
        buf.shr_ri8(RAX, l as u8);
    }
    let ghost p2 = buf@;
    // the high word: rn << (width - lsb), nothing when lsb is 0
    ldg(buf, R10, rn as u32);
    let ghost p3 = buf@;
    if l == 0 {
        buf.mov_ri64(R10, 0);
    } else if hi != 0 {
        buf.shl_ri8(R10, hi as u8);
    }
    let ghost p4 = buf@;
    buf.or_rr64(RAX, R10);
    let ghost p5 = buf@;
    if !sf {
        buf.zero_ext_r32(RAX);
    }
    let ghost p6 = buf@;
    stg(buf, rd as u32, RAX);
    proof {
        let a = ldg_bytes(RAX, rm);
        let b = opt(l != 0, enc_shift_ri8(5, RAX, l as u8));
        let c = ldg_bytes(R10, rn);
        let d = if l == 0 {
            enc_mov_ri64(R10, 0)
        } else {
            opt(hi != 0, enc_shift_ri8(4, R10, hi as u8))
        };
        let e = enc_binop(0x09, RAX, R10);
        let f = opt(!sf, enc_zero_ext_r32(RAX));
        let g = stg_bytes(rd, RAX);
        if l == 0 {
            lemma_grow_none(p1);
        }
        if l != 0 && hi == 0 {
            lemma_grow_none(p3);
        }
        if sf {
            lemma_grow_none(p5);
        }
        assert(p2 == p1 + b);
        assert(p4 == p3 + d);
        assert(p6 == p5 + f);
        lemma_grow(start, a, p1, b, p2);
        lemma_grow(start, a + b, p2, c, p3);
        lemma_grow(start, a + b + c, p3, d, p4);
        lemma_grow(start, a + b + c + d, p4, e, p5);
        lemma_grow(start, a + b + c + d + e, p5, f, p6);
        lemma_grow(start, a + b + c + d + e + f, p6, g, buf@);
    }
}

/// The operand width of a bitfield instruction.
pub open spec fn bf_bits(sf: bool) -> u32 {
    if sf {
        64
    } else {
        32
    }
}

/// The bits of the operand width.
pub open spec fn width_mask(sf: bool) -> u64 {
    if sf {
        0xffff_ffff_ffff_ffff
    } else {
        0xffff_ffff
    }
}

/// `width` low bits set (`width` below 64).
pub open spec fn low_mask(width: u32) -> u64 {
    ((1u64 << width) - 1) as u64
}

/// The field position `(bits - immr) mod bits` of BFI/UBFIZ/SBFIZ.
pub open spec fn bfi_lsb(immr: u32, sf: bool) -> u32 {
    ((bf_bits(sf) - immr) as u32) & ((bf_bits(sf) - 1) as u32)
}

/// Bitfield fields the decoder produces: `immr` and `imms` within the
/// operand width.
pub open spec fn bitfield_wf(immr: u32, imms: u32, sf: bool, insert: bool) -> bool {
    &&& immr < bf_bits(sf)
    &&& imms < bf_bits(sf)
}

/// The low `width` bits set; all 64 for a full-width field.
pub open spec fn field_mask(width: u32) -> u64 {
    if width >= 64 {
        u64::MAX
    } else {
        low_mask(width)
    }
}

/// The field BFM replaces: `[immr, imms]` in place (BFXIL) or the low
/// `imms + 1` bits moved to `bfi_lsb` (BFI), within the operand width.
pub open spec fn insert_mask(immr: u32, imms: u32, sf: bool) -> u64 {
    if immr <= imms {
        (field_mask((imms - immr + 1) as u32) << immr) & width_mask(sf)
    } else {
        (low_mask((imms + 1) as u32) << bfi_lsb(immr, sf)) & width_mask(sf)
    }
}

/// `sar` of RAX by `se`, 64- or 32-bit.
pub open spec fn sar_bytes(sf: bool, se: u8) -> Seq<u8> {
    if sf {
        enc_shift_ri8(7, RAX, se)
    } else {
        enc_shift32_ri8(7, RAX, se)
    }
}

fn sar_rax(buf: &mut CodeBuf, sf: bool, se: u8)
    ensures
        final(buf)@ == old(buf)@ + sar_bytes(sf, se),
{
    if sf {
        buf.sar_ri8(RAX, se);
    } else {
        buf.sar32_ri8(RAX, se);  // the sign comes from bit 31
    }
}

/// BFM: rd = (rd & !mask) | (field of rn & mask), through R10 and RCX.
pub open spec fn bf_insert_bytes(rd: u8, rn: u8, immr: u32, imms: u32, sf: bool) -> Seq<u8> {
    ldg_bytes(RAX, rn) + opt(immr > imms, enc_shift_ri8(4, RAX, bfi_lsb(immr, sf) as u8))
        + ldg_bytes(R10, rd) + enc_mov_ri64(RCX, insert_mask(immr, imms, sf)) + enc_binop(
        0x21,
        RAX,
        RCX,
    ) + enc_grp3(2, RCX) + enc_binop(0x21, R10, RCX) + enc_binop(0x09, R10, RAX) + enc_mov_rr64(
        RAX,
        R10,
    )
}

fn bf_insert(buf: &mut CodeBuf, rd: u8, rn: u8, immr: u32, imms: u32, sf: bool)
    requires
        bitfield_wf(immr, imms, sf, true),
    ensures
        final(buf)@ == old(buf)@ + bf_insert_bytes(rd, rn, immr, imms, sf),
{
    let ghost start = buf@;
    let bits: u32 = if sf { 64 } else { 32 };
    let wm: u64 = if sf { 0xffff_ffff_ffff_ffff } else { 0xffff_ffff };
    let mask: u64;
    if immr <= imms {
        // BFXIL: the field [immr, imms] is already in place
        let width: u32 = imms - immr + 1;
        // a full-width BFXIL (immr 0, imms 63) copies all 64 bits
        let low: u64 = if width >= 64 {
            u64::MAX
        } else {
            proof {
                assert(1u64 << width >= 1) by (bit_vector)
                    requires
                        width < 64,
                ;
            }
            (1u64 << width) - 1
        };
        mask = (low << immr) & wm;
        ldg(buf, RAX, rn as u32);
    } else {
        // BFI/BFC: the low imms + 1 bits of rn move up to lsb
        let lsb: u32 = (bits - immr) & (bits - 1);
        let width: u32 = imms + 1;
        proof {
            assert(1u64 << width >= 1) by (bit_vector)
                requires
                    width < 64,
            ;
            assert(lsb < 64) by (bit_vector)
                requires
                    bits == 64u32 || bits == 32u32,
                    lsb == ((bits - immr) as u32) & ((bits - 1) as u32),
            ;
        }
        let low: u64 = (1u64 << width) - 1;
        mask = (low << lsb) & wm;
        ldg(buf, RAX, rn as u32);
        buf.shl_ri8(RAX, lsb as u8);  // field << lsb
    }
    let ghost p1 = buf@;
    ldg(buf, R10, rd as u32);  // the old rd
    buf.mov_ri64(RCX, mask);
    buf.and_rr64(RAX, RCX);  // the field of rn
    buf.not_r64(RCX);
    buf.and_rr64(R10, RCX);
    buf.or_rr64(R10, RAX);  // rd = (rd & !mask) | (rn & mask)
    buf.mov_rr64(RAX, R10);
    proof {
        assert(mask == insert_mask(immr, imms, sf));
        let a = ldg_bytes(RAX, rn) + opt(immr > imms, enc_shift_ri8(4, RAX, bfi_lsb(immr, sf) as u8));
        assert(p1 =~= start + a);
        assert(buf@ =~= start + bf_insert_bytes(rd, rn, immr, imms, sf));
    }
}

/// UBFM/SBFM after the source load: LSR/ASR (`imms` at the top), LSL,
/// UBFIZ/SBFIZ (`immr > imms`), or the general extract, each with the
/// sign extension of the arithmetic forms.
pub open spec fn bf_extract_bytes(immr: u32, imms: u32, sf: bool, arith: bool) -> Seq<u8> {
    let bits = bf_bits(sf);
    if imms == bits - 1 {
        let sh = (immr & ((bits - 1) as u32)) as u8;
        if arith {
            sar_bytes(sf, sh)
        } else {
            enc_shift_ri8(5, RAX, sh)
        }
    } else if immr == (imms + 1) % (bits as int) {
        enc_shift_ri8(4, RAX, (((bits - 1 - imms) as u32) & ((bits - 1) as u32)) as u8)
    } else if immr > imms {
        let lsb = bfi_lsb(immr, sf);
        let width = (imms + 1) as u32;
        let se = (bits - (lsb + width)) as u8;
        enc_shift_ri8(4, RAX, lsb as u8) + enc_mov_ri64(RCX, low_mask(width) << lsb) + enc_binop(
            0x21,
            RAX,
            RCX,
        ) + opt(arith, enc_shift_ri8(4, RAX, se) + sar_bytes(sf, se))
    } else {
        let width = (imms - immr + 1) as u32;
        let sh = (immr & ((bits - 1) as u32)) as u8;
        let mask = low_mask(width);
        let se = (bits - width) as u8;
        enc_shift_ri8(5, RAX, sh) + opt(
            width < bits,
            if mask <= 0x7fff_ffff {
                enc_ari_imm(4, RAX, mask as u32)
            } else {
                enc_mov_ri64(RCX, mask) + enc_binop(0x21, RAX, RCX)
            },
        ) + opt(arith, enc_shift_ri8(4, RAX, se) + sar_bytes(sf, se))
    }
}

fn bf_extract(buf: &mut CodeBuf, immr: u32, imms: u32, sf: bool, arith: bool)
    requires
        bitfield_wf(immr, imms, sf, false),
    ensures
        final(buf)@ == old(buf)@ + bf_extract_bytes(immr, imms, sf, arith),
{
    let ghost start = buf@;
    let bits: u32 = if sf { 64 } else { 32 };
    if imms == bits - 1 {
        // LSR / ASR by immr
        let sh = (immr & (bits - 1)) as u8;
        if arith {
            sar_rax(buf, sf, sh);
        } else {
            buf.shr_ri8(RAX, sh);
        }
    } else if immr == (imms + 1) % bits {
        // LSL by bits - 1 - imms
        let sh = ((bits - 1 - imms) & (bits - 1)) as u8;
        buf.shl_ri8(RAX, sh);
    } else if immr > imms {
        // UBFIZ / SBFIZ: (rn << lsb) & mask, sign-extended for SBFIZ
        let lsb: u32 = (bits - immr) & (bits - 1);
        let width: u32 = imms + 1;
        proof {
            assert(lsb == bits - immr) by (bit_vector)
                requires
                    bits == 64u32 || bits == 32u32,
                    0 < immr < bits,
                    lsb == ((bits - immr) as u32) & ((bits - 1) as u32),
            ;
            assert(1u64 << width >= 1) by (bit_vector)
                requires
                    width < 64,
            ;
        }
        let mask: u64 = ((1u64 << width) - 1) << lsb;
        buf.shl_ri8(RAX, lsb as u8);
        buf.mov_ri64(RCX, mask);
        buf.and_rr64(RAX, RCX);  // the field only, zero-extended
        let ghost p1 = buf@;
        if arith {
            let se = (bits - (lsb + width)) as u8;
            buf.shl_ri8(RAX, se);
            sar_rax(buf, sf, se);
        }
        proof {
            if !arith {
                lemma_grow_none(p1);
            }
        }
    } else {
        // the general extract: (rn >> immr) & low(width), sign-extended for
        // SBFX
        let width: u32 = imms - immr + 1;
        let sh = (immr & (bits - 1)) as u8;
        buf.shr_ri8(RAX, sh);
        let ghost p1 = buf@;
        if width < bits {
            proof {
                assert(1u64 << width >= 1) by (bit_vector)
                    requires
                        width < 64,
                ;
            }
            let mask: u64 = (1u64 << width) - 1;
            // an `and` with a sign-extended imm32 serves only below bit 31
            if mask <= 0x7fff_ffff {
                buf.and_ri64(RAX, mask as u32);
            } else {
                buf.mov_ri64(RCX, mask);
                buf.and_rr64(RAX, RCX);
            }
        }
        let ghost p2 = buf@;
        if arith {
            let se = (bits - width) as u8;
            buf.shl_ri8(RAX, se);
            sar_rax(buf, sf, se);
        }
        proof {
            if width >= bits {
                lemma_grow_none(p1);
            }
            if !arith {
                lemma_grow_none(p2);
            }
        }
    }
    proof {
        assert(buf@ =~= start + bf_extract_bytes(immr, imms, sf, arith));
    }
}

/// UBFM/SBFM/BFM: BFM merges into rd; the others load rn (a W logical form
/// first discards the upper half) and shift or extract. The result is
/// truncated for a W form and written to `rd` unless it is 31.
pub open spec fn bitfield_bytes(
    rd: u8,
    rn: u8,
    immr: u32,
    imms: u32,
    sf: bool,
    arith: bool,
    insert: bool,
) -> Seq<u8> {
    (if insert {
        bf_insert_bytes(rd, rn, immr, imms, sf)
    } else {
        ldg_bytes(RAX, rn) + opt(!sf && !arith, enc_zero_ext_r32(RAX)) + bf_extract_bytes(
            immr,
            imms,
            sf,
            arith,
        )
    }) + (opt(!sf, enc_zero_ext_r32(RAX)) + opt(rd != 31, stg_bytes(rd, RAX)))
}

fn translate_bitfield(
    buf: &mut CodeBuf,
    rd: u8,
    rn: u8,
    immr: u32,
    imms: u32,
    sf: bool,
    arith: bool,
    insert: bool,
)
    requires
        bitfield_wf(immr, imms, sf, insert),
    ensures
        final(buf)@ == old(buf)@ + bitfield_bytes(rd, rn, immr, imms, sf, arith, insert),
{
    let ghost start = buf@;
    if insert {
        // BFXIL and BFI/BFC merge; they are never the shift aliases below
        bf_insert(buf, rd, rn, immr, imms, sf);
    } else {
        ldg(buf, RAX, rn as u32);
        let ghost p1 = buf@;
        if !sf && !arith {
            // a W logical form ignores the upper half of the source
            buf.zero_ext_r32(RAX);
        }
        let ghost p2 = buf@;
        bf_extract(buf, immr, imms, sf, arith);
        proof {
            if !(!sf && !arith) {
                lemma_grow_none(p1);
            }
            assert(p2 == p1 + opt(!sf && !arith, enc_zero_ext_r32(RAX)));
            lemma_grow(start, ldg_bytes(RAX, rn), p1, opt(!sf && !arith, enc_zero_ext_r32(RAX)), p2);
            lemma_grow(
                start,
                ldg_bytes(RAX, rn) + opt(!sf && !arith, enc_zero_ext_r32(RAX)),
                p2,
                bf_extract_bytes(immr, imms, sf, arith),
                buf@,
            );
        }
    }
    let ghost p3 = buf@;
    truncate_and_write(buf, sf, rd);
    proof {
        let a = if insert {
            bf_insert_bytes(rd, rn, immr, imms, sf)
        } else {
            ldg_bytes(RAX, rn) + opt(!sf && !arith, enc_zero_ext_r32(RAX)) + bf_extract_bytes(
                immr,
                imms,
                sf,
                arith,
            )
        };
        lemma_grow(start, a, p3, opt(!sf, enc_zero_ext_r32(RAX)) + opt(rd != 31, stg_bytes(rd, RAX)), buf@);
    }
}

/// CLZ: `lzcnt` (F3 REX.W 0F BD for X, F3 0F BD for W, which zero-extends)
/// of rn into `rd`; nothing for `rd` 31. CLS is refused and emits nothing.
pub open spec fn clz_bytes(rd: u8, rn: u8, sf: bool, cls: bool) -> Seq<u8> {
    if cls || rd == 31 {
        Seq::empty()
    } else {
        ldg_bytes(RAX, rn) + opt(!sf, enc_zero_ext_r32(RAX)) + (if sf {
            seq![0xF3u8, 0x48u8, 0x0Fu8, 0xBDu8, 0xC0u8]
        } else {
            seq![0xF3u8, 0x0Fu8, 0xBDu8, 0xC0u8]
        }) + stg_bytes(rd, RAX)
    }
}

fn translate_clz(buf: &mut CodeBuf, rd: u8, rn: u8, sf: bool, cls: bool) -> (ok: bool)
    ensures
        ok == !cls,
        final(buf)@ == old(buf)@ + clz_bytes(rd, rn, sf, cls),
{
    let ghost start = buf@;
    if cls || rd == 31 {
        proof {
            lemma_grow_none(start);
        }
        return !cls;
    }
    ldg(buf, RAX, rn as u32);
    if !sf {
        buf.zero_ext_r32(RAX);
    }
    // REX.W must follow F3, right before the 0F opcode
    buf.b(0xF3);
    if sf {
        buf.b(0x48);
    }
    buf.b(0x0F);
    buf.b(0xBD);
    buf.b(0xC0);  // lzcnt rax, rax (W: eax, zero-extending)
    stg(buf, rd as u32, RAX);
    proof {
        assert(buf@ =~= start + clz_bytes(rd, rn, sf, cls));
    }
    true
}

/// DC ZVA: the 16 bytes at `x[rt]` zeroed; other cache maintenance emits
/// nothing.
pub open spec fn cache_bytes(zva: bool, rt: u8) -> Seq<u8> {
    opt(
        zva && rt != 31,
        ldg_bytes(RAX, rt) + enc_mov_ri64(RCX, 0) + enc_mov_store64(RAX, 0, RCX) + enc_mov_store64(
            RAX,
            8,
            RCX,
        ),
    )
}

fn translate_cache(buf: &mut CodeBuf, zva: bool, rt: u8)
    ensures
        final(buf)@ == old(buf)@ + cache_bytes(zva, rt),
{
    let ghost start = buf@;
    if zva && rt != 31 {
        ldg(buf, RAX, rt as u32);  // the line address
        buf.mov_ri64(RCX, 0);
        buf.mov_store64(RAX, 0, RCX);
        buf.mov_store64(RAX, 8, RCX);
        proof {
            assert(buf@ =~= start + cache_bytes(zva, rt));
        }
    } else {
        proof {
            lemma_grow_none(start);
        }
    }
}

/// The addition of `off` to RAX: `add` or `sub` of an imm32 when it fits,
/// else through RCX.
pub open spec fn add_offset_bytes(off: i64) -> Seq<u8> {
    if off == 0 {
        Seq::empty()
    } else if off > 0 && off <= 0x7fff_ffff {
        enc_ari_imm(0, RAX, off as u32)
    } else if off < 0 && -off <= 0x7fff_ffff {
        enc_ari_imm(5, RAX, (-off) as u32)
    } else {
        enc_mov_ri64(RCX, off as u64) + enc_binop(0x01, RAX, RCX)
    }
}

/// MTE: a tag load writes tag 0 to `rt`; else a writeback form advances
/// `rn` by `wb_off`; otherwise nothing (there is no tag state).
pub open spec fn mte_bytes(load: bool, rt: u8, rn: u8, wb: bool, wb_off: i64) -> Seq<u8> {
    if load && rt != 31 {
        enc_mov_ri64(RAX, 0) + stg_bytes(rt, RAX)
    } else if wb && rn != 31 {
        ldg_bytes(RAX, rn) + add_offset_bytes(wb_off) + stg_bytes(rn, RAX)
    } else {
        Seq::empty()
    }
}

/// The MTE fields whose writeback stays within `i64`: a writeback that
/// negates `wb_off` needs it above `i64::MIN`.
pub open spec fn mte_wf(load: bool, rt: u8, rn: u8, wb: bool, wb_off: i64) -> bool {
    (!(load && rt != 31) && wb && rn != 31 && wb_off < 0) ==> wb_off > i64::MIN
}

fn translate_mte(buf: &mut CodeBuf, load: bool, rt: u8, rn: u8, wb: bool, wb_off: i64)
    requires
        mte_wf(load, rt, rn, wb, wb_off),
    ensures
        final(buf)@ == old(buf)@ + mte_bytes(load, rt, rn, wb, wb_off),
{
    let ghost start = buf@;
    if load && rt != 31 {
        buf.mov_ri64(RAX, 0);
        stg(buf, rt as u32, RAX);  // tag 0
    } else if wb && rn != 31 {
        ldg(buf, RAX, rn as u32);
        if wb_off != 0 {
            if wb_off > 0 && wb_off <= 0x7fffffff {
                buf.add_ri64(RAX, wb_off as u32);
            } else if wb_off < 0 && -wb_off <= 0x7fffffff {
                buf.sub_ri64(RAX, -wb_off as u32);
            } else {
                buf.mov_ri64(RCX, wb_off as u64);
                buf.add_rr64(RAX, RCX);
            }
        }
        stg(buf, rn as u32, RAX);
    }
    proof {
        assert(buf@ =~= start + mte_bytes(load, rt, rn, wb, wb_off));
    }
}

/// `n` copies of `s`.
pub open spec fn repeat(s: Seq<u8>, n: nat) -> Seq<u8>
    decreases n,
{
    if n == 0 {
        Seq::empty()
    } else {
        repeat(s, (n - 1) as nat) + s
    }
}

/// The index shift of a register-offset access: log2 of the size when
/// `shift`, else none.
pub open spec fn reg_index_shift(size: u8, shift: bool) -> u8 {
    if !shift || size == 1 {
        0
    } else if size == 2 {
        1
    } else if size == 4 {
        2
    } else {
        3
    }
}

/// The register-offset address in RAX: rn plus rm (RCX) extended by
/// `index_ext` and shifted by doubling.
pub open spec fn reg_addr_bytes(rn: u8, rm: u8, size: u8, shift: bool, index_ext: u8) -> Seq<u8> {
    ldg_bytes(RAX, rn) + ldg_bytes(RCX, rm) + (if index_ext == 2 {
        enc_zero_ext_r32(RCX)
    } else if index_ext == 1 {
        enc_ari_imm(4, RCX, 0xff)
    } else {
        Seq::empty()
    }) + repeat(enc_binop(0x01, RCX, RCX), reg_index_shift(size, shift) as nat) + enc_binop(
        0x01,
        RAX,
        RCX,
    )
}

fn reg_addr(buf: &mut CodeBuf, rn: u8, rm: u8, size: u8, shift: bool, index_ext: u8)
    ensures
        final(buf)@ == old(buf)@ + reg_addr_bytes(rn, rm, size, shift, index_ext),
{
    let ghost start = buf@;
    let shift_amt: u8 = if shift {
        match size {
            1 => 0,
            2 => 1,
            4 => 2,
            _ => 3,
        }
    } else {
        0
    };
    ldg(buf, RAX, rn as u32);  // the base
    ldg(buf, RCX, rm as u32);  // the index
    // UXTW keeps the low 32 bits of the index, UXTB the low byte
    if index_ext == 2 {
        buf.zero_ext_r32(RCX);
    } else if index_ext == 1 {
        buf.and_ri64(RCX, 0xff);
    }
    let ghost p1 = buf@;
    let ghost dbl = enc_binop(0x01, RCX, RCX);
    let mut i: u8 = 0;
    while i < shift_amt
        invariant
            i <= shift_amt,
            buf@ == p1 + repeat(dbl, i as nat),
            dbl == enc_binop(0x01, RCX, RCX),
        decreases shift_amt - i,
    {
        let ghost before = buf@;
        buf.add_rr64(RCX, RCX);  // RCX <<= 1
        proof {
            lemma_grow(p1, repeat(dbl, i as nat), before, dbl, buf@);
        }
        i = i + 1;
    }
    let ghost p2 = buf@;
    buf.add_rr64(RAX, RCX);  // RAX = the effective address
    proof {
        assert(shift_amt == reg_index_shift(size, shift));
        assert(p1 =~= start + (ldg_bytes(RAX, rn) + ldg_bytes(RCX, rm) + (if index_ext == 2 {
            enc_zero_ext_r32(RCX)
        } else if index_ext == 1 {
            enc_ari_imm(4, RCX, 0xff)
        } else {
            Seq::empty()
        })));
        assert(buf@ =~= start + reg_addr_bytes(rn, rm, size, shift, index_ext));
    }
}

/// The register-offset access at `[RAX]`: a sign-extending load (1, 2 or 4
/// bytes) into RAX written unless `rt` is XZR; or a load into RCX written to
/// `rt`, or a store of `x[rt]` from RCX (register 31 is the SP slot in
/// both); nothing for a size the translator does not implement.
pub open spec fn reg_access_bytes(rt: u8, size: u8, ld: bool, sext: bool) -> Seq<u8> {
    if ld && sext {
        if size == 4 {
            crate::x86::enc_mov_load32(RAX, RAX, 0) + movsxd_bytes(RAX, RAX) + prog_bytes(
                stg_if_writable_prog(rt as u32),
            )
        } else if size == 2 {
            crate::x86::enc_movzx_word_mem(RAX, RAX, 0) + enc_shift_ri8(4, RAX, 48) + enc_shift_ri8(
                7,
                RAX,
                48,
            ) + prog_bytes(stg_if_writable_prog(rt as u32))
        } else if size == 1 {
            crate::x86::enc_movzx_byte_mem(RAX, RAX, 0) + enc_shift_ri8(4, RAX, 56) + enc_shift_ri8(
                7,
                RAX,
                56,
            ) + prog_bytes(stg_if_writable_prog(rt as u32))
        } else {
            Seq::empty()
        }
    } else if ld {
        if size == 8 {
            enc_mov_load64(RCX, RAX, 0) + stg_bytes(rt, RCX)
        } else if size == 4 {
            crate::x86::enc_mov_load32(RCX, RAX, 0) + stg_bytes(rt, RCX)
        } else if size == 2 {
            crate::x86::enc_movzx_word_mem(RCX, RAX, 0) + stg_bytes(rt, RCX)
        } else if size == 1 {
            crate::x86::enc_movzx_byte_mem(RCX, RAX, 0) + stg_bytes(rt, RCX)
        } else {
            Seq::empty()
        }
    } else if size == 8 {
        ldg_bytes(RCX, rt) + enc_mov_store64(RAX, 0, RCX)
    } else if size == 4 {
        ldg_bytes(RCX, rt) + crate::x86::enc_mov_store32(RAX, 0, RCX)
    } else if size == 2 {
        ldg_bytes(RCX, rt) + crate::x86::enc_mov_store16(RAX, 0, RCX)
    } else if size == 1 {
        ldg_bytes(RCX, rt) + crate::x86::enc_mov_store8(RAX, 0, RCX)
    } else {
        Seq::empty()
    }
}

fn reg_access(buf: &mut CodeBuf, rt: u8, size: u8, ld: bool, sext: bool) -> (ok: bool)
    ensures
        ok == ldst_size_ok(size, ld, sext),
        final(buf)@ == old(buf)@ + reg_access_bytes(rt, size, ld, sext),
{
    let ghost start = buf@;
    if ld && sext {
        if size == 4 {
            buf.mov_load32(RAX, RAX, 0);
            buf.movsxd_r64_r32(RAX, RAX);
            stg_if_writable(buf, rt as u32);
        } else if size == 2 {
            buf.movzx_word_mem(RAX, RAX, 0);
            buf.shl_ri8(RAX, 48);
            buf.sar_ri8(RAX, 48);
            stg_if_writable(buf, rt as u32);
        } else if size == 1 {
            buf.movzx_byte_mem(RAX, RAX, 0);
            buf.shl_ri8(RAX, 56);
            buf.sar_ri8(RAX, 56);
            stg_if_writable(buf, rt as u32);
        } else {
            proof {
                lemma_grow_none(start);
            }
            return false;
        }
    } else if ld {
        if size == 8 {
            buf.mov_load64(RCX, RAX, 0);
        } else if size == 4 {
            buf.mov_load32(RCX, RAX, 0);
        } else if size == 2 {
            buf.movzx_word_mem(RCX, RAX, 0);
        } else if size == 1 {
            buf.movzx_byte_mem(RCX, RAX, 0);
        } else {
            proof {
                lemma_grow_none(start);
            }
            return false;
        }
        stg(buf, rt as u32, RCX);
    } else {
        if size != 8 && size != 4 && size != 2 && size != 1 {
            proof {
                lemma_grow_none(start);
            }
            return false;
        }
        ldg(buf, RCX, rt as u32);
        if size == 8 {
            buf.mov_store64(RAX, 0, RCX);
        } else if size == 4 {
            buf.mov_store32(RAX, 0, RCX);
        } else if size == 2 {
            buf.mov_store16(RAX, 0, RCX);
        } else {
            buf.mov_store8(RAX, 0, RCX);
        }
    }
    proof {
        assert(buf@ =~= start + reg_access_bytes(rt, size, ld, sext));
    }
    true
}

/// LDR/STR (register offset): the address, then the access.
pub open spec fn ld_str_reg_bytes(
    rt: u8,
    rn: u8,
    rm: u8,
    size: u8,
    ld: bool,
    shift: bool,
    sext: bool,
    index_ext: u8,
) -> Seq<u8> {
    reg_addr_bytes(rn, rm, size, shift, index_ext) + reg_access_bytes(rt, size, ld, sext)
}

fn translate_ld_str_reg(
    buf: &mut CodeBuf,
    rt: u8,
    rn: u8,
    rm: u8,
    size: u8,
    ld: bool,
    shift: bool,
    sext: bool,
    index_ext: u8,
) -> (ok: bool)
    ensures
        ok == ldst_size_ok(size, ld, sext),
        final(buf)@ == old(buf)@ + ld_str_reg_bytes(rt, rn, rm, size, ld, shift, sext, index_ext),
{
    let ghost start = buf@;
    reg_addr(buf, rn, rm, size, shift, index_ext);
    let ghost p1 = buf@;
    let ok = reg_access(buf, rt, size, ld, sext);
    proof {
        lemma_grow(
            start,
            reg_addr_bytes(rn, rm, size, shift, index_ext),
            p1,
            reg_access_bytes(rt, size, ld, sext),
            buf@,
        );
    }
    ok
}

/// The register size of a pair access.
pub open spec fn pair_esize(q128: bool, fp_d: bool, fp_s: bool, size_64: bool) -> i32 {
    if q128 {
        16
    } else if fp_d {
        8
    } else if fp_s {
        4
    } else if size_64 {
        8
    } else {
        4
    }
}

/// The offset of the first access of a pair: none for post-index.
pub open spec fn pair_access_off(imm: i32, writeback: bool, preidx: bool) -> i32 {
    if !preidx && writeback {
        0
    } else {
        imm
    }
}

/// The base update of a pair: `imm` for pre- and post-index, else none.
pub open spec fn pair_wb_off(imm: i32, writeback: bool, preidx: bool) -> i32 {
    if preidx || writeback {
        imm
    } else {
        0
    }
}

/// The copy of one vector register of a pair between its slot at
/// `[RBX + reg_off]` and `[RDX + mem_off]`: the low 8 (`fp_d`) or 4 (`fp_s`)
/// bytes through RAX, or all 16 through XMM0.
pub open spec fn pair_vec_bytes(fp_d: bool, fp_s: bool, ld: bool, reg_off: i32, mem_off: i32) -> Seq<u8> {
    if fp_d {
        if ld {
            enc_mov_load64(RAX, RDX, mem_off) + enc_mov_store64(RBX, reg_off, RAX)
        } else {
            enc_mov_load64(RAX, RBX, reg_off) + enc_mov_store64(RDX, mem_off, RAX)
        }
    } else if fp_s {
        if ld {
            crate::x86::enc_mov_load32(RAX, RDX, mem_off) + crate::x86::enc_mov_store32(RBX, reg_off, RAX)
        } else {
            crate::x86::enc_mov_load32(RAX, RBX, reg_off) + crate::x86::enc_mov_store32(RDX, mem_off, RAX)
        }
    } else if ld {
        crate::x86::enc_movdqu_load(0, RDX, mem_off) + crate::x86::enc_movdqu_store(RBX, reg_off, 0)
    } else {
        crate::x86::enc_movdqu_load(0, RBX, reg_off) + crate::x86::enc_movdqu_store(RDX, mem_off, 0)
    }
}

fn pair_vec(buf: &mut CodeBuf, fp_d: bool, fp_s: bool, ld: bool, reg_off: i32, mem_off: i32)
    ensures
        final(buf)@ == old(buf)@ + pair_vec_bytes(fp_d, fp_s, ld, reg_off, mem_off),
{
    let ghost start = buf@;
    if fp_d {
        if ld {
            buf.mov_load64(RAX, RDX, mem_off);
            buf.mov_store64(RBX, reg_off, RAX);
        } else {
            buf.mov_load64(RAX, RBX, reg_off);
            buf.mov_store64(RDX, mem_off, RAX);
        }
    } else if fp_s {
        if ld {
            buf.mov_load32(RAX, RDX, mem_off);
            buf.mov_store32(RBX, reg_off, RAX);
        } else {
            buf.mov_load32(RAX, RBX, reg_off);
            buf.mov_store32(RDX, mem_off, RAX);
        }
    } else if ld {
        buf.movdqu_load(0, RDX, mem_off);
        buf.movdqu_store(RBX, reg_off, 0);
    } else {
        buf.movdqu_load(0, RBX, reg_off);
        buf.movdqu_store(RDX, mem_off, 0);
    }
    proof {
        assert(buf@ =~= start + pair_vec_bytes(fp_d, fp_s, ld, reg_off, mem_off));
    }
}

/// One general register of a pair at `[RDX + off]`: a 64- or 32-bit load
/// (LDPSW sign-extends) written unless the register is XZR, or the store
/// source (31 as XZR) stored.
pub open spec fn pair_gpr_bytes(r: u8, ld: bool, size_64: bool, sext: bool, off: i32) -> Seq<u8> {
    if ld {
        (if size_64 {
            enc_mov_load64(RAX, RDX, off)
        } else if sext {
            crate::x86::enc_mov_load32(RAX, RDX, off) + movsxd_bytes(RAX, RAX)
        } else {
            crate::x86::enc_mov_load32(RAX, RDX, off)
        }) + prog_bytes(stg_if_writable_prog(r as u32))
    } else {
        ldg_src_bytes(r) + if size_64 {
            enc_mov_store64(RDX, off, RAX)
        } else {
            crate::x86::enc_mov_store32(RDX, off, RAX)
        }
    }
}

fn pair_gpr(buf: &mut CodeBuf, r: u8, ld: bool, size_64: bool, sext: bool, off: i32)
    ensures
        final(buf)@ == old(buf)@ + pair_gpr_bytes(r, ld, size_64, sext, off),
{
    let ghost start = buf@;
    if ld {
        if size_64 {
            buf.mov_load64(RAX, RDX, off);
        } else if sext {
            buf.mov_load32(RAX, RDX, off);
            buf.movsxd_r64_r32(RAX, RAX);  // ldpsw
        } else {
            buf.mov_load32(RAX, RDX, off);
        }
        stg_if_writable(buf, r as u32);
    } else {
        ldg_src(buf, r as u32);
        if size_64 {
            buf.mov_store64(RDX, off, RAX);
        } else {
            buf.mov_store32(RDX, off, RAX);
        }
    }
    proof {
        assert(buf@ =~= start + pair_gpr_bytes(r, ld, size_64, sext, off));
    }
}

/// Both transfers of a pair, the second `es` bytes after the first.
pub open spec fn pair_transfer_bytes(
    rt: u8,
    rt2: u8,
    ld: bool,
    ao: i32,
    off2: i32,
    size_64: bool,
    q128: bool,
    fp_d: bool,
    fp_s: bool,
    sext: bool,
) -> Seq<u8> {
    if fp_d || fp_s || q128 {
        pair_vec_bytes(fp_d, fp_s, ld, (VECTOR_BASE + rt * 16) as i32, ao) + pair_vec_bytes(
            fp_d,
            fp_s,
            ld,
            (VECTOR_BASE + rt2 * 16) as i32,
            off2,
        )
    } else {
        pair_gpr_bytes(rt, ld, size_64, sext, ao) + pair_gpr_bytes(rt2, ld, size_64, sext, off2)
    }
}

/// The base update of a pre/post-indexed pair: through RAX with an `add`
/// for the D and S pairs, through RCX with `lea` for the others.
pub open spec fn pair_writeback_bytes(rn: u8, writeback: bool, wo: i32, fp: bool) -> Seq<u8> {
    opt(
        writeback,
        if fp {
            ldg_bytes(RAX, rn) + enc_ari_imm(0, RAX, wo as u32) + stg_bytes(rn, RAX)
        } else {
            ldg_bytes(RCX, rn) + opt(wo != 0, crate::x86::enc_lea64(RCX, RCX, wo)) + stg_bytes(rn, RCX)
        },
    )
}

/// LDP/STP: the base into RDX, both transfers, and the base update.
pub open spec fn ld_st_pair_bytes(
    rt: u8,
    rt2: u8,
    rn: u8,
    imm: i32,
    ld: bool,
    writeback: bool,
    preidx: bool,
    size_64: bool,
    q128: bool,
    fp_d: bool,
    fp_s: bool,
    sext: bool,
) -> Seq<u8> {
    let ao = pair_access_off(imm, writeback, preidx);
    let off2 = (ao + pair_esize(q128, fp_d, fp_s, size_64)) as i32;
    ldg_bytes(RDX, rn) + pair_transfer_bytes(rt, rt2, ld, ao, off2, size_64, q128, fp_d, fp_s, sext)
        + pair_writeback_bytes(rn, writeback, pair_wb_off(imm, writeback, preidx), fp_d || fp_s)
}

/// A pair whose second offset fits in 32 bits.
pub open spec fn pair_wf(
    imm: i32,
    writeback: bool,
    preidx: bool,
    q128: bool,
    fp_d: bool,
    fp_s: bool,
    size_64: bool,
) -> bool {
    pair_access_off(imm, writeback, preidx) + pair_esize(q128, fp_d, fp_s, size_64) <= i32::MAX
}

fn pair_transfer(
    buf: &mut CodeBuf,
    rt: u8,
    rt2: u8,
    ld: bool,
    ao: i32,
    off2: i32,
    size_64: bool,
    q128: bool,
    fp_d: bool,
    fp_s: bool,
    sext: bool,
)
    ensures
        final(buf)@ == old(buf)@ + pair_transfer_bytes(
            rt,
            rt2,
            ld,
            ao,
            off2,
            size_64,
            q128,
            fp_d,
            fp_s,
            sext,
        ),
{
    let ghost start = buf@;
    if fp_d || fp_s || q128 {
        // each register's slot is at VECTOR_BASE + 16 * r
        let v0 = VECTOR_BASE + (rt as i32) * 16;
        let v1 = VECTOR_BASE + (rt2 as i32) * 16;
        pair_vec(buf, fp_d, fp_s, ld, v0, ao);
        let ghost m = buf@;
        pair_vec(buf, fp_d, fp_s, ld, v1, off2);
        proof {
            lemma_grow(
                start,
                pair_vec_bytes(fp_d, fp_s, ld, v0, ao),
                m,
                pair_vec_bytes(fp_d, fp_s, ld, v1, off2),
                buf@,
            );
        }
    } else {
        pair_gpr(buf, rt, ld, size_64, sext, ao);
        let ghost m = buf@;
        pair_gpr(buf, rt2, ld, size_64, sext, off2);
        proof {
            lemma_grow(
                start,
                pair_gpr_bytes(rt, ld, size_64, sext, ao),
                m,
                pair_gpr_bytes(rt2, ld, size_64, sext, off2),
                buf@,
            );
        }
    }
}

fn pair_writeback(buf: &mut CodeBuf, rn: u8, writeback: bool, wo: i32, fp: bool)
    ensures
        final(buf)@ == old(buf)@ + pair_writeback_bytes(rn, writeback, wo, fp),
{
    let ghost start = buf@;
    if writeback {
        if fp {
            ldg(buf, RAX, rn as u32);
            buf.add_ri64(RAX, wo as u32);
            stg(buf, rn as u32, RAX);
        } else {
            ldg(buf, RCX, rn as u32);
            if wo != 0 {
                buf.lea64(RCX, RCX, wo);
            }
            stg(buf, rn as u32, RCX);
        }
    }
    proof {
        assert(buf@ =~= start + pair_writeback_bytes(rn, writeback, wo, fp));
    }
}

fn translate_ld_st_pair(
    buf: &mut CodeBuf,
    rt: u8,
    rt2: u8,
    rn: u8,
    imm: i32,
    ld: bool,
    writeback: bool,
    preidx: bool,
    size_64: bool,
    q128: bool,
    fp_d: bool,
    fp_s: bool,
    sext: bool,
)
    requires
        pair_wf(imm, writeback, preidx, q128, fp_d, fp_s, size_64),
    ensures
        final(buf)@ == old(buf)@ + ld_st_pair_bytes(
            rt,
            rt2,
            rn,
            imm,
            ld,
            writeback,
            preidx,
            size_64,
            q128,
            fp_d,
            fp_s,
            sext,
        ),
{
    let ghost start = buf@;
    let esize: i32 = if q128 {
        16
    } else if fp_d {
        8
    } else if fp_s {
        4
    } else if size_64 {
        8
    } else {
        4
    };
    // pre-index: access at rn + imm, then rn += imm; post-index: access at
    // rn, then rn += imm; offset: access at rn + imm, no update
    let (access_off, wb_off) = if preidx {
        (imm, imm)
    } else if writeback {
        (0i32, imm)
    } else {
        (imm, 0i32)
    };
    let off2: i32 = access_off + esize;
    ldg(buf, RDX, rn as u32);
    let ghost p1 = buf@;
    pair_transfer(buf, rt, rt2, ld, access_off, off2, size_64, q128, fp_d, fp_s, sext);
    let ghost p2 = buf@;
    pair_writeback(buf, rn, writeback, wb_off, fp_d || fp_s);
    proof {
        let b = pair_transfer_bytes(rt, rt2, ld, access_off, off2, size_64, q128, fp_d, fp_s, sext);
        let c = pair_writeback_bytes(rn, writeback, wb_off, fp_d || fp_s);
        lemma_grow(start, ldg_bytes(RDX, rn), p1, b, p2);
        lemma_grow(start, ldg_bytes(RDX, rn) + b, p2, c, buf@);
    }
}

/// The mask of RBIT step `k`: alternating runs of `2^k` bits.
pub open spec fn rbit_mask(k: nat) -> u64 {
    if k == 0 {
        0x5555_5555_5555_5555
    } else if k == 1 {
        0x3333_3333_3333_3333
    } else if k == 2 {
        0x0f0f_0f0f_0f0f_0f0f
    } else if k == 3 {
        0x00ff_00ff_00ff_00ff
    } else if k == 4 {
        0x0000_ffff_0000_ffff
    } else {
        0x0000_0000_ffff_ffff
    }
}

fn rbit_mask_exec(k: usize) -> (m: u64)
    ensures
        m == rbit_mask(k as nat),
{
    if k == 0 {
        0x5555_5555_5555_5555
    } else if k == 1 {
        0x3333_3333_3333_3333
    } else if k == 2 {
        0x0f0f_0f0f_0f0f_0f0f
    } else if k == 3 {
        0x00ff_00ff_00ff_00ff
    } else if k == 4 {
        0x0000_ffff_0000_ffff
    } else {
        0x0000_0000_ffff_ffff
    }
}

/// RBIT step `k` (`sh = 2^k`): RAX = ((RAX & m) << sh) | ((RAX >> sh) & m),
/// the shifted-down half through RCX and the mask in R10.
pub open spec fn rbit_step_bytes(k: nat) -> Seq<u8> {
    let sh = (1u32 << k) as u8;
    enc_mov_rr64(RCX, RAX) + enc_shift_ri8(5, RCX, sh) + enc_mov_ri64(R10, rbit_mask(k))
        + enc_binop(0x21, RCX, R10) + enc_binop(0x21, RAX, R10) + enc_shift_ri8(4, RAX, sh)
        + enc_binop(0x09, RAX, RCX)
}

/// The first `n` RBIT steps.
pub open spec fn rbit_steps(n: nat) -> Seq<u8>
    decreases n,
{
    if n == 0 {
        Seq::empty()
    } else {
        rbit_steps((n - 1) as nat) + rbit_step_bytes((n - 1) as nat)
    }
}

/// The byte-order operation of REV on RAX: RBIT by swapping ever larger
/// bit groups (6 steps for X, 4 for W), REV16 by swapping the bytes of each
/// halfword through RCX and RDX (X) or RCX (W), REV by `bswap`, REV32 by a
/// 32-bit rotate.
pub open spec fn rev_op_bytes(op: u8, sf: bool) -> Seq<u8> {
    if op == 2 {
        enc_bswap(sf, RAX)
    } else if op == 1 {
        if sf {
            enc_mov_ri64(RCX, 0x00ff_00ff_00ff_00ff) + enc_binop(0x21, RCX, RAX) + enc_mov_rr64(
                RDX,
                RAX,
            ) + enc_mov_ri64(R10, 0xff00_ff00_ff00_ff00) + enc_binop(0x21, RDX, R10)
                + enc_shift_ri8(4, RCX, 8) + enc_shift_ri8(5, RDX, 8) + enc_binop(0x09, RAX, RCX)
                + enc_binop(0x09, RAX, RDX)
        } else {
            enc_mov_rr64(RCX, RAX) + enc_ari_imm(4, RCX, 0x00ff_00ff) + enc_shift_ri8(4, RCX, 8)
                + enc_ari_imm(4, RAX, 0xff00_ff00) + enc_shift_ri8(5, RAX, 8) + enc_binop(
                0x09,
                RAX,
                RCX,
            )
        }
    } else if op == 3 {
        enc_shift_ri8(1, RAX, 32)
    } else {
        rbit_steps(if sf { 6 } else { 4 })
    }
}

/// RBIT/REV16/REV/REV32: rn in RAX, the operation, the W result truncated,
/// written to `rd`; nothing for `rd` 31.
pub open spec fn rev_bytes(rd: u8, rn: u8, op: u8, sf: bool) -> Seq<u8> {
    if rd == 31 {
        Seq::empty()
    } else {
        ldg_bytes(RAX, rn) + rev_op_bytes(op, sf) + opt(!sf, enc_zero_ext_r32(RAX)) + stg_bytes(
            rd,
            RAX,
        )
    }
}

fn rev_op(buf: &mut CodeBuf, op: u8, sf: bool)
    ensures
        final(buf)@ == old(buf)@ + rev_op_bytes(op, sf),
{
    let ghost start = buf@;
    if op == 2 {
        if sf {
            buf.bswap_r64(RAX);
        } else {
            buf.bswap_r32(RAX);  // a 32-bit bswap zeroes the upper half
        }
    } else if op == 1 {
        if sf {
            buf.mov_ri64(RCX, 0x00ff_00ff_00ff_00ff);
            buf.and_rr64(RCX, RAX);  // the even bytes
            buf.mov_rr64(RDX, RAX);
            buf.mov_ri64(R10, 0xff00_ff00_ff00_ff00);
            buf.and_rr64(RDX, R10);  // the odd bytes
            buf.shl_ri8(RCX, 8);
            buf.shr_ri8(RDX, 8);
            buf.or_rr64(RAX, RCX);
            buf.or_rr64(RAX, RDX);
        } else {
            buf.mov_rr64(RCX, RAX);
            buf.and_ri64(RCX, 0x00ff_00ff);
            buf.shl_ri8(RCX, 8);
            buf.and_ri64(RAX, 0xff00_ff00);
            buf.shr_ri8(RAX, 8);
            buf.or_rr64(RAX, RCX);
        }
    } else if op == 3 {
        buf.ror_ri8(RAX, 32);  // swap the two 32-bit halves
    } else {
        // RBIT: swap adjacent bits, pairs, nibbles, ... up to the width
        let width: usize = if sf { 6 } else { 4 };
        let mut k: usize = 0;
        while k < width
            invariant
                k <= width,
                width == (if sf { 6usize } else { 4usize }),
                buf@ == start + rbit_steps(k as nat),
            decreases width - k,
        {
            let ghost before = buf@;
            let sh: u8 = (1u32 << k as u32) as u8;
            let m = rbit_mask_exec(k);
            buf.mov_rr64(RCX, RAX);
            buf.shr_ri8(RCX, sh);
            buf.mov_ri64(R10, m);
            buf.and_rr64(RCX, R10);  // (x >> sh) & m
            buf.and_rr64(RAX, R10);  // x & m
            buf.shl_ri8(RAX, sh);  // (x & m) << sh
            buf.or_rr64(RAX, RCX);
            proof {
                assert(buf@ =~= before + rbit_step_bytes(k as nat));
                lemma_grow(start, rbit_steps(k as nat), before, rbit_step_bytes(k as nat), buf@);
                assert(rbit_steps((k + 1) as nat) == rbit_steps(k as nat) + rbit_step_bytes(
                    k as nat,
                ));
            }
            k = k + 1;
        }
    }
    proof {
        assert(buf@ =~= start + rev_op_bytes(op, sf));
    }
}

fn translate_rev(buf: &mut CodeBuf, rd: u8, rn: u8, op: u8, sf: bool)
    ensures
        final(buf)@ == old(buf)@ + rev_bytes(rd, rn, op, sf),
{
    let ghost start = buf@;
    if rd == 31 {
        proof {
            lemma_grow_none(start);
        }
        return ;
    }
    ldg(buf, RAX, rn as u32);
    let ghost p1 = buf@;
    rev_op(buf, op, sf);
    let ghost p2 = buf@;
    if !sf {
        buf.zero_ext_r32(RAX);
    }
    let ghost p3 = buf@;
    stg(buf, rd as u32, RAX);
    proof {
        if sf {
            lemma_grow_none(p2);
        }
        assert(p3 == p2 + opt(!sf, enc_zero_ext_r32(RAX)));
        lemma_grow(start, ldg_bytes(RAX, rn), p1, rev_op_bytes(op, sf), p2);
        lemma_grow(start, ldg_bytes(RAX, rn) + rev_op_bytes(op, sf), p2, opt(!sf, enc_zero_ext_r32(RAX)), p3);
        lemma_grow(
            start,
            ldg_bytes(RAX, rn) + rev_op_bytes(op, sf) + opt(!sf, enc_zero_ext_r32(RAX)),
            p3,
            stg_bytes(rd, RAX),
            buf@,
        );
    }
}

/// The 16-byte copy between the vector slot at `[RBX + vslot]` and
/// `[base + disp]` through XMM0.
pub open spec fn vec_xfer_bytes(ld: bool, base: u8, disp: i32, vslot: i32) -> Seq<u8> {
    if ld {
        crate::x86::enc_movdqu_load(0, base, disp) + crate::x86::enc_movdqu_store(RBX, vslot, 0)
    } else {
        crate::x86::enc_movdqu_load(0, RBX, vslot) + crate::x86::enc_movdqu_store(base, disp, 0)
    }
}

fn vec_xfer(buf: &mut CodeBuf, ld: bool, base: u8, disp: i32, vslot: i32)
    requires
        mem_base_ok(base),
    ensures
        final(buf)@ == old(buf)@ + vec_xfer_bytes(ld, base, disp, vslot),
{
    let ghost start = buf@;
    if ld {
        buf.movdqu_load(0, base, disp);
        buf.movdqu_store(RBX, vslot, 0);
    } else {
        buf.movdqu_load(0, RBX, vslot);
        buf.movdqu_store(base, disp, 0);
    }
    proof {
        assert(buf@ =~= start + vec_xfer_bytes(ld, base, disp, vslot));
    }
}

/// `lea r, [r + off]` when `off` is not zero.
pub open spec fn add_lea_bytes(r: u8, off: i32) -> Seq<u8> {
    opt(off != 0, crate::x86::enc_lea64(r, r, off))
}

fn add_lea(buf: &mut CodeBuf, r: u8, off: i32)
    requires
        mem_base_ok(r),
    ensures
        final(buf)@ == old(buf)@ + add_lea_bytes(r, off),
{
    if off != 0 {
        buf.lea64(r, r, off);
    } else {
        proof {
            lemma_grow_none(buf@);
        }
    }
}

/// The vector loads and stores: the address in RAX (`x[rn]`, plus the
/// scaled or unscaled offset or `x[rm]`), the 16-byte copy, and for the
/// indexed forms the base update through RCX.
pub open spec fn vec_ldst_bytes(inst: Inst) -> Seq<u8> {
    match inst {
        Inst::VecLdStImm { vt, rn, imm, ld } => ldg_bytes(RAX, rn) + add_lea_bytes(
            RAX,
            (imm as i32).wrapping_mul(16),
        ) + vec_xfer_bytes(ld, RAX, 0, vslot_of(vt)),
        Inst::VecLdStrReg { vt, rn, rm, ld } => ldg_bytes(RAX, rn) + ldg_bytes(RCX, rm) + enc_binop(
            0x01,
            RAX,
            RCX,
        ) + vec_xfer_bytes(ld, RAX, 0, vslot_of(vt)),
        Inst::VecLdStImmUnscaled { vt, rn, imm9, ld } => ldg_bytes(RAX, rn) + add_lea_bytes(
            RAX,
            imm9,
        ) + vec_xfer_bytes(ld, RAX, 0, vslot_of(vt)),
        Inst::VecLdStIndexed { vt, rn, imm9, ld, pre } => ldg_bytes(RAX, rn) + add_lea_bytes(
            RAX,
            if pre { imm9 } else { 0 },
        ) + vec_xfer_bytes(ld, RAX, 0, vslot_of(vt)) + ldg_bytes(RCX, rn) + add_lea_bytes(RCX, imm9)
            + stg_bytes(rn, RCX),
        _ => Seq::empty(),
    }
}

fn translate_vec_ldst(buf: &mut CodeBuf, inst: Inst)
    requires
        inst is VecLdStImm || inst is VecLdStrReg || inst is VecLdStImmUnscaled
            || inst is VecLdStIndexed,
    ensures
        final(buf)@ == old(buf)@ + vec_ldst_bytes(inst),
{
    let ghost start = buf@;
    match inst {
        Inst::VecLdStImm { vt, rn, imm, ld } => {
            // addr = rn + 16 * imm
            ldg(buf, RAX, rn as u32);
            let off = (imm as i32).wrapping_mul(16);
            add_lea(buf, RAX, off);
            vec_xfer(buf, ld, RAX, 0, VECTOR_BASE + (vt as i32) * 16);
        },
        Inst::VecLdStrReg { vt, rn, rm, ld } => {
            // addr = rn + rm; neither register is written back
            ldg(buf, RAX, rn as u32);
            ldg(buf, RCX, rm as u32);
            buf.add_rr64(RAX, RCX);
            vec_xfer(buf, ld, RAX, 0, VECTOR_BASE + (vt as i32) * 16);
        },
        Inst::VecLdStImmUnscaled { vt, rn, imm9, ld } => {
            ldg(buf, RAX, rn as u32);
            add_lea(buf, RAX, imm9);
            vec_xfer(buf, ld, RAX, 0, VECTOR_BASE + (vt as i32) * 16);
        },
        Inst::VecLdStIndexed { vt, rn, imm9, ld, pre } => {
            // pre-index accesses rn + imm9, post-index rn; both advance rn
            ldg(buf, RAX, rn as u32);
            add_lea(buf, RAX, if pre { imm9 } else { 0 });
            vec_xfer(buf, ld, RAX, 0, VECTOR_BASE + (vt as i32) * 16);
            ldg(buf, RCX, rn as u32);
            add_lea(buf, RCX, imm9);
            stg(buf, rn as u32, RCX);
        },
        _ => {},
    }
    proof {
        assert(buf@ =~= start + vec_ldst_bytes(inst));
    }
}

/// The scalar FP loads and stores: the address in RDX, the transfer of
/// `fp_scalar_xfer` for an implemented size, and for the indexed form the
/// base update through RCX.
pub open spec fn fp_ldst_bytes(inst: Inst) -> Seq<u8> {
    match inst {
        Inst::FpLdStImmUnscaled { vt, rn, imm9, size, ld } => ldg_bytes(RDX, rn) + add_lea_bytes(
            RDX,
            imm9,
        ) + opt(xfer_size_ok(size), prog_bytes(xfer_prog(RDX, vslot_of(vt), size, ld))),
        Inst::FpLdStImmWb { vt, rn, imm9, size, ld, pre } => ldg_bytes(RDX, rn) + add_lea_bytes(
            RDX,
            if pre { imm9 } else { 0 },
        ) + opt(
            xfer_size_ok(size),
            prog_bytes(xfer_prog(RDX, vslot_of(vt), size, ld)) + ldg_bytes(RCX, rn) + add_lea_bytes(
                RCX,
                imm9,
            ) + stg_bytes(rn, RCX),
        ),
        Inst::FpLdStImm { vt, rn, imm, size, ld } => ldg_bytes(RDX, rn) + add_lea_bytes(
            RDX,
            (imm as i32).wrapping_mul(size as i32),
        ) + opt(xfer_size_ok(size), prog_bytes(xfer_prog(RDX, vslot_of(vt), size, ld))),
        _ => Seq::empty(),
    }
}

/// The size that decides an FP load/store, or 8 for another instruction.
pub open spec fn fp_ldst_size(inst: Inst) -> u8 {
    match inst {
        Inst::FpLdStImmUnscaled { size, .. } => size,
        Inst::FpLdStImmWb { size, .. } => size,
        Inst::FpLdStImm { size, .. } => size,
        _ => 8,
    }
}

fn translate_fp_ldst(buf: &mut CodeBuf, inst: Inst) -> (ok: bool)
    requires
        inst is FpLdStImmUnscaled || inst is FpLdStImmWb || inst is FpLdStImm,
    ensures
        ok == xfer_size_ok(fp_ldst_size(inst)),
        final(buf)@ == old(buf)@ + fp_ldst_bytes(inst),
{
    let ghost start = buf@;
    let ok = match inst {
        Inst::FpLdStImmUnscaled { vt, rn, imm9, size, ld } => {
            // ldur/stur: addr = rn + imm9, no writeback
            ldg(buf, RDX, rn as u32);
            add_lea(buf, RDX, imm9);
            fp_scalar_xfer(buf, RDX, VECTOR_BASE + (vt as i32) * 16, size, ld).is_ok()
        },
        Inst::FpLdStImmWb { vt, rn, imm9, size, ld, pre } => {
            // the address lives in RDX: the transfer goes through RAX
            ldg(buf, RDX, rn as u32);
            add_lea(buf, RDX, if pre { imm9 } else { 0 });
            let ok = fp_scalar_xfer(buf, RDX, VECTOR_BASE + (vt as i32) * 16, size, ld).is_ok();
            if ok {
                // the base advances by imm9 for pre- and post-index
                ldg(buf, RCX, rn as u32);
                add_lea(buf, RCX, imm9);
                stg(buf, rn as u32, RCX);
            }
            ok
        },
        Inst::FpLdStImm { vt, rn, imm, size, ld } => {
            // addr = rn + imm * size
            ldg(buf, RDX, rn as u32);
            add_lea(buf, RDX, (imm as i32).wrapping_mul(size as i32));
            fp_scalar_xfer(buf, RDX, VECTOR_BASE + (vt as i32) * 16, size, ld).is_ok()
        },
        _ => true,
    };
    proof {
        assert(buf@ =~= start + fp_ldst_bytes(inst));
    }
    ok
}

/// A length as a rel32 displacement (modulo 2^32).
pub open spec fn len32(n: int) -> u32 {
    (n % 0x1_0000_0000) as u32
}

/// The path of CCMP/CCMN when the condition fails: NZCV = the immediate.
pub open spec fn cond_compare_false_bytes(nzcv: u8) -> Seq<u8> {
    enc_mov_ri64(RAX, (nzcv as u64) << 28) + crate::x86::enc_mov_store32(RBX, NZCV_OFF, RAX)
}

/// The path when the condition holds: `rn` (31 as XZR) against `rm` (31 as
/// XZR) or the immediate, both zero-extended for a W form, added (CCMN) or
/// subtracted (CCMP) for the flags, NZCV stored.
pub open spec fn cond_compare_true_bytes(rn: u8, rm: u8, imm: u8, cmn: bool, sf: bool, is_reg: bool) -> Seq<
    u8,
> {
    reg_or_zero_bytes(RAX, rn) + opt(!sf, zext_bytes(RAX)) + (if is_reg {
        reg_or_zero_bytes(RCX, rm) + opt(!sf, zext_bytes(RCX))
    } else {
        enc_mov_ri64(RCX, imm as u64)
    }) + cond_compare_op_bytes(cmn, sf) + nzcv_bytes()
}

/// `add` (CCMN) or `sub` (CCMP) of RCX into RAX, 64- or 32-bit.
pub open spec fn cond_compare_op_bytes(cmn: bool, sf: bool) -> Seq<u8> {
    if cmn {
        if sf {
            enc_binop(0x01, RAX, RCX)
        } else {
            enc_binop32(0x01, RAX, RCX)
        }
    } else if sf {
        enc_binop(0x29, RAX, RCX)
    } else {
        enc_binop32(0x29, RAX, RCX)
    }
}

/// CCMP/CCMN: NZCV into RFLAGS, a jcc on the condition over the false path
/// (which ends in a jmp over the true path) to the true path; nothing for a
/// condition without a jcc (AL, NV and past 15).
pub open spec fn cond_compare_bytes(
    rn: u8,
    rm: u8,
    imm: u8,
    nzcv: u8,
    cond: u8,
    cmn: bool,
    sf: bool,
    is_reg: bool,
) -> Seq<u8> {
    match cond_cc(cond) {
        Some(cc) => {
            let f = cond_compare_false_bytes(nzcv);
            let t = cond_compare_true_bytes(rn, rm, imm, cmn, sf, is_reg);
            prog_bytes(load_nzcv_to_eflags_prog()) + seq![0x0Fu8, cc] + le32(len32(f.len() + 5int))
                + f + seq![0xE9u8] + le32(len32(t.len() as int)) + t
        },
        None => Seq::empty(),
    }
}

fn cond_compare_true_path(buf: &mut CodeBuf, rn: u8, rm: u8, imm: u8, cmn: bool, sf: bool, is_reg: bool)
    ensures
        final(buf)@ == old(buf)@ + cond_compare_true_bytes(rn, rm, imm, cmn, sf, is_reg),
{
    let ghost start = buf@;
    load_reg_or_zero(buf, RAX, rn);
    let ghost p1 = buf@;
    if !sf {
        zext_w(buf, RAX);  // a 32-bit compare ignores the upper half
    }
    let ghost p2 = buf@;
    if is_reg {
        load_reg_or_zero(buf, RCX, rm);
        let ghost m = buf@;
        if !sf {
            zext_w(buf, RCX);
        }
        proof {
            if sf {
                lemma_grow_none(m);
            }
            assert(buf@ == m + opt(!sf, zext_bytes(RCX)));
            lemma_grow(p2, reg_or_zero_bytes(RCX, rm), m, opt(!sf, zext_bytes(RCX)), buf@);
        }
    } else {
        buf.mov_ri64(RCX, imm as u64);
    }
    let ghost p3 = buf@;
    if cmn {
        if sf {
            buf.add_rr64(RAX, RCX);
        } else {
            buf.add_rr32(RAX, RCX);
        }
    } else if sf {
        buf.sub_rr64(RAX, RCX);  // the flags of a compare, as the branches expect
    } else {
        buf.sub_rr32(RAX, RCX);
    }
    let ghost p4 = buf@;
    store_nzcv(buf);
    proof {
        if sf {
            lemma_grow_none(p1);
        }
        let a = reg_or_zero_bytes(RAX, rn);
        let b = opt(!sf, zext_bytes(RAX));
        let c = if is_reg {
            reg_or_zero_bytes(RCX, rm) + opt(!sf, zext_bytes(RCX))
        } else {
            enc_mov_ri64(RCX, imm as u64)
        };
        let d = cond_compare_op_bytes(cmn, sf);
        assert(p2 == p1 + b);
        assert(p3 == p2 + c);
        assert(p4 == p3 + d);
        lemma_grow(start, a, p1, b, p2);
        lemma_grow(start, a + b, p2, c, p3);
        lemma_grow(start, a + b + c, p3, d, p4);
        lemma_grow(start, a + b + c + d, p4, nzcv_bytes(), buf@);
    }
}

/// The two patches of CCMP/CCMN give the clean layout.
proof fn lemma_cond_compare_patch(
    start: Seq<u8>,
    l: Seq<u8>,
    cc: u8,
    f: Seq<u8>,
    t: Seq<u8>,
    jd: int,
    je: int,
    d1: u32,
    d2: u32,
)
    requires
        jd == start.len() + l.len() + 2,
        je == jd + 4 + f.len() + 1,
    ensures
        splice(
            splice(
                start + l + seq![0x0Fu8, cc, 0u8, 0u8, 0u8, 0u8] + f + seq![0xE9u8, 0u8, 0u8, 0u8, 0u8]
                    + t,
                jd,
                le32(d1),
            ),
            je,
            le32(d2),
        ) == start + (l + seq![0x0Fu8, cc] + le32(d1) + f + seq![0xE9u8] + le32(d2) + t),
{
    let raw = start + l + seq![0x0Fu8, cc, 0u8, 0u8, 0u8, 0u8] + f + seq![0xE9u8, 0u8, 0u8, 0u8, 0u8]
        + t;
    let one = splice(raw, jd, le32(d1));
    assert(le32(d1).len() == 4 && le32(d2).len() == 4);
    assert(one =~= start + l + seq![0x0Fu8, cc] + le32(d1) + f + seq![0xE9u8, 0u8, 0u8, 0u8, 0u8]
        + t);
    assert(splice(one, je, le32(d2)) =~= start + (l + seq![0x0Fu8, cc] + le32(d1) + f + seq![0xE9u8]
        + le32(d2) + t));
}

fn translate_cond_compare(
    buf: &mut CodeBuf,
    rn: u8,
    rm: u8,
    imm: u8,
    nzcv: u8,
    cond: u8,
    cmn: bool,
    sf: bool,
    is_reg: bool,
) -> (ok: bool)
    ensures
        ok == (cond_cc(cond) is Some),
        final(buf)@ == old(buf)@ + cond_compare_bytes(rn, rm, imm, nzcv, cond, cmn, sf, is_reg),
{
    let ghost start = buf@;
    let jcc = match x86_cc_for_cond(cond) {
        Some(c) => c,
        None => {
            proof {
                lemma_grow_none(start);
            }
            return false;
        },
    };
    load_nzcv_to_eflags(buf);  // RFLAGS = the guest NZCV, for the condition
    let j_cond = buf.jcc_rel32(jcc);  // to the compare path when the condition holds
    let ghost f_start = buf@;
    // the condition fails: NZCV = the immediate (N, Z, C, V in bits 31..28)
    buf.mov_ri64(RAX, (nzcv as u64) << 28);
    buf.mov_store32(RBX, NZCV_OFF, RAX);
    let ghost f_end = buf@;
    let j_end = buf.jmp_rel32();  // over the compare path
    let true_off = buf.len();
    cond_compare_true_path(buf, rn, rm, imm, cmn, sf, is_reg);
    let tail_off = buf.len();
    let ghost raw = buf@;
    let ghost l = prog_bytes(load_nzcv_to_eflags_prog());
    let ghost f = cond_compare_false_bytes(nzcv);
    let ghost t = cond_compare_true_bytes(rn, rm, imm, cmn, sf, is_reg);
    proof {
        assert(f_end =~= f_start + f);
        assert(raw =~= start + l + seq![0x0Fu8, jcc, 0u8, 0u8, 0u8, 0u8] + f + seq![
            0xE9u8,
            0u8,
            0u8,
            0u8,
            0u8,
        ] + t);
    }
    buf.patch_rel32_at(j_cond, true_off);
    buf.patch_rel32_at(j_end, tail_off);
    proof {
        let d1 = rel32_disp(j_cond + 4, true_off as int);
        let d2 = rel32_disp(j_end + 4, tail_off as int);
        assert(d1 == len32(f.len() + 5int));
        assert(d2 == len32(t.len() as int));
        lemma_cond_compare_patch(start, l, jcc, f, t, j_cond as int, j_end as int, d1, d2);
    }
    true
}

/// The path of FCCMP when the condition holds: the compare of the doubles
/// (`comisd`) or singles (`comiss`) and the `fcmp` NZCV stored.
pub open spec fn fp_cond_compare_true_bytes(rn: u8, rm: u8, sz: bool) -> Seq<u8> {
    (if sz {
        crate::x86::enc_movq_load(0, RBX, vslot_of(rn)) + crate::x86::enc_movq_load(1, RBX, vslot_of(rm))
            + crate::x86::enc_sse_rex_rr(0x66, 0x2F, 0, 1)
    } else {
        crate::x86::enc_mov_load32(RAX, RBX, vslot_of(rn)) + crate::x86::enc_sse_rr(0x66, 0x6E, 0, RAX)
            + crate::x86::enc_mov_load32(RAX, RBX, vslot_of(rm)) + crate::x86::enc_sse_rr(0x66, 0x6E, 1, RAX)
            + seq![
            crate::x86::rex_byte(false, 0, 0, 1),
            0x0Fu8,
            0x2Fu8,
            modrm_byte(3, 0u8 & 7, 1u8 & 7),
        ]
    }) + prog_bytes(store_nzcv_fp_prog())
}

/// FCCMP: the layout of CCMP with the FP compare on the true path; nothing
/// for a condition without a jcc.
pub open spec fn fp_cond_compare_bytes(rn: u8, rm: u8, nzcv: u8, cond: u8, sz: bool) -> Seq<u8> {
    match cond_cc(cond) {
        Some(cc) => {
            let f = cond_compare_false_bytes(nzcv);
            let t = fp_cond_compare_true_bytes(rn, rm, sz);
            prog_bytes(load_nzcv_to_eflags_prog()) + seq![0x0Fu8, cc] + le32(len32(f.len() + 5int))
                + f + seq![0xE9u8] + le32(len32(t.len() as int)) + t
        },
        None => Seq::empty(),
    }
}

fn fp_cond_compare_true_path(buf: &mut CodeBuf, rn: u8, rm: u8, sz: bool)
    ensures
        final(buf)@ == old(buf)@ + fp_cond_compare_true_bytes(rn, rm, sz),
{
    let ghost start = buf@;
    if sz {
        buf.movq_load(0, RBX, VECTOR_BASE + (rn as i32) * 16);
        buf.movq_load(1, RBX, VECTOR_BASE + (rm as i32) * 16);
        buf.comisd(0, 1);
    } else {
        buf.mov_load32(RAX, RBX, VECTOR_BASE + (rn as i32) * 16);
        buf.movd_xmm_r32(0, RAX);
        buf.mov_load32(RAX, RBX, VECTOR_BASE + (rm as i32) * 16);
        buf.movd_xmm_r32(1, RAX);
        buf.comiss(0, 1);
    }
    store_nzcv_fp(buf);
    proof {
        assert(buf@ =~= start + fp_cond_compare_true_bytes(rn, rm, sz));
    }
}

fn translate_fp_cond_compare(buf: &mut CodeBuf, rn: u8, rm: u8, nzcv: u8, cond: u8, sz: bool) -> (ok: bool)
    ensures
        ok == (cond_cc(cond) is Some),
        final(buf)@ == old(buf)@ + fp_cond_compare_bytes(rn, rm, nzcv, cond, sz),
{
    let ghost start = buf@;
    let jcc = match x86_cc_for_cond(cond) {
        Some(c) => c,
        None => {
            proof {
                lemma_grow_none(start);
            }
            return false;
        },
    };
    load_nzcv_to_eflags(buf);  // RFLAGS = the guest NZCV, for the condition
    let j_cond = buf.jcc_rel32(jcc);  // to the compare when the condition holds
    let ghost f_start = buf@;
    // the condition fails: NZCV = the immediate
    buf.mov_ri64(RAX, (nzcv as u64) << 28);
    buf.mov_store32(RBX, NZCV_OFF, RAX);
    let ghost f_end = buf@;
    let j_end = buf.jmp_rel32();  // over the compare
    let true_off = buf.len();
    fp_cond_compare_true_path(buf, rn, rm, sz);
    let tail_off = buf.len();
    let ghost raw = buf@;
    let ghost l = prog_bytes(load_nzcv_to_eflags_prog());
    let ghost f = cond_compare_false_bytes(nzcv);
    let ghost t = fp_cond_compare_true_bytes(rn, rm, sz);
    proof {
        assert(f_end =~= f_start + f);
        assert(raw =~= start + l + seq![0x0Fu8, jcc, 0u8, 0u8, 0u8, 0u8] + f + seq![
            0xE9u8,
            0u8,
            0u8,
            0u8,
            0u8,
        ] + t);
    }
    buf.patch_rel32_at(j_cond, true_off);
    buf.patch_rel32_at(j_end, tail_off);
    proof {
        let d1 = rel32_disp(j_cond + 4, true_off as int);
        let d2 = rel32_disp(j_end + 4, tail_off as int);
        assert(d1 == len32(f.len() + 5int));
        assert(d2 == len32(t.len() as int));
        lemma_cond_compare_patch(start, l, jcc, f, t, j_cond as int, j_end as int, d1, d2);
    }
    true
}

/// The FP register moves: FMOV between a general register and the low
/// bits of a vector slot, FMOV immediates by their bit patterns, FMOV
/// between FP registers, and the vector immediates (written, or and-ed or
/// or-ed into both halves of the slot).
pub open spec fn fp_move_bytes(inst: Inst) -> Seq<u8> {
    match inst {
        Inst::FmovGp { f, sz, half, rd, rn } => if f {
            (if half {
                crate::x86::enc_movzx_word_mem(RAX, RBX, vslot_of(rn))
            } else if sz {
                enc_mov_load64(RAX, RBX, vslot_of(rn))
            } else {
                crate::x86::enc_mov_load32(RAX, RBX, vslot_of(rn))
            }) + opt(rd != 31, stg_bytes(rd, RAX))
        } else {
            ldg_bytes(RAX, rn) + if half {
                crate::x86::enc_mov_store16(RBX, vslot_of(rd), RAX)
            } else if sz {
                enc_mov_store64(RBX, vslot_of(rd), RAX)
            } else {
                crate::x86::enc_mov_store32(RBX, vslot_of(rd), RAX)
            }
        },
        Inst::FmovImm { rd, double, value_bits } => if double {
            enc_mov_ri64(RAX, value_bits) + enc_mov_store64(RBX, vslot_of(rd), RAX)
        } else {
            crate::x86::enc_mov_ri32(RAX, value_bits as u32) + crate::x86::enc_mov_store32(
                RBX,
                vslot_of(rd),
                RAX,
            )
        },
        Inst::FmovImm16 { rd, value_bits } => crate::x86::enc_mov_ri32(RAX, value_bits as u32)
            + crate::x86::enc_mov_store16(RBX, vslot_of(rd), RAX),
        Inst::FmovFp { rd, rn, sz } => if sz {
            enc_mov_load64(RAX, RBX, vslot_of(rn)) + enc_mov_store64(RBX, vslot_of(rd), RAX)
        } else {
            crate::x86::enc_mov_load32(RAX, RBX, vslot_of(rn)) + crate::x86::enc_mov_store32(
                RBX,
                vslot_of(rd),
                RAX,
            )
        },
        Inst::VecMovi { vd, lo, hi, kind } => if kind == 1 || kind == 2 {
            movi_half_bytes(vslot_of(vd), lo, kind) + movi_half_bytes((vslot_of(vd) + 8) as i32, hi, kind)
        } else {
            enc_mov_ri64(RAX, lo) + enc_mov_store64(RBX, vslot_of(vd), RAX) + enc_mov_ri64(RAX, hi)
                + enc_mov_store64(RBX, (vslot_of(vd) + 8) as i32, RAX)
        },
        _ => Seq::empty(),
    }
}

/// One half of BIC (`kind` 1, `and`) or ORR (`or`) vector immediate: the
/// quadword at `[RBX + off]` combined with `mask`.
pub open spec fn movi_half_bytes(off: i32, mask: u64, kind: u8) -> Seq<u8> {
    enc_mov_load64(RAX, RBX, off) + enc_mov_ri64(RCX, mask) + enc_binop(
        if kind == 1 { 0x21 } else { 0x09 },
        RAX,
        RCX,
    ) + enc_mov_store64(RBX, off, RAX)
}

fn movi_half(buf: &mut CodeBuf, off: i32, mask: u64, kind: u8)
    ensures
        final(buf)@ == old(buf)@ + movi_half_bytes(off, mask, kind),
{
    let ghost start = buf@;
    buf.mov_load64(RAX, RBX, off);
    buf.mov_ri64(RCX, mask);
    if kind == 1 {
        buf.and_rr64(RAX, RCX);
    } else {
        buf.or_rr64(RAX, RCX);
    }
    buf.mov_store64(RBX, off, RAX);
    proof {
        assert(buf@ =~= start + movi_half_bytes(off, mask, kind));
    }
}

fn translate_fp_move(buf: &mut CodeBuf, inst: Inst)
    requires
        inst is FmovGp || inst is FmovImm || inst is FmovImm16 || inst is FmovFp || inst is VecMovi,
    ensures
        final(buf)@ == old(buf)@ + fp_move_bytes(inst),
{
    let ghost start = buf@;
    match inst {
        Inst::FmovGp { f, sz, half, rd, rn } => {
            if f {
                // FP -> general: the low 16, 64 or 32 bits of the slot
                let src = VECTOR_BASE + (rn as i32) * 16;
                if half {
                    buf.mov_load16(RAX, RBX, src);
                } else if sz {
                    buf.mov_load64(RAX, RBX, src);
                } else {
                    buf.mov_load32(RAX, RBX, src);
                }
                let ghost m = buf@;
                if rd != 31 {
                    stg(buf, rd as u32, RAX);
                }
                proof {
                    if rd == 31 {
                        lemma_grow_none(m);
                    }
                }
            } else {
                // general -> FP
                let dst = VECTOR_BASE + (rd as i32) * 16;
                ldg(buf, RAX, rn as u32);
                if half {
                    buf.mov_store16(RBX, dst, RAX);
                } else if sz {
                    buf.mov_store64(RBX, dst, RAX);
                } else {
                    buf.mov_store32(RBX, dst, RAX);
                }
            }
        },
        Inst::FmovImm { rd, double, value_bits } => {
            let slot = VECTOR_BASE + (rd as i32) * 16;
            if double {
                buf.mov_ri64(RAX, value_bits);
                buf.mov_store64(RBX, slot, RAX);  // the double's bits
            } else {
                buf.mov_ri32(RAX, value_bits as u32);
                buf.mov_store32(RBX, slot, RAX);  // the single's bits
            }
        },
        Inst::FmovImm16 { rd, value_bits } => {
            let slot = VECTOR_BASE + (rd as i32) * 16;
            buf.mov_ri32(RAX, value_bits as u32);
            buf.mov_store16(RBX, slot, RAX);
        },
        Inst::FmovFp { rd, rn, sz } => {
            // a copy of the bits, no conversion
            let src = VECTOR_BASE + (rn as i32) * 16;
            let dst = VECTOR_BASE + (rd as i32) * 16;
            if sz {
                buf.mov_load64(RAX, RBX, src);
                buf.mov_store64(RBX, dst, RAX);
            } else {
                buf.mov_load32(RAX, RBX, src);
                buf.mov_store32(RBX, dst, RAX);
            }
        },
        Inst::VecMovi { vd, lo, hi, kind } => {
            let slot = VECTOR_BASE + (vd as i32) * 16;
            if kind == 1 || kind == 2 {
                movi_half(buf, slot, lo, kind);
                movi_half(buf, slot + 8, hi, kind);
            } else {
                buf.mov_ri64(RAX, lo);
                buf.mov_store64(RBX, slot, RAX);
                buf.mov_ri64(RAX, hi);
                buf.mov_store64(RBX, slot + 8, RAX);
            }
        },
        _ => {},
    }
    proof {
        assert(buf@ =~= start + fp_move_bytes(inst));
    }
}

/// `vcvtph2ps xmm_r, xmm_r` (F16C) for XMM0 or XMM1.
pub open spec fn cvtph2ps_bytes(r: u8) -> Seq<u8> {
    seq![0xC4u8, 0xE2u8, 0x79u8, 0x13u8, if r == 0 { 0xC0u8 } else { 0xC9u8 }]
}

/// The FCMP operand `r` into XMM `x` (XMM0 or XMM1): the double, or the
/// single through EAX, or the half through AX promoted to single.
pub open spec fn fp_compare_operand_bytes(x: u8, r: u8, sz: bool, half: bool) -> Seq<u8> {
    if sz {
        crate::x86::enc_movq_load(x, RBX, vslot_of(r))
    } else if half {
        crate::x86::enc_movzx_word_mem(RAX, RBX, vslot_of(r)) + crate::x86::enc_sse_rr(0x66, 0x6E, x, RAX)
            + cvtph2ps_bytes(x)
    } else {
        crate::x86::enc_mov_load32(RAX, RBX, vslot_of(r)) + crate::x86::enc_sse_rr(0x66, 0x6E, x, RAX)
    }
}

/// FCMP: the operands in XMM0 and XMM1 (+0.0 by `pxor` against zero), the
/// ordered compare (`comisd`, else `comiss`), and the NZCV of the compare.
pub open spec fn fp_compare_bytes(rn: u8, rm: u8, against_zero: bool, sz: bool, half: bool) -> Seq<u8> {
    fp_compare_operand_bytes(0, rn, sz, half) + (if against_zero {
        crate::x86::enc_sse_rr(0x66, 0xEF, 1, 1)
    } else {
        fp_compare_operand_bytes(1, rm, sz, half)
    }) + (if sz {
        crate::x86::enc_sse_rex_rr(0x66, 0x2F, 0, 1)
    } else {
        seq![crate::x86::rex_byte(false, 0, 0, 1), 0x0Fu8, 0x2Fu8, modrm_byte(3, 0u8 & 7, 1u8 & 7)]
    }) + prog_bytes(store_nzcv_fp_prog())
}

fn fp_compare_operand(buf: &mut CodeBuf, x: u8, r: u8, sz: bool, half: bool)
    requires
        x == 0 || x == 1,
    ensures
        final(buf)@ == old(buf)@ + fp_compare_operand_bytes(x, r, sz, half),
{
    let ghost start = buf@;
    let slot = VECTOR_BASE + (r as i32) * 16;
    if sz {
        buf.movq_load(x, RBX, slot);
    } else if half {
        buf.mov_load16(RAX, RBX, slot);
        buf.movd_xmm_r32(x, RAX);
        // vcvtph2ps: promote the half to single
        buf.b(0xC4);
        buf.b(0xE2);
        buf.b(0x79);
        buf.b(0x13);
        buf.b(if x == 0 { 0xC0 } else { 0xC9 });
    } else {
        buf.mov_load32(RAX, RBX, slot);
        buf.movd_xmm_r32(x, RAX);
    }
    proof {
        assert(buf@ =~= start + fp_compare_operand_bytes(x, r, sz, half));
    }
}

fn translate_fp_compare(buf: &mut CodeBuf, rn: u8, rm: u8, against_zero: bool, sz: bool, half: bool)
    ensures
        final(buf)@ == old(buf)@ + fp_compare_bytes(rn, rm, against_zero, sz, half),
{
    let ghost start = buf@;
    fp_compare_operand(buf, 0, rn, sz, half);
    let ghost p1 = buf@;
    if against_zero {
        buf.pxor_xmm(1, 1);  // XMM1 = +0.0
    } else {
        fp_compare_operand(buf, 1, rm, sz, half);
    }
    let ghost p2 = buf@;
    if sz {
        buf.comisd(0, 1);
    } else {
        buf.comiss(0, 1);  // also for the promoted halves
    }
    let ghost p3 = buf@;
    store_nzcv_fp(buf);
    proof {
        let a = fp_compare_operand_bytes(0, rn, sz, half);
        let b = if against_zero {
            crate::x86::enc_sse_rr(0x66, 0xEF, 1, 1)
        } else {
            fp_compare_operand_bytes(1, rm, sz, half)
        };
        let c = if sz {
            crate::x86::enc_sse_rex_rr(0x66, 0x2F, 0, 1)
        } else {
            seq![crate::x86::rex_byte(false, 0, 0, 1), 0x0Fu8, 0x2Fu8, modrm_byte(3, 0u8 & 7, 1u8 & 7)]
        };
        assert(p2 == p1 + b);
        assert(p3 =~= p2 + c);
        lemma_grow(start, a, p1, b, p2);
        lemma_grow(start, a + b, p2, c, p3);
        lemma_grow(start, a + b + c, p3, prog_bytes(store_nzcv_fp_prog()), buf@);
    }
}

/// FCSEL: the bits of rn in RDI and of rm in R10 (64 or 32), then rn (AL),
/// rm (NV), or the `cmov` of rn over rm on the condition after NZCV is
/// loaded, stored as a quadword to rd's slot; nothing more for a condition
/// past 15.
pub open spec fn fcsel_bytes(rd: u8, rn: u8, rm: u8, cond: u8, sz: bool) -> Seq<u8> {
    (if sz {
        enc_mov_load64(RDI, RBX, vslot_of(rn)) + enc_mov_load64(R10, RBX, vslot_of(rm))
    } else {
        crate::x86::enc_mov_load32(RDI, RBX, vslot_of(rn)) + crate::x86::enc_mov_load32(
            R10,
            RBX,
            vslot_of(rm),
        )
    }) + if cond == 0xE {
        enc_mov_store64(RBX, vslot_of(rd), RDI)
    } else if cond == 0xF {
        enc_mov_store64(RBX, vslot_of(rd), R10)
    } else {
        match cond_cc(cond) {
            Some(cc) => prog_bytes(load_nzcv_to_eflags_prog()) + enc_cmov_rr64(
                (cc - 0x40) as u8,
                R10,
                RDI,
            ) + enc_mov_store64(RBX, vslot_of(rd), R10),
            None => Seq::empty(),
        }
    }
}

fn translate_fcsel(buf: &mut CodeBuf, rd: u8, rn: u8, rm: u8, cond: u8, sz: bool) -> (ok: bool)
    ensures
        ok == (cond <= 0xF),
        final(buf)@ == old(buf)@ + fcsel_bytes(rd, rn, rm, cond, sz),
{
    let ghost start = buf@;
    let true_slot = VECTOR_BASE + (rn as i32) * 16;
    let else_slot = VECTOR_BASE + (rm as i32) * 16;
    let dst_slot = VECTOR_BASE + (rd as i32) * 16;
    // the values are selected by their bit patterns
    if sz {
        buf.mov_load64(RDI, RBX, true_slot);
        buf.mov_load64(R10, RBX, else_slot);
    } else {
        buf.mov_load32(RDI, RBX, true_slot);
        buf.mov_load32(R10, RBX, else_slot);
    }
    let ghost p1 = buf@;
    let ok = if cond == 0xE {
        buf.mov_store64(RBX, dst_slot, RDI);  // AL: rn
        true
    } else if cond == 0xF {
        buf.mov_store64(RBX, dst_slot, R10);  // NV: rm
        true
    } else {
        match x86_cc_for_cond(cond) {
            Some(cc) => {
                load_nzcv_to_eflags(buf);
                buf.cmov_rr64(cc - 0x40, R10, RDI);  // R10 = cond ? rn : rm
                buf.mov_store64(RBX, dst_slot, R10);
                true
            },
            None => false,
        }
    };
    proof {
        assert(buf@ =~= start + fcsel_bytes(rd, rn, rm, cond, sz));
    }
    ok
}

/// The update of an atomic: RAX (the old value) combined with RCX (the
/// operand): add, and-not, xor, or, or the operand itself (SWP).
pub open spec fn atomic_op_bytes(op: u8) -> Seq<u8> {
    if op == 0 {
        enc_binop(0x01, RAX, RCX)
    } else if op == 1 {
        enc_grp3(2, RCX) + enc_binop(0x21, RAX, RCX)
    } else if op == 2 {
        enc_binop(0x31, RAX, RCX)
    } else if op == 3 {
        enc_binop(0x09, RAX, RCX)
    } else {
        enc_mov_rr64(RAX, RCX)
    }
}

/// LDADD/LDCLR/LDEOR/LDSET/SWP, single-threaded: the old value at `x[rn]`
/// (RDX) into RAX and RDI, the operand `rs` into RCX (zero-extended for 32
/// bits), the update stored back, and the old value (zero-extended for 32
/// bits) written to `rt` unless it is 31.
pub open spec fn atomic_bytes(op: u8, size64: bool, rs: u8, rn: u8, rt: u8) -> Seq<u8> {
    ldg_bytes(RDX, rn) + (if size64 {
        enc_mov_load64(RAX, RDX, 0)
    } else {
        crate::x86::enc_mov_load32(RAX, RDX, 0)
    }) + enc_mov_rr64(RDI, RAX) + ldg_bytes(RCX, rs) + opt(!size64, enc_zero_ext_r32(RCX))
        + atomic_op_bytes(op) + (if size64 {
        enc_mov_store64(RDX, 0, RAX)
    } else {
        crate::x86::enc_mov_store32(RDX, 0, RAX)
    }) + opt(rt != 31, opt(!size64, zext_bytes(RDI)) + enc_mov_rr64(RAX, RDI) + stg_bytes(rt, RAX))
}

fn translate_atomic(buf: &mut CodeBuf, op: u8, size64: bool, rs: u8, rn: u8, rt: u8)
    ensures
        final(buf)@ == old(buf)@ + atomic_bytes(op, size64, rs, rn, rt),
{
    let ghost start = buf@;
    ldg(buf, RDX, rn as u32);  // the address
    if size64 {
        buf.mov_load64(RAX, RDX, 0);
    } else {
        buf.mov_load32(RAX, RDX, 0);  // a W load zero-extends
    }
    buf.mov_rr64(RDI, RAX);  // the old value, for rt
    ldg(buf, RCX, rs as u32);
    if !size64 {
        buf.zero_ext_r32(RCX);
    }
    let ghost p1 = buf@;
    if op == 0 {
        buf.add_rr64(RAX, RCX);
    } else if op == 1 {
        buf.not_r64(RCX);
        buf.and_rr64(RAX, RCX);
    } else if op == 2 {
        buf.xor_rr64(RAX, RCX);
    } else if op == 3 {
        buf.or_rr64(RAX, RCX);
    } else {
        buf.mov_rr64(RAX, RCX);  // SWP
    }
    let ghost p2 = buf@;
    // the update back to [x[rn]]
    if size64 {
        buf.mov_store64(RDX, 0, RAX);
    } else {
        buf.mov_store32(RDX, 0, RAX);
    }
    let ghost p3 = buf@;
    if rt != 31 {
        if !size64 {
            zext_w(buf, RDI);
        }
        buf.mov_rr64(RAX, RDI);
        stg(buf, rt as u32, RAX);
    }
    proof {
        let a = ldg_bytes(RDX, rn) + (if size64 {
            enc_mov_load64(RAX, RDX, 0)
        } else {
            crate::x86::enc_mov_load32(RAX, RDX, 0)
        }) + enc_mov_rr64(RDI, RAX) + ldg_bytes(RCX, rs) + opt(!size64, enc_zero_ext_r32(RCX));
        let b = atomic_op_bytes(op);
        let c = if size64 {
            enc_mov_store64(RDX, 0, RAX)
        } else {
            crate::x86::enc_mov_store32(RDX, 0, RAX)
        };
        let d = opt(rt != 31, opt(!size64, zext_bytes(RDI)) + enc_mov_rr64(RAX, RDI) + stg_bytes(rt, RAX));
        assert(p1 =~= start + a);
        assert(p2 =~= p1 + b);
        assert(p3 =~= p2 + c);
        assert(buf@ =~= p3 + d);
        lemma_grow(start, a, p1, b, p2);
        lemma_grow(start, a + b, p2, c, p3);
        lemma_grow(start, a + b + c, p3, d, buf@);
    }
}

/// The register-offset address of a scalar FP access in RDX: rn plus rm
/// (RAX) extended by `index_ext` and shifted by doubling.
pub open spec fn fp_reg_addr_bytes(rn: u8, rm: u8, size: u8, shift: bool, index_ext: u8) -> Seq<u8> {
    ldg_bytes(RDX, rn) + ldg_bytes(RAX, rm) + (if index_ext == 2 {
        enc_zero_ext_r32(RAX)
    } else if index_ext == 1 {
        enc_ari_imm(4, RAX, 0xff)
    } else {
        Seq::empty()
    }) + repeat(enc_binop(0x01, RAX, RAX), reg_index_shift(size, shift) as nat) + enc_binop(
        0x01,
        RDX,
        RAX,
    )
}

fn fp_reg_addr(buf: &mut CodeBuf, rn: u8, rm: u8, size: u8, shift: bool, index_ext: u8)
    ensures
        final(buf)@ == old(buf)@ + fp_reg_addr_bytes(rn, rm, size, shift, index_ext),
{
    let ghost start = buf@;
    let shift_amt: u8 = if shift {
        match size {
            1 => 0,
            2 => 1,
            4 => 2,
            _ => 3,
        }
    } else {
        0
    };
    ldg(buf, RDX, rn as u32);  // the base
    ldg(buf, RAX, rm as u32);  // the index
    if index_ext == 2 {
        buf.zero_ext_r32(RAX);  // UXTW
    } else if index_ext == 1 {
        buf.and_ri64(RAX, 0xff);  // UXTB
    }
    let ghost p1 = buf@;
    let ghost dbl = enc_binop(0x01, RAX, RAX);
    let mut i: u8 = 0;
    while i < shift_amt
        invariant
            i <= shift_amt,
            buf@ == p1 + repeat(dbl, i as nat),
            dbl == enc_binop(0x01, RAX, RAX),
        decreases shift_amt - i,
    {
        let ghost before = buf@;
        buf.add_rr64(RAX, RAX);
        proof {
            lemma_grow(p1, repeat(dbl, i as nat), before, dbl, buf@);
        }
        i = i + 1;
    }
    buf.add_rr64(RDX, RAX);  // RDX = the address
    proof {
        assert(shift_amt == reg_index_shift(size, shift));
        assert(p1 =~= start + (ldg_bytes(RDX, rn) + ldg_bytes(RAX, rm) + (if index_ext == 2 {
            enc_zero_ext_r32(RAX)
        } else if index_ext == 1 {
            enc_ari_imm(4, RAX, 0xff)
        } else {
            Seq::empty()
        })));
        assert(buf@ =~= start + fp_reg_addr_bytes(rn, rm, size, shift, index_ext));
    }
}

/// A scalar FP register-offset load or store: the address, then the
/// transfer of `fp_scalar_xfer` for an implemented size.
pub open spec fn fp_ld_str_reg_bytes(
    vt: u8,
    rn: u8,
    rm: u8,
    size: u8,
    ld: bool,
    shift: bool,
    index_ext: u8,
) -> Seq<u8> {
    fp_reg_addr_bytes(rn, rm, size, shift, index_ext) + opt(
        xfer_size_ok(size),
        prog_bytes(xfer_prog(RDX, vslot_of(vt), size, ld)),
    )
}

fn translate_fp_ld_str_reg(
    buf: &mut CodeBuf,
    vt: u8,
    rn: u8,
    rm: u8,
    size: u8,
    ld: bool,
    shift: bool,
    index_ext: u8,
) -> (ok: bool)
    ensures
        ok == xfer_size_ok(size),
        final(buf)@ == old(buf)@ + fp_ld_str_reg_bytes(vt, rn, rm, size, ld, shift, index_ext),
{
    let ghost start = buf@;
    fp_reg_addr(buf, rn, rm, size, shift, index_ext);
    let ghost p1 = buf@;
    let ok = fp_scalar_xfer(buf, RDX, VECTOR_BASE + (vt as i32) * 16, size, ld).is_ok();
    proof {
        if !ok {
            lemma_grow_none(p1);
        }
        lemma_grow(
            start,
            fp_reg_addr_bytes(rn, rm, size, shift, index_ext),
            p1,
            opt(xfer_size_ok(size), prog_bytes(xfer_prog(RDX, vslot_of(vt), size, ld))),
            buf@,
        );
    }
    ok
}

/// The SSE opcode of FMUL, FADD, FSUB, FDIV (`op` 4..7).
pub open spec fn fp_arith_opcode(op: u8) -> u8 {
    if op == 4 {
        0x59
    } else if op == 5 {
        0x58
    } else if op == 6 {
        0x5C
    } else {
        0x5E
    }
}

/// A scalar FP operation the translator implements.
pub open spec fn fp_scalar_ok(op: u8, sz: bool, half: bool) -> bool {
    !(!sz && op <= 3 && !half) && (op <= 2 || (4 <= op && op <= 7))
}

/// FMOV/FABS/FNEG of a scalar FP register on its 64-bit pattern through
/// RAX, the sign mask in RCX.
pub open spec fn fp_sign_bytes(rd: u8, rn: u8, op: u8) -> Seq<u8> {
    if op == 0 {
        enc_mov_load64(RAX, RBX, vslot_of(rn)) + enc_mov_store64(RBX, vslot_of(rd), RAX)
    } else {
        enc_mov_load64(RAX, RBX, vslot_of(rn)) + enc_mov_ri64(
            RCX,
            if op == 1 { 0x7fff_ffff_ffff_ffffu64 } else { 0x8000_0000_0000_0000u64 },
        ) + enc_binop(if op == 1 { 0x21 } else { 0x31 }, RAX, RCX) + enc_mov_store64(RBX, vslot_of(rd), RAX)
    }
}

/// The arithmetic on halves: both promoted to single (F16C), the single
/// operation, the result demoted (round to nearest) and stored through EAX.
pub open spec fn fp_half_bytes(rd: u8, rn: u8, rm: u8, op: u8) -> Seq<u8> {
    crate::x86::enc_mov_load32(RAX, RBX, vslot_of(rn)) + crate::x86::enc_sse_rr(0x66, 0x6E, 0, RAX)
        + cvtph2ps_bytes(0) + crate::x86::enc_mov_load32(RAX, RBX, vslot_of(rm))
        + crate::x86::enc_sse_rr(0x66, 0x6E, 1, RAX) + cvtph2ps_bytes(1) + seq![
        0xF3u8,
        0x0Fu8,
        fp_arith_opcode(op),
        0xC1u8,
    ] + seq![0xC4u8, 0xE3u8, 0x79u8, 0x1Du8, 0xC0u8, 0x00u8] + crate::x86::enc_sse_rr(0x66, 0x7E, 0, RAX)
        + crate::x86::enc_mov_store32(RBX, vslot_of(rd), RAX)
}

/// The arithmetic on doubles in XMM0 and XMM1.
pub open spec fn fp_double_bytes(rd: u8, rn: u8, rm: u8, op: u8) -> Seq<u8> {
    crate::x86::enc_movq_load(0, RBX, vslot_of(rn)) + crate::x86::enc_movq_load(1, RBX, vslot_of(rm))
        + crate::x86::enc_sse_rr(0xF2, fp_arith_opcode(op), 0, 1) + crate::x86::enc_movq_store(
        RBX,
        vslot_of(rd),
        0,
    )
}

/// The arithmetic on singles, moved through EAX.
pub open spec fn fp_single_bytes(rd: u8, rn: u8, rm: u8, op: u8) -> Seq<u8> {
    crate::x86::enc_mov_load32(RAX, RBX, vslot_of(rn)) + crate::x86::enc_sse_rr(0x66, 0x6E, 0, RAX)
        + crate::x86::enc_mov_load32(RAX, RBX, vslot_of(rm)) + crate::x86::enc_sse_rr(0x66, 0x6E, 1, RAX)
        + seq![0xF3u8, 0x0Fu8, fp_arith_opcode(op), 0xC1u8] + crate::x86::enc_sse_rr(0x66, 0x7E, 0, RAX)
        + crate::x86::enc_mov_store32(RBX, vslot_of(rd), RAX)
}

/// Scalar FP: FMOV/FABS/FNEG on the 64-bit pattern, or the arithmetic on
/// halves, doubles or singles; nothing for a refused operation.
pub open spec fn fp_scalar_bytes(rd: u8, rn: u8, rm: u8, op: u8, sz: bool, half: bool) -> Seq<u8> {
    if !fp_scalar_ok(op, sz, half) {
        Seq::empty()
    } else if op <= 2 {
        fp_sign_bytes(rd, rn, op)
    } else if half {
        fp_half_bytes(rd, rn, rm, op)
    } else if sz {
        fp_double_bytes(rd, rn, rm, op)
    } else {
        fp_single_bytes(rd, rn, rm, op)
    }
}

/// The error text of a refused scalar FP operation.
pub open spec fn fp_scalar_error(op: u8, sz: bool, half: bool) -> Seq<char> {
    if !sz && op <= 3 && !half {
        "FpScalar single-precision (sz=0) op "@ + decimal(op as nat) + " not implemented"@
    } else {
        "FpScalar op "@ + decimal(op as nat) + " not implemented"@
    }
}

fn fp_sign(buf: &mut CodeBuf, rd: u8, rn: u8, op: u8)
    ensures
        final(buf)@ == old(buf)@ + fp_sign_bytes(rd, rn, op),
{
    let ghost start = buf@;
    let src = VECTOR_BASE + (rn as i32) * 16;
    let dst = VECTOR_BASE + (rd as i32) * 16;
    buf.mov_load64(RAX, RBX, src);
    if op == 0 {
        buf.mov_store64(RBX, dst, RAX);
    } else {
        // FABS clears the sign bit, FNEG flips it
        if op == 1 {
            buf.mov_ri64(RCX, 0x7fff_ffff_ffff_ffff);
            buf.and_rr64(RAX, RCX);
        } else {
            buf.mov_ri64(RCX, 0x8000_0000_0000_0000);
            buf.xor_rr64(RAX, RCX);
        }
        buf.mov_store64(RBX, dst, RAX);
    }
    proof {
        assert(buf@ =~= start + fp_sign_bytes(rd, rn, op));
    }
}

fn fp_arith_opcode_exec(op: u8) -> (c: u8)
    ensures
        c == fp_arith_opcode(op),
{
    if op == 4 {
        0x59  // mul
    } else if op == 5 {
        0x58  // add
    } else if op == 6 {
        0x5C  // sub
    } else {
        0x5E  // div
    }
}

#[verifier::spinoff_prover]
#[verifier::rlimit(40)]
fn fp_half(buf: &mut CodeBuf, rd: u8, rn: u8, rm: u8, op: u8)
    ensures
        final(buf)@ == old(buf)@ + fp_half_bytes(rd, rn, rm, op),
{
    let ghost start = buf@;
    let opcode = fp_arith_opcode_exec(op);
    buf.mov_load32(RAX, RBX, VECTOR_BASE + (rn as i32) * 16);
    buf.movd_xmm_r32(0, RAX);
    buf.b(0xC4);
    buf.b(0xE2);
    buf.b(0x79);
    buf.b(0x13);
    buf.b(0xC0);  // vcvtph2ps xmm0, xmm0
    buf.mov_load32(RAX, RBX, VECTOR_BASE + (rm as i32) * 16);
    buf.movd_xmm_r32(1, RAX);
    buf.b(0xC4);
    buf.b(0xE2);
    buf.b(0x79);
    buf.b(0x13);
    buf.b(0xC9);  // vcvtph2ps xmm1, xmm1
    buf.b(0xF3);
    buf.b(0x0F);
    buf.b(opcode);
    buf.b(0xC1);  // op ss xmm0, xmm1
    buf.b(0xC4);
    buf.b(0xE3);
    buf.b(0x79);
    buf.b(0x1D);
    buf.b(0xC0);
    buf.b(0x00);  // vcvtps2ph xmm0, xmm0, round to nearest
    buf.movd_r32_xmm(RAX, 0);
    buf.mov_store32(RBX, VECTOR_BASE + (rd as i32) * 16, RAX);
    proof {
        assert(buf@ =~= start + fp_half_bytes(rd, rn, rm, op));
    }
}

fn fp_double(buf: &mut CodeBuf, rd: u8, rn: u8, rm: u8, op: u8)
    ensures
        final(buf)@ == old(buf)@ + fp_double_bytes(rd, rn, rm, op),
{
    let ghost start = buf@;
    buf.movq_load(0, RBX, VECTOR_BASE + (rn as i32) * 16);
    buf.movq_load(1, RBX, VECTOR_BASE + (rm as i32) * 16);
    if op == 4 {
        buf.mulsd(0, 1);
    } else if op == 5 {
        buf.addsd(0, 1);
    } else if op == 6 {
        buf.subsd(0, 1);
    } else {
        buf.divsd(0, 1);
    }
    buf.movq_store(RBX, VECTOR_BASE + (rd as i32) * 16, 0);
    proof {
        assert(buf@ =~= start + fp_double_bytes(rd, rn, rm, op));
    }
}

fn fp_single(buf: &mut CodeBuf, rd: u8, rn: u8, rm: u8, op: u8)
    ensures
        final(buf)@ == old(buf)@ + fp_single_bytes(rd, rn, rm, op),
{
    let ghost start = buf@;
    let opcode = fp_arith_opcode_exec(op);
    // singles live in the low 4 bytes of each slot
    buf.mov_load32(RAX, RBX, VECTOR_BASE + (rn as i32) * 16);
    buf.movd_xmm_r32(0, RAX);
    buf.mov_load32(RAX, RBX, VECTOR_BASE + (rm as i32) * 16);
    buf.movd_xmm_r32(1, RAX);
    buf.b(0xF3);
    buf.b(0x0F);
    buf.b(opcode);
    buf.b(0xC1);  // op ss xmm0, xmm1
    buf.movd_r32_xmm(RAX, 0);
    buf.mov_store32(RBX, VECTOR_BASE + (rd as i32) * 16, RAX);
    proof {
        assert(buf@ =~= start + fp_single_bytes(rd, rn, rm, op));
    }
}

fn translate_fp_scalar(buf: &mut CodeBuf, rd: u8, rn: u8, rm: u8, op: u8, sz: bool, half: bool) -> (r: Result<
    (),
    String,
>)
    ensures
        r is Ok <==> fp_scalar_ok(op, sz, half),
        final(buf)@ == old(buf)@ + fp_scalar_bytes(rd, rn, rm, op, sz, half),
        r matches Err(e) ==> e@ == fp_scalar_error(op, sz, half),
{
    let ghost start = buf@;
    // FMOV/FABS/FNEG are implemented on the 64-bit pattern only
    if !sz && op <= 3 && !half {
        proof {
            lemma_grow_none(start);
        }
        return Err(decimal_msg("FpScalar single-precision (sz=0) op ", op, " not implemented"));
    }
    if op <= 2 {
        fp_sign(buf, rd, rn, op);
    } else if op >= 4 && op <= 7 {
        if half {
            fp_half(buf, rd, rn, rm, op);
        } else if sz {
            fp_double(buf, rd, rn, rm, op);
        } else {
            fp_single(buf, rd, rn, rm, op);
        }
    } else {
        proof {
            lemma_grow_none(start);
        }
        return Err(decimal_msg("FpScalar op ", op, " not implemented"));
    }
    Ok(())
}

/// BRK/UDF: the guest pc set to 0, the dispatcher's halt sentinel.
pub open spec fn halt_bytes() -> Seq<u8> {
    enc_mov_ri64(RAX, 0) + pc_store_bytes()
}

fn translate_halt(buf: &mut CodeBuf)
    ensures
        final(buf)@ == old(buf)@ + halt_bytes(),
{
    let ghost start = buf@;
    buf.mov_ri64(RAX, 0);
    buf.mov_store64(RBX, PC_OFF, RAX);  // state.pc = 0
    proof {
        assert(buf@ =~= start + halt_bytes());
    }
}

/// The transform of the CSEL else-operand in R10: none (CSEL), +1 (CSINC),
/// `not` (CSINV), `neg` (CSNEG); nothing for another `op`.
pub open spec fn csel_op_bytes(op: u8) -> Seq<u8> {
    if op == 1 {
        enc_ari_imm(0, R10, 1)
    } else if op == 2 {
        enc_grp3(2, R10)
    } else if op == 3 {
        enc_grp3(3, R10)
    } else {
        Seq::empty()
    }
}

/// The selection of CSEL: AL takes rn (RDI), NV the transformed rm (R10),
/// the others load NZCV into RFLAGS and `cmov` rn over R10 on the condition
/// (the jcc byte minus 0x40); nothing for a condition past 15.
pub open spec fn csel_select_bytes(rd: u8, cond: u8) -> Seq<u8> {
    if cond == 0xE {
        opt(rd != 31, stg_bytes(rd, RDI))
    } else if cond == 0xF {
        opt(rd != 31, stg_bytes(rd, R10))
    } else {
        match cond_cc(cond) {
            Some(cc) => prog_bytes(load_nzcv_to_eflags_prog()) + enc_cmov_rr64(
                (cc - 0x40) as u8,
                R10,
                RDI,
            ) + opt(rd != 31, stg_bytes(rd, R10)),
            None => Seq::empty(),
        }
    }
}

/// CSEL/CSINC/CSINV/CSNEG: rn (31 as XZR) into RDI, rm (31 as XZR) into R10
/// transformed; for an implemented `op`, both truncated for a W form, then
/// the selection.
pub open spec fn csel_bytes(rd: u8, rn: u8, rm: u8, cond: u8, op: u8, sf: bool) -> Seq<u8> {
    reg_or_zero_bytes(RDI, rn) + reg_or_zero_bytes(R10, rm) + csel_op_bytes(op) + opt(
        op <= 3,
        opt(!sf, enc_zero_ext_r32(RDI) + enc_zero_ext_r32(R10)) + csel_select_bytes(rd, cond),
    )
}

fn csel_select(buf: &mut CodeBuf, rd: u8, cond: u8) -> (ok: bool)
    ensures
        ok == (cond <= 0xF),
        final(buf)@ == old(buf)@ + csel_select_bytes(rd, cond),
{
    let ghost start = buf@;
    if cond == 0xE || cond == 0xF {
        // AL takes rn, NV the transformed rm
        let src = if cond == 0xE {
            RDI
        } else {
            R10
        };
        if rd != 31 {
            stg(buf, rd as u32, src);
        } else {
            proof {
                lemma_grow_none(start);
            }
        }
        return true;
    }
    match x86_cc_for_cond(cond) {
        Some(cc) => {
            load_nzcv_to_eflags(buf);
            let ghost p1 = buf@;
            buf.cmov_rr64(cc - 0x40, R10, RDI);  // R10 = cond ? rn : f(rm)
            let ghost p2 = buf@;
            if rd != 31 {
                stg(buf, rd as u32, R10);
            }
            proof {
                if rd == 31 {
                    lemma_grow_none(p2);
                }
                let a = prog_bytes(load_nzcv_to_eflags_prog());
                let b = enc_cmov_rr64((cc - 0x40) as u8, R10, RDI);
                lemma_grow(start, a, p1, b, p2);
                lemma_grow(start, a + b, p2, opt(rd != 31, stg_bytes(rd, R10)), buf@);
            }
            true
        },
        None => {
            proof {
                lemma_grow_none(start);
            }
            false
        },
    }
}

fn translate_csel(buf: &mut CodeBuf, rd: u8, rn: u8, rm: u8, cond: u8, op: u8, sf: bool) -> (r: Result<
    (),
    String,
>)
    ensures
        r is Ok <==> (op <= 3 && cond <= 0xF),
        final(buf)@ == old(buf)@ + csel_bytes(rd, rn, rm, cond, op, sf),
        r matches Err(e) ==> e@ == csel_error(op, cond),
{
    let ghost start = buf@;
    // register 31 is XZR here: `cset` and `cinc` read rn = rm = 31 as 0
    load_reg_or_zero(buf, RDI, rn);
    load_reg_or_zero(buf, R10, rm);
    let ghost p1 = buf@;
    if op == 1 {
        buf.add_ri64(R10, 1);  // csinc / cset / cinc
    } else if op == 2 {
        buf.not_r64(R10);  // csinv
    } else if op == 3 {
        buf.neg_r64(R10);  // csneg
    } else if op != 0 {
        proof {
            lemma_grow_none(p1);
            assert(buf@ =~= start + csel_bytes(rd, rn, rm, cond, op, sf));
        }
        return Err(decimal_msg("CSel op ", op, " not implemented"));
    }
    let ghost p2 = buf@;
    if !sf {
        // a W result is the low 32 bits, zero-extended (mov r32, r32 also
        // serves R10)
        buf.zero_ext_r32(RDI);
        buf.zero_ext_r32(R10);
    }
    let ghost p3 = buf@;
    let ok = csel_select(buf, rd, cond);
    proof {
        let a = reg_or_zero_bytes(RDI, rn) + reg_or_zero_bytes(R10, rm);
        let b = csel_op_bytes(op);
        let c = opt(!sf, enc_zero_ext_r32(RDI) + enc_zero_ext_r32(R10));
        let d = csel_select_bytes(rd, cond);
        if op == 0 {
            lemma_grow_none(p1);
        }
        if sf {
            lemma_grow_none(p2);
        }
        assert(p1 =~= start + a);
        assert(p2 == p1 + b);
        assert(p3 =~= p2 + c);
        lemma_grow(start, a, p1, b, p2);
        lemma_grow(start, a + b, p2, c, p3);
        lemma_grow(start, a + b + c, p3, d, buf@);
        assert(a + b + c + d =~= csel_bytes(rd, rn, rm, cond, op, sf));
    }
    if ok {
        Ok(())
    } else {
        let mut msg = String::from_str("CSel: bad cond 0x");
        append_hex(&mut msg, cond as u64);
        Err(msg)
    }
}

/// "CSel op {op} not implemented", or for a bad condition
/// "CSel: bad cond {cond:#x}".
pub open spec fn csel_error(op: u8, cond: u8) -> Seq<char> {
    if op > 3 {
        "CSel op "@ + decimal(op as nat) + " not implemented"@
    } else {
        "CSel: bad cond 0x"@ + hex(cond as nat)
    }
}

/// "LdStrImm sign-extend size {size} not implemented (pc {pc:#x})" for a
/// sign-extending load, else "LdStrImm size {size} not implemented".
pub open spec fn ldst_error(size: u8, pc: u64, sign: bool) -> Seq<char> {
    if sign {
        "LdStrImm sign-extend size "@ + decimal(size as nat) + " not implemented (pc 0x"@ + hex(
            pc as nat,
        ) + ")"@
    } else {
        "LdStrImm size "@ + decimal(size as nat) + " not implemented"@
    }
}

fn size_error_at(size: u8, pc: u64, sign: bool) -> (msg: String)
    ensures
        msg@ == ldst_error(size, pc, sign),
{
    if sign {
        let mut msg = String::from_str("LdStrImm sign-extend size ");
        append_decimal(&mut msg, size);
        msg.append(" not implemented (pc 0x");
        append_hex(&mut msg, pc);
        msg.append(")");
        msg
    } else {
        let mut msg = String::from_str("LdStrImm size ");
        append_decimal(&mut msg, size);
        msg.append(" not implemented");
        msg
    }
}

/// The hexadecimal digit `d` (0..16), lower case.
pub open spec fn hex_digit_char(d: nat) -> char {
    if d < 10 {
        digit_char(d)
    } else if d == 10 {
        'a'
    } else if d == 11 {
        'b'
    } else if d == 12 {
        'c'
    } else if d == 13 {
        'd'
    } else if d == 14 {
        'e'
    } else {
        'f'
    }
}

/// The lower-case hexadecimal notation of `n`, without leading zeros.
pub open spec fn hex(n: nat) -> Seq<char>
    decreases n,
{
    if n < 16 {
        seq![hex_digit_char(n)]
    } else {
        hex(n / 16).push(hex_digit_char(n % 16))
    }
}

/// The hexadecimal digit `d` as a one-character string.
fn hex_digit_str(d: u8) -> (s: &'static str)
    requires
        d < 16,
    ensures
        s@ == seq![hex_digit_char(d as nat)],
{
    if d < 10 {
        return digit_str(d);
    }
    match d {
        10 => {
            proof {
                reveal_strlit("a");
            }
            "a"
        },
        11 => {
            proof {
                reveal_strlit("b");
            }
            "b"
        },
        12 => {
            proof {
                reveal_strlit("c");
            }
            "c"
        },
        13 => {
            proof {
                reveal_strlit("d");
            }
            "d"
        },
        14 => {
            proof {
                reveal_strlit("e");
            }
            "e"
        },
        _ => {
            proof {
                reveal_strlit("f");
            }
            "f"
        },
    }
}

/// Append the decimal notation of `n`.
fn append_decimal(msg: &mut String, n: u8)
    ensures
        final(msg)@ == old(msg)@ + decimal(n as nat),
{
    let ghost head = msg@;
    if n >= 100 {
        msg.append(digit_str(n / 100));
    }
    if n >= 10 {
        msg.append(digit_str((n / 10) % 10));
    }
    msg.append(digit_str(n % 10));
    proof {
        reveal_with_fuel(decimal, 3);
        assert(msg@ =~= head + decimal(n as nat));
    }
}

/// Append the hexadecimal notation of `n`.
fn append_hex(msg: &mut String, n: u64)
    ensures
        final(msg)@ == old(msg)@ + hex(n as nat),
    decreases n,
{
    let ghost head = msg@;
    if n >= 16 {
        append_hex(msg, n / 16);
    }
    let ghost mid = msg@;
    msg.append(hex_digit_str((n % 16) as u8));
    proof {
        if n >= 16 {
            assert(hex(n as nat) == hex((n / 16) as nat).push(hex_digit_char((n % 16) as nat)));
        } else {
            assert(mid == head);
        }
        assert(msg@ =~= head + hex(n as nat));
    }
}

/// "LogicReg op {op} not implemented"
pub open spec fn logic_reg_error(op: u8) -> Seq<char> {
    "LogicReg op "@ + decimal(op as nat) + " not implemented"@
}

/// "LogicImm op {op} not implemented"
pub open spec fn logic_imm_error(op: u8) -> Seq<char> {
    "LogicImm op "@ + decimal(op as nat) + " not implemented"@
}

/// "B.cond unsupported cond {cond:x}"
pub open spec fn bcond_error(cond: u8) -> Seq<char> {
    "B.cond unsupported cond "@ + hex(cond as nat)
}

fn op_error(logic_imm: bool, op: u8) -> (msg: String)
    ensures
        msg@ == (if logic_imm {
            logic_imm_error(op)
        } else {
            logic_reg_error(op)
        }),
{
    let mut msg = if logic_imm {
        String::from_str("LogicImm op ")
    } else {
        String::from_str("LogicReg op ")
    };
    append_decimal(&mut msg, op);
    msg.append(" not implemented");
    msg
}

fn cond_error(cond: u8) -> (msg: String)
    ensures
        msg@ == bcond_error(cond),
{
    let mut msg = String::from_str("B.cond unsupported cond ");
    append_hex(&mut msg, cond as u64);
    msg
}

/// An instruction whose fields the decoder can produce and whose
/// translation stays within the integer ranges: a move-wide shift `hw` below
/// 4 (the shift `16 * hw` stays within 64 bits), bitfield fields as
/// `bitfield_wf` says, an MTE offset that can be negated, and a pair whose
/// second offset fits in 32 bits.
pub open spec fn inst_wf(inst: Inst) -> bool {
    match inst {
        Inst::MoveWide { hw, .. } => hw < 4,
        Inst::BitField { immr, imms, sf, insert, .. } => bitfield_wf(immr, imms, sf, insert),
        Inst::MteTag { load, rt, rn, wb, wb_off } => mte_wf(load, rt, rn, wb, wb_off),
        Inst::LdStPair { imm, writeback, preidx, q128, fp_d, fp_s, size_64, .. } => pair_wf(
            imm,
            writeback,
            preidx,
            q128,
            fp_d,
            fp_s,
            size_64,
        ),
        Inst::SimdMovEl { esize, .. } => crate::simd_ops::mov_el_wf(esize),
        Inst::SimdDupGp { esize, .. } => crate::simd_ops::dup_gp_wf(esize),
        Inst::SimdShl { esize, .. } => esize != 0,
        Inst::SimdFmovImm { esize, .. } => esize != 0,
        Inst::SimdRev { granule, .. } => granule != 0,
        Inst::SimDup { esize, .. } => esize != 0,
        Inst::Ld2 { esize, .. } => esize != 0,
        Inst::St2 { esize, .. } => esize != 0,
        Inst::Ld3N { esize, .. } => esize != 0,
        Inst::St3N { esize, .. } => esize != 0,
        Inst::Ld4N { esize, .. } => esize != 0,
        Inst::St4N { esize, .. } => esize != 0,
        Inst::SimdUz1 { esize, .. } => esize != 0,
        Inst::SimdUz2 { esize, .. } => esize != 0,
        Inst::SimdZip1 { esize, .. } => esize != 0,
        Inst::SimdZip2 { esize, .. } => esize != 0,
        Inst::SimdTrn1 { esize, .. } => esize != 0,
        Inst::SimdTrn2 { esize, .. } => esize != 0,
        Inst::SimdXtn { dst_esize, .. } => dst_esize != 0,
        Inst::SimdHadd { esize, .. } => esize != 0,
        Inst::SimdHsub { esize, .. } => esize != 0,
        Inst::SimdAbd { esize, .. } => esize != 0,
        Inst::SimdShr { esize, .. } => esize != 0,
        Inst::SimdAddp { esize, .. } => esize != 0,
        Inst::SimdXtl { esrc, .. } => crate::simd_lanes::widen_wf(esrc),
        Inst::SimdArithUnary { esize, op, .. } => crate::simd_lanes::arith_unary_wf(esize, op),
        Inst::SimdAddl { esrc, .. } => crate::simd_lanes::widen_wf(esrc),
        Inst::SimdAddw { esrc, .. } => crate::simd_lanes::widen_wf(esrc),
        Inst::SimdShrAcc { esize, .. } => esize != 0,
        Inst::SimdMaxMinP { esize, .. } => esize != 0,
        Inst::SimdSatAdd { esize, .. } => crate::simd_sat::sat_add_wf(esize),
        Inst::SimdSatShl { esize, .. } => esize != 0,
        Inst::SatNarrowShift { dst_esize, .. } => dst_esize != 0,
        Inst::SimdMullEl { res_esize, unsigned, .. } => crate::simd_lanes::mull_wf(res_esize, unsigned),
        Inst::SimdVShift { esize, .. } => crate::simd_sat::sat_add_wf(esize),
        Inst::Ld1 { esize, .. } => esize != 0,
        Inst::VecFpCompare { esize, .. } => esize != 0,
        Inst::VecFpCompareZero { esize, .. } => esize != 0,
        Inst::SimdFrint { mode, esize, .. } => esize != 0 && mode <= 4,
        Inst::SimdFreFrsqrte { esize, .. } => esize != 0,
        Inst::SimdFmulEl { esize, .. } => esize != 0,
        Inst::FcvVec { esize, .. } => esize != 0,
        Inst::VecIntToFp { esize, .. } => esize != 0,
        Inst::SimdFpUnary { esize, .. } => esize != 0,
        Inst::SimdHighNarrow { dst_esize, round, .. } => crate::simd_lanes::hn_wf(dst_esize, round),
        Inst::SaturatNarrow { dst_esize, .. } => crate::simd_lanes::sat_narrow_wf(dst_esize),
        Inst::SimdMull { res_esize, unsigned, .. } => crate::simd_lanes::mull_wf(res_esize, unsigned),
        Inst::SimdShrn { esrc, shift, round, .. } => crate::simd_lanes::shrn_wf(esrc, shift, round),
        Inst::SimdCompareZero { esize, .. } => esize != 0,
        _ => true,
    }
}

/// The instructions `translate` lowers; it refuses the register logical
/// operations other than AND/ORR/EOR/BIC/ORN/EON, the immediate ones past
/// ANDS, and a B.cond condition past 15.
pub open spec fn inst_supported(inst: Inst) -> bool {
    match inst {
        Inst::LogicReg { op, .. } => logic_reg_op_ok(op),
        Inst::LogicImm { op, .. } => op <= 3,
        Inst::BCond { cond, .. } => cond <= 0xF,
        Inst::LdStrImm { size, ld, sext, .. } => ldst_size_ok(size, ld, sext),
        Inst::LdStrImmWb { size, ld, sext, .. } => ldst_size_ok(size, ld, sext),
        Inst::AcqRel { size, .. } => size <= 3,
        Inst::LdExr { size, .. } => size <= 3,
        Inst::CSel { cond, op, .. } => op <= 3 && cond <= 0xF,
        Inst::CcMp { cond, .. } => cond_cc(cond) is Some,
        Inst::FcsSel { cond, .. } => cond <= 0xF,
        Inst::ClzCls { cls, .. } => !cls,
        Inst::LdStrReg { size, ld, sext, .. } => ldst_size_ok(size, ld, sext),
        Inst::FpLdStImmUnscaled { size, .. } => xfer_size_ok(size),
        Inst::FpLdStImmWb { size, .. } => xfer_size_ok(size),
        Inst::FpLdStImm { size, .. } => xfer_size_ok(size),
        Inst::FpLdStrReg { size, .. } => xfer_size_ok(size),
        Inst::FpScalar { op, sz, half, .. } => fp_scalar_ok(op, sz, half),
        Inst::FpUnary { op, sz, .. } => crate::fp_ops::fp_unary_ok(op, sz),
        Inst::FcvtHalf { op, .. } => op <= 3,
        Inst::FpCondCompare { cond, .. } => cond_cc(cond) is Some,
        Inst::Simd4s { op, .. } => op <= 1,
        Inst::Addv { size, q, .. } => crate::simd_ops::addv_lanes(size, q) is Some,
        Inst::Simd2dFp { op, .. } => op <= 8,
        Inst::SimdReduceMinMax { size, q, .. } => crate::simd_lanes::reduce_lanes(size, q) is Some,
        _ => true,
    }
}

/// The error text for a refused instruction.
pub open spec fn inst_error(pc: u64, inst: Inst) -> Seq<char> {
    match inst {
        Inst::LogicReg { op, .. } => logic_reg_error(op),
        Inst::LogicImm { op, .. } => logic_imm_error(op),
        Inst::BCond { cond, .. } => bcond_error(cond),
        Inst::LdStrImm { size, ld, sext, .. } => ldst_error(size, pc, ld && sext),
        Inst::LdStrImmWb { size, ld, sext, .. } => if ld && sext {
            "LdStrImmWb sign-extend size "@ + decimal(size as nat) + " not implemented"@
        } else {
            "LdStrImmWb size "@ + decimal(size as nat) + " not implemented"@
        },
        Inst::AcqRel { size, .. } => "AcqRel size "@ + decimal(size as nat) + " not implemented"@,
        Inst::LdExr { size, .. } => "LdExr size "@ + decimal(size as nat) + " not implemented"@,
        Inst::CSel { cond, op, .. } => csel_error(op, cond),
        Inst::CcMp { cond, .. } => "CcMp: bad cond 0x"@ + hex(cond as nat),
        Inst::FcsSel { cond, .. } => "FcSel: bad cond 0x"@ + hex(cond as nat),
        Inst::ClzCls { .. } => "CLS (count leading sign) not implemented"@,
        Inst::FpLdStImmUnscaled { size, .. } => xfer_size_error(size),
        Inst::FpLdStImmWb { size, .. } => xfer_size_error(size),
        Inst::FpLdStImm { size, .. } => "FpLdStImm size "@ + decimal(size as nat) + " not implemented"@,
        Inst::FpLdStrReg { size, .. } => "FpLdStrReg size "@ + decimal(size as nat) + " not implemented"@,
        Inst::FpScalar { op, sz, half, .. } => fp_scalar_error(op, sz, half),
        Inst::FpUnary { op, sz, .. } => crate::fp_ops::fp_unary_error(op, sz),
        Inst::FcvtHalf { op, .. } => "FcvtHalf: bad op "@ + decimal(op as nat),
        Inst::FpCondCompare { cond, .. } => "Fccmp: bad cond 0x"@ + hex(cond as nat),
        Inst::Simd4s { rd, rn, rm, op } => simd4s_error(pc, rd, rn, rm, op),
        Inst::Addv { size, q, .. } => "Addv unsupported size="@ + decimal(size as nat) + if q {
            " q=true"@
        } else {
            " q=false"@
        },
        Inst::SimdReduceMinMax { size, q, .. } => "SimdReduceMinMax unsupported size="@ + decimal(size as nat)
            + if q {
            " q=true"@
        } else {
            " q=false"@
        },
        Inst::Simd2dFp { op, .. } => "Simd2dFp op "@ + decimal(op as nat) + " not implemented"@,
        Inst::LdStrReg { size, ld, sext, .. } => if ld && sext {
            "LdStrReg sign-extend size "@ + decimal(size as nat) + " not implemented"@
        } else {
            "LdStrReg size "@ + decimal(size as nat) + " not implemented"@
        },
        _ => Seq::empty(),
    }
}

/// The x86-64 bytes `translate` appends for `inst` at guest address `pc`
/// (for a refused instruction, what it had emitted before refusing).
pub open spec fn inst_bytes(pc: u64, inst: Inst, host: HostLinks) -> Seq<u8> {
    match inst {
        Inst::MoveWide { rd, imm16, hw, opc, sf } => move_wide_bytes(rd, imm16, hw, opc, sf),
        Inst::AddSubImm { rd, rn, imm12, shift12, sub, s, sf } => add_sub_imm_bytes(
            rd,
            rn,
            imm12,
            shift12,
            sub,
            s,
            sf,
        ),
        Inst::AddSubReg { rd, rn, rm, sub, s, shift, sh_amt, sf, sp_operand } => add_sub_reg_bytes(
            rd,
            rn,
            rm,
            sub,
            s,
            shift,
            sh_amt,
            sf,
            sp_operand,
        ),
        Inst::AddSubExt { rd, rn, rm, sub, s, sf, opt, shift } => add_sub_ext_bytes(
            rd,
            rn,
            rm,
            sub,
            s,
            sf,
            opt,
            shift,
        ),
        Inst::AddCarry { rd, rn, rm, sf, s, sub } => add_carry_bytes(rd, rn, rm, sf, s, sub),
        Inst::LogicReg { rd, rn, rm, op, s, shift, sh_amt, sf } => logic_reg_bytes(
            rd,
            rn,
            rm,
            op,
            s,
            shift,
            sh_amt,
            sf,
        ),
        Inst::LogicImm { rd, rn, mask, op, sf } => logic_imm_bytes(rd, rn, mask, op, sf),
        Inst::LdStrImm { rt, rn, imm, size, ld, sext } => prog_bytes(
            ld_str_imm_prog(rt, rn, imm, size, ld, sext),
        ),
        Inst::LdStrImmWb { rt, rn, imm9, size, ld, sext, writeback, pre } => prog_bytes(
            ld_str_wb_prog(rt, rn, imm9, size, ld, sext, writeback, pre),
        ),
        Inst::AcqRel { size, ld, rt, rn } => prog_bytes(exclusive_prog(rt, rn, size, ld, None)),
        Inst::LdExr { size, ld, rs, rt, rn } => prog_bytes(
            exclusive_prog(rt, rn, size, ld, Some(rs)),
        ),
        Inst::MulHigh { rd, rn, rm, signed } => mul_high_bytes(rd, rn, rm, signed),
        Inst::MulDiv { div, signed, rd, rn, rm, ra, sf } => mul_div_bytes(
            div,
            signed,
            rd,
            rn,
            rm,
            ra,
            sf,
        ),
        Inst::MulLong { rd, rn, rm, ra, signed, sub } => mul_long_bytes(rd, rn, rm, ra, signed, sub),
        Inst::Div { rd, rn, rm, signed, is_x } => div_bytes(rd, rn, rm, signed, is_x),
        Inst::VarShiftVar { rd, rn, rm, op, sf } => var_shift_bytes(rd, rn, rm, op, sf),
        Inst::Ror { rd, rn, rot, sf } => ror_bytes(rd, rn, rot, sf),
        Inst::Extr { rd, rn, rm, lsb, sf } => extr_bytes(rd, rn, rm, lsb, sf),
        Inst::CSel { rd, rn, rm, cond, op, sf } => csel_bytes(rd, rn, rm, cond, op, sf),
        Inst::BitField { rd, rn, immr, imms, sf, arith, insert } => bitfield_bytes(
            rd,
            rn,
            immr,
            imms,
            sf,
            arith,
            insert,
        ),
        Inst::ClzCls { rd, rn, sf, cls } => clz_bytes(rd, rn, sf, cls),
        Inst::CacheMaintain { zva, rt } => cache_bytes(zva, rt),
        Inst::MteTag { load, rt, rn, wb, wb_off } => mte_bytes(load, rt, rn, wb, wb_off),
        Inst::LdStrReg { rt, rn, rm, size, ld, shift, sext, index_ext } => ld_str_reg_bytes(
            rt,
            rn,
            rm,
            size,
            ld,
            shift,
            sext,
            index_ext,
        ),
        Inst::LdStPair {
            rt,
            rt2,
            rn,
            imm,
            ld,
            writeback,
            preidx,
            size_64,
            q128,
            fp_d,
            fp_s,
            sext,
        } => ld_st_pair_bytes(
            rt,
            rt2,
            rn,
            imm,
            ld,
            writeback,
            preidx,
            size_64,
            q128,
            fp_d,
            fp_s,
            sext,
        ),
        Inst::Rev { rd, rn, op, sf } => rev_bytes(rd, rn, op, sf),
        Inst::VecLdStImm { .. } => vec_ldst_bytes(inst),
        Inst::VecLdStrReg { .. } => vec_ldst_bytes(inst),
        Inst::VecLdStImmUnscaled { .. } => vec_ldst_bytes(inst),
        Inst::VecLdStIndexed { .. } => vec_ldst_bytes(inst),
        Inst::FpLdStImmUnscaled { .. } => fp_ldst_bytes(inst),
        Inst::FpLdStImmWb { .. } => fp_ldst_bytes(inst),
        Inst::FpLdStImm { .. } => fp_ldst_bytes(inst),
        Inst::CcMp { rn, rm, imm, nzcv, cond, cmn, sf, is_reg } => cond_compare_bytes(
            rn,
            rm,
            imm,
            nzcv,
            cond,
            cmn,
            sf,
            is_reg,
        ),
        Inst::FmovGp { .. } => fp_move_bytes(inst),
        Inst::FmovImm { .. } => fp_move_bytes(inst),
        Inst::FmovImm16 { .. } => fp_move_bytes(inst),
        Inst::FmovFp { .. } => fp_move_bytes(inst),
        Inst::VecMovi { .. } => fp_move_bytes(inst),
        Inst::FpCompare { rn, rm, against_zero, sz, half } => fp_compare_bytes(rn, rm, against_zero, sz, half),
        Inst::FcsSel { rd, rn, rm, cond, sz } => fcsel_bytes(rd, rn, rm, cond, sz),
        Inst::LseAtomic { op, size64, rs, rn, rt } => atomic_bytes(op, size64, rs, rn, rt),
        Inst::FpLdStrReg { vt, rn, rm, size, ld, shift, index_ext } => fp_ld_str_reg_bytes(
            vt,
            rn,
            rm,
            size,
            ld,
            shift,
            index_ext,
        ),
        Inst::FpScalar { rd, rn, rm, op, sz, half } => fp_scalar_bytes(rd, rn, rm, op, sz, half),
        Inst::Brk { .. } => halt_bytes(),
        Inst::Udf { .. } => halt_bytes(),
        Inst::Hint => Seq::empty(),
        Inst::WaitBarrier => Seq::empty(),
        Inst::SmeNoop => Seq::empty(),
        Inst::AddVectorLen { rd, rn, imm_bytes } => add_vector_len_bytes(rd, rn, imm_bytes),
        Inst::SveCntd { rd } => sve_cntd_bytes(rd),
        Inst::Br { rn } => br_bytes(rn),
        Inst::Blr { rn } => blr_bytes(pc, rn),
        Inst::Ret => ret_inst_bytes(),
        Inst::B { imm, link } => b_bytes(pc, link),
        Inst::Adr { rd, imm } => const_to_reg_bytes(rd, adr_value(pc, imm)),
        Inst::Adrp { rd, imm } => const_to_reg_bytes(rd, adrp_value(pc, imm)),
        Inst::Cbz { rt, imm, nonzero } => cbz_bytes(rt, nonzero),
        Inst::Tbz { rt, bit, imm, nonzero } => tbz_bytes(rt, bit, nonzero),
        Inst::BCond { cond, imm } => bcond_bytes(cond),
        Inst::Svc { .. } => svc_bytes(pc, host),
        Inst::SysReg { sysreg, rt, read } => sysreg_bytes(sysreg, rt, read, host),
        Inst::FpUnary { rd, rn, op, sz } => crate::fp_ops::fp_unary_bytes(rd, rn, op, sz),
        Inst::Fabd { rd, rn, rm, sz } => crate::fp_ops::fabd_bytes(rd, rn, rm, sz),
        Inst::FMaxMin { rd, rn, rm, sz, op } => crate::fp_ops::fmaxmin_bytes(rd, rn, rm, sz, op),
        Inst::FmulScalar { rd, rn, rm, double, neg } => crate::fp_ops::fmul_scalar_bytes(
            rd,
            rn,
            rm,
            double,
            neg,
        ),
        Inst::Fcvt { to_d, rd, rn } => crate::fp_ops::fcvt_bytes(to_d, rd, rn),
        Inst::FcvtHalf { rd, rn, op } => crate::fp_ops::fcvt_half_bytes(rd, rn, op),
        Inst::Fma3 { rd, rn, rm, ra, sz, sub, neg } => crate::fp_ops::fma3_bytes(
            rd,
            rn,
            rm,
            ra,
            sz,
            sub,
            neg,
        ),
        Inst::FcvtTzReg { rd, rn, dbl, unsigned } => crate::fp_ops::fcvt_tz_reg_bytes(
            rd,
            rn,
            dbl,
            unsigned,
        ),
        Inst::Scvtf { rd, rn, to_double, sf, unsigned } => crate::fp_ops::scvtf_bytes(
            rd,
            rn,
            to_double,
            sf,
            unsigned,
        ),
        Inst::ScvtfFixed { rd, rn, to_double, sf, unsigned, fbits } => crate::fp_ops::scvtf_fixed_bytes(
            rd,
            rn,
            to_double,
            sf,
            unsigned,
            fbits,
        ),
        Inst::ScalarUcvtf { rd, rn, sng } => crate::fp_ops::scalar_cvtf_bytes(rd, rn, sng, true),
        Inst::ScalarScvtf { rd, rn, sng } => crate::fp_ops::scalar_cvtf_bytes(rd, rn, sng, false),
        Inst::FpPair { rd, rn, sz, min, .. } => crate::fp_ops::fp_pair_bytes(rd, rn, sz, min),
        Inst::FcvtToInt { rd, rn, mode, unsigned, src_sng, fbits, .. } =>
            crate::fp_ops::fcvt_to_int_bytes(rd, rn, mode, unsigned, src_sng, fbits),
        Inst::FpCondCompare { rn, rm, nzcv, cond, sz } => fp_cond_compare_bytes(rn, rm, nzcv, cond, sz),
        Inst::InsD1D0 { rd, rn } => crate::simd_ops::ins_d1d0_bytes(rd, rn),
        Inst::Simd4s { rd, rn, rm, op } => crate::simd_ops::simd4s_bytes(rd, rn, rm, op),
        Inst::SimdAddB { rd, rn, rm, sub, .. } => crate::simd_ops::simd_add_b_bytes(rd, rn, rm, sub),
        Inst::SimdAddH { rd, rn, rm, sub, .. } => crate::simd_ops::simd_add_h_bytes(rd, rn, rm, sub),
        Inst::SimdNot { rd, rn } => crate::simd_ops::simd_not_bytes(rd, rn),
        Inst::SimdDupD { rd, rn, index } => crate::simd_ops::simd_dup_d_bytes(rd, rn, index),
        Inst::SimdPairAddD { rd, rn, .. } => crate::simd_ops::simd_pair_add_d_bytes(rd, rn),
        Inst::SimdAddD { rd, rn, rm, sub } => crate::simd_ops::simd_add_d_bytes(rd, rn, rm, sub),
        Inst::SimdOrr16 { rd, rn, rm } => crate::simd_ops::simd_orr16_bytes(rd, rn, rm),
        Inst::SimdMul { rd, rn, rm, lanes } => crate::simd_ops::simd_mul_bytes(rd, rn, rm, lanes as nat),
        Inst::SimdMulH { rd, rn, rm, lanes } => crate::simd_ops::simd_mul_h_bytes(
            rd,
            rn,
            rm,
            lanes as nat,
        ),        Inst::SimdVLog { rd, rn, rm, op } => crate::simd_ops::simd_vlog_bytes(rd, rn, rm, op),
        Inst::SimdBit { rd, rn, rm, bif } => crate::simd_ops::simd_bit_bytes(rd, rn, rm, bif),
        Inst::SimdSel { rd, rn, rm, op } => crate::simd_ops::simd_sel_bytes(rd, rn, rm, op),
        Inst::Urhadd { rd, rn, rm, bytes } => crate::simd_ops::urhadd_bytes(rd, rn, rm, bytes as nat),
        Inst::SimdLaneS { rd, rn, esize, index } => crate::simd_ops::simd_lane_s_bytes(rd, rn, esize, index),
        Inst::InsGp { rd, rn, esize, index } => crate::simd_ops::ins_gp_bytes(rd, rn, esize, index),
        Inst::SimdMovEl { rd, rn, esize, index, signed, is_x } => crate::simd_ops::simd_mov_el_bytes(
            rd,
            rn,
            esize,
            index,
            signed,
            is_x,
        ),
        Inst::SimdDupGp { rd, rn, esize, q } => crate::simd_ops::simd_dup_gp_bytes(rd, rn, esize, q),        Inst::SimdCmhi { rd, rn, rm, lanes } => crate::simd_ops::cmh32_bytes(rd, rn, rm, 0x47, lanes as nat),
        Inst::SimdCmhs { rd, rn, rm, lanes } => crate::simd_ops::cmh32_bytes(rd, rn, rm, 0x43, lanes as nat),
        Inst::SimdCmhiD { rd, rn, rm } => crate::simd_ops::cmh64_bytes(rd, rn, rm, 0x47),
        Inst::SimdCmhsD { rd, rn, rm } => crate::simd_ops::cmh64_bytes(rd, rn, rm, 0x43),
        Inst::SimdCmhiH { rd, rn, rm, lanes } => crate::simd_ops::cmhi16_bytes(rd, rn, rm, lanes as nat),
        Inst::SimdCmhiB { rd, rn, rm, lanes, ge } => crate::simd_ops::cmh8_bytes(
            rd,
            rn,
            rm,
            if ge { 0x43 } else { 0x47 },
            lanes as nat,
        ),
        Inst::SimdPopcnt { rd, rn } => crate::simd_ops::simd_popcnt_bytes(rd, rn),
        Inst::SimdSum8 { rd, rn } => crate::simd_ops::simd_sum8_bytes(rd, rn),        Inst::SimdMla { rd, rn, rm, lanes, sub } => crate::simd_ops::mla_bytes(
            rd,
            rn,
            rm,
            false,
            0,
            sub,
            lanes as nat,
        ),
        Inst::SimdMlaEl { rd, rn, rm, index, lanes, sub } => crate::simd_ops::mla_bytes(
            rd,
            rn,
            rm,
            true,
            index,
            sub,
            lanes as nat,
        ),
        Inst::SimdShl { rd, rn, esize, shift } => crate::simd_ops::simd_shl_bytes(rd, rn, esize, shift),
        Inst::SimdFmovImm { rd, esize, value_bits, q } => crate::simd_ops::simd_fmov_imm_bytes(
            rd,
            esize,
            value_bits,
            q,
        ),
        Inst::SimdInsD { rd, rn, dst_idx, src_idx, esize } => crate::simd_ops::simd_ins_d_bytes(
            rd,
            rn,
            dst_idx,
            src_idx,
            esize,
        ),
        Inst::SimdCmTest { rd, rn, rm, lanes, esize } => crate::simd_ops::cmtst_bytes(
            rd,
            rn,
            rm,
            esize,
            lanes as nat,
        ),
        Inst::SimdRev { rd, rn, granule, q } => crate::simd_ops::simd_rev_bytes(rd, rn, granule, q),
        Inst::SimDup { rd, rn, esize, src_idx, q } => crate::simd_ops::simd_dup_el_bytes(
            rd,
            rn,
            esize,
            src_idx,
            q,
        ),        Inst::Ld1V { rd, rn, bytes } => crate::vec_mem::ld1v_bytes(rd, rn, bytes),
        Inst::St1V { rd, rn, bytes } => crate::vec_mem::st1v_bytes(rd, rn, bytes),
        Inst::Ld1L { rd, rn, esize, index } => crate::vec_mem::ld1l_bytes(rd, rn, esize, index),
        Inst::Ld1N { rd, rn, nreg, q, post } => crate::vec_mem::ld1n_bytes(rd, rn, nreg, q, post, true),
        Inst::St1N { rd, rn, nreg, q, post } => crate::vec_mem::ld1n_bytes(rd, rn, nreg, q, post, false),
        Inst::Ld2 { rd, rn, q, post, esize } => crate::vec_mem::struct_bytes(rd, rn, 2, q, post, esize, true),
        Inst::St2 { rd, rn, q, post, esize } => crate::vec_mem::struct_bytes(rd, rn, 2, q, post, esize, false),
        Inst::Ld3N { rd, rn, q, post, esize } => crate::vec_mem::struct_bytes(rd, rn, 3, q, post, esize, true),
        Inst::St3N { rd, rn, q, post, esize } => crate::vec_mem::struct_bytes(rd, rn, 3, q, post, esize, false),
        Inst::Ld4N { rd, rn, q, post, esize } => crate::vec_mem::struct_bytes(rd, rn, 4, q, post, esize, true),
        Inst::St4N { rd, rn, q, post, esize } => crate::vec_mem::struct_bytes(rd, rn, 4, q, post, esize, false),        Inst::SimdUz1 { rd, rn, rm, esize, q } => crate::simd_ops::permute_bytes(rd, rn, rm, 0, esize, q),
        Inst::SimdUz2 { rd, rn, rm, esize, q } => crate::simd_ops::permute_bytes(rd, rn, rm, 1, esize, q),
        Inst::SimdZip1 { rd, rn, rm, esize, q } => crate::simd_ops::permute_bytes(rd, rn, rm, 2, esize, q),
        Inst::SimdZip2 { rd, rn, rm, esize, q } => crate::simd_ops::permute_bytes(rd, rn, rm, 3, esize, q),
        Inst::SimdTrn1 { rd, rn, rm, esize, q } => crate::simd_ops::permute_bytes(rd, rn, rm, 4, esize, q),
        Inst::SimdTrn2 { rd, rn, rm, esize, q } => crate::simd_ops::permute_bytes(rd, rn, rm, 5, esize, q),
        Inst::Addv { rd, rn, size, q } => crate::simd_ops::addv_bytes(rd, rn, size, q),
        Inst::SminMax { rd, rn, rm, max, unsigned, esize, q } => crate::simd_ops::smin_max_bytes(
            rd,
            rn,
            rm,
            max,
            unsigned,
            esize,
            q,
        ),
        Inst::Tbl { rd, rn, rm, tbx, n_tables } => crate::simd_ops::tbl_bytes(rd, rn, rm, tbx, n_tables, 16),
        Inst::SimdXtn { rd, rn, dst_esize } => crate::simd_ops::simd_xtn_bytes(rd, rn, dst_esize),
        Inst::SimdCmEq { rd, rn, rm, lanes, esize } => crate::simd_lanes::cmeq_bytes(rd, rn, rm, esize, lanes as nat),
        Inst::SimdCmgt { rd, rn, rm, lanes, esize, ge } => crate::simd_lanes::cmgt_bytes(
            rd,
            rn,
            rm,
            esize,
            ge,
            lanes as nat,
        ),
        Inst::SimdHadd { rd, rn, rm, unsigned, esize, q } => crate::simd_lanes::hadd_bytes(
            rd,
            rn,
            rm,
            unsigned,
            esize,
            crate::simd_lanes::lane_count(esize, q),
        ),
        Inst::SimdHsub { rd, rn, rm, unsigned, esize, q } => crate::simd_lanes::hsub_bytes(
            rd,
            rn,
            rm,
            unsigned,
            esize,
            crate::simd_lanes::lane_count(esize, q),
        ),
        Inst::SimdAbd { rd, rn, rm, esize, q, .. } => crate::simd_lanes::abd_bytes(
            rd,
            rn,
            rm,
            esize,
            crate::simd_lanes::lane_count(esize, q),
        ),
        Inst::SimdLaneGp { rd, rn, esize, index, sign, .. } => crate::simd_lanes::lane_gp_bytes(
            rd,
            rn,
            esize,
            index,
            sign,
        ),
        Inst::SimdShr { rd, rn, esize, shift, unsigned } => crate::simd_lanes::shr_bytes(
            rd,
            rn,
            esize,
            shift,
            unsigned,
            crate::simd_lanes::lane_count(esize, true),
        ),
        Inst::Pmull1q { rd, rn, rm, hi } => crate::simd_lanes::pmull1q_bytes(rd, rn, rm, hi),
        Inst::SimdAddp { rd, rn, rm, esize, q } => crate::simd_lanes::addp_bytes(rd, rn, rm, esize, q),
        Inst::SimdXtl { rd, rn, sign, esrc, upper } => crate::simd_lanes::xtl_bytes(rd, rn, sign, esrc, upper),
        Inst::SimdSatAdd { rd, rn, rm, esize, sub, unsigned, q } => crate::simd_sat::sat_add_bytes(rd, rn, rm, esize, sub, unsigned, q),
        Inst::SimdSatShl { rd, rn, esize, shift, sat } => crate::simd_sat::sat_shl_bytes(rd, rn, esize, shift, sat),
        Inst::SatNarrowShift { rd, rn, src_esize, dst_esize, shift, src_signed, dst_signed, q } => crate::simd_sat::sat_nshift_bytes(rd, rn, src_esize, dst_esize, shift, src_signed, dst_signed, q),
        Inst::SimdMullEl { rd, rn, rm, index, res_esize, unsigned, q, acc, sub } => crate::simd_sat::mull_el_bytes(rd, rn, rm, index, res_esize, unsigned, q, acc, sub),
        Inst::SimdVShift { rd, rn, rm, esize, signed_, q, rounding } => crate::simd_sat::vshift_bytes(rd, rn, rm, esize, signed_, q, rounding),
        Inst::SimdTbl { rd, rn, rm, len2, tbx, q } => crate::simd_sat::tbl2_bytes(rd, rn, rm, len2, tbx, q),
        Inst::Ld1 { rd, rn, esize, q } => crate::simd_sat::ld1r_bytes(rd, rn, esize, q),
        Inst::FMaxV { rd, rn, min } => crate::vec_fp::fmaxv_bytes(rd, rn, min),
        Inst::Fmla { rd, rn, rm, el64, q, sub } => crate::vec_fp::fmla_bytes(rd, rn, rm, el64, q, sub),
        Inst::FmlaEl { rd, rn, vlm, idx, el64, q, sub } => crate::vec_fp::fmla_el_bytes(rd, rn, vlm, idx, el64, q, sub),
        Inst::VecFpCompare { rd, rn, rm, esize, op, q } => crate::vec_fp::vec_fp_rel_bytes(rd, rn, rm, esize, op, q),
        Inst::VecFpCompareZero { rd, rn, op, esize, q } => crate::vec_fp::vec_fp_zero_bytes(rd, rn, op, esize, q),
        Inst::SimdFpPair3 { rd, rn, rm, add, min, q, .. } => crate::vec_fp::fp_pair3_bytes(rd, rn, rm, add, min, q),
        Inst::Simd2dFp { rd, rn, rm, op } => crate::vec_fp::simd2d_bytes(rd, rn, rm, op),
        Inst::SimdFrint { rd, rn, mode, esize, q } => crate::vec_fp::frint_bytes(rd, rn, mode, esize, q),
        Inst::SimdFreFrsqrte { rd, rn, sqrt, esize, q } => crate::vec_fp::fre_bytes(rd, rn, sqrt, esize, q),
        Inst::SimdFmulEl { rd, rn, rm, esize, index, q } => crate::vec_fp::fmul_el_bytes(rd, rn, rm, esize, index, q),
        Inst::SimdFp16As { rd, rn, rm, op, q } => crate::vec_fp::fp16_as_bytes(rd, rn, rm, op, q),
        Inst::SimdFp16BEl { rd, rn, vlm, idx, op, q } => crate::vec_fp::fp16_el_bytes(rd, rn, vlm, idx, op, q),
        Inst::SimdFp16Compare { rd, rn, rm, op, q } => crate::vec_fp::fp16_reg_bytes(rd, rn, rm, op, q),
        Inst::SimdFp16CompareZero { rd, rn, op, q } => crate::vec_fp::fp16_zero_bytes(rd, rn, op, q),
        Inst::FcvVec { rd, rn, signed, esize, q } => crate::vec_fp::fcv_vec_bytes(rd, rn, signed, esize, q),
        Inst::VecIntToFp { rd, rn, esize, signed, q } => crate::vec_fp::int_to_fp_bytes(rd, rn, esize, signed, q),
        Inst::SimdFpToInt { rd, rn, esize, q, mode, .. } => crate::vec_fp::fp_to_int_bytes(rd, rn, esize, q, mode),
        Inst::Ucvtf2d { rd, rn } => crate::vec_fp::ucvtf2d_bytes(rd, rn),
        Inst::SimdI2Fp16 { rd, rn, unsigned, q } => crate::vec_fp::i2fp16_bytes(rd, rn, unsigned, q),
        Inst::VecFcvtl { rd, rn, upper, half } => crate::vec_fp::fcvtl_bytes(rd, rn, upper, half),
        Inst::VecFcvtn { rd, rn, upper } => crate::vec_fp::fcvtn_bytes(rd, rn, upper),
        Inst::VecFpArith { rd, rn, rm, op, q } => crate::simd_lanes::vec_fp_bytes(
            rd,
            rn,
            rm,
            op,
            if q { 4 } else { 2 },
        ),
        Inst::SimdFpUnary { rd, rn, op, esize, q } => crate::simd_lanes::fp_unary_vec_bytes(
            rd,
            rn,
            op,
            esize,
            crate::simd_lanes::lane_count(esize, q),
        ),
        Inst::SimdHighNarrow { rd, rn, rm, dst_esize, sub, round, q } => crate::simd_lanes::high_narrow_bytes(
            rd,
            rn,
            rm,
            dst_esize,
            sub,
            round,
            q,
        ),
        Inst::SaturatNarrow { rd, rn, dst_esize, src_signed, dst_signed, q } => crate::simd_lanes::sat_narrow_bytes(
            rd,
            rn,
            dst_esize,
            src_signed,
            dst_signed,
            q,
        ),
        Inst::SimdMull { rd, rn, rm, res_esize, unsigned, q, acc, sub } => crate::simd_lanes::mull_bytes(
            rd,
            rn,
            rm,
            res_esize,
            unsigned,
            q,
            acc,
            sub,
        ),
        Inst::WidenShl { rd, rn, dst_esize, nlanes, signed, upper } => crate::simd_lanes::widen_shl_bytes(
            rd,
            rn,
            dst_esize,
            nlanes,
            signed,
            upper,
        ),
        Inst::SimdAdalp { rd, rn, src_esize, n_pairs, signed, upper, acc } => crate::simd_lanes::adalp_bytes(
            rd,
            rn,
            src_esize,
            n_pairs,
            signed,
            upper,
            acc,
        ),
        Inst::SimdExt { rd, rn, rm, imm, q } => crate::simd_lanes::simd_ext_bytes(rd, rn, rm, imm, q),
        Inst::SimdReduceMinMax { rd, rn, size, signed, is_min, q } => crate::simd_lanes::reduce_bytes(
            rd,
            rn,
            size,
            signed,
            is_min,
            q,
        ),
        Inst::SimdShrn { rd, rn, esrc, shift, upper, round } => crate::simd_lanes::shrn_bytes(
            rd,
            rn,
            esrc,
            shift,
            upper,
            round,
        ),
        Inst::SimdMaxMinP { rd, rn, rm, min, unsigned, esize, q } => crate::simd_lanes::maxminp_bytes(
            rd,
            rn,
            rm,
            min,
            unsigned,
            esize,
            q,
        ),
        Inst::SimdShrAcc { rd, rn, esize, shift, unsigned } => crate::simd_lanes::shr_acc_bytes(
            rd,
            rn,
            esize,
            shift,
            unsigned,
            crate::simd_lanes::lane_count(esize, true),
        ),
        Inst::SimdCompareZero { rd, rn, esize, q, cond } => crate::simd_lanes::vs_zero_bytes(
            rd,
            rn,
            esize,
            cond,
            crate::simd_lanes::lane_count(esize, q),
        ),
        Inst::SimdArithUnary { rd, rn, esize, q, op } => crate::simd_lanes::arith_unary_bytes(
            rd,
            rn,
            esize,
            op,
            crate::simd_lanes::lane_count(esize, q),
        ),
        Inst::SimdAddl { rd, rn, rm, esrc, sign, sub, upper } => crate::simd_lanes::addl_bytes(
            rd,
            rn,
            rm,
            esrc,
            sign,
            sub,
            upper,
        ),
        Inst::SimdAddw { rd, rn, rm, sign, esrc, upper, sub } => crate::simd_lanes::addw_bytes(
            rd,
            rn,
            rm,
            esrc,
            sign,
            sub,
            upper,
        ),
        Inst::Sha { mode, rd, rn, rm } => sha_bytes(mode, rd, rn, rm, host),
    }
}

/// The branch fixups `translate` records for `inst` at guest address `pc`
/// when its code starts at buffer offset `at`.
pub open spec fn inst_fixups(pc: u64, inst: Inst, at: int) -> Seq<Fixup> {
    match inst {
        Inst::B { imm, link } => b_fixups(pc, imm, link, at),
        Inst::Cbz { rt, imm, nonzero } => cbz_fixups(pc, rt, imm, nonzero, at),
        Inst::Tbz { rt, bit, imm, nonzero } => tbz_fixups(pc, rt, bit, imm, nonzero, at),
        Inst::BCond { cond, imm } => bcond_fixups(pc, cond, imm, at),
        _ => Seq::empty(),
    }
}

/// What the translation of SVC, SHA and some system registers reaches in
/// the host runtime: the addresses of the supervisor-call dispatcher (called
/// as `extern "C" fn(*mut CpuState) -> u64`) and of the SHA helper, and the
/// offsets inside `CpuState` of the fields the run loop owns.
#[derive(Clone, Copy, Debug)]
pub struct HostLinks {
    /// Entry address of the supervisor-call dispatcher.
    pub svc_entry: u64,
    /// Entry address of the SHA helper, called as
    /// `extern "C" fn(*mut CpuState, u64)` with the packed operation.
    pub sha_entry: u64,
    /// Offset of `svc_next`, the guest address after the SVC.
    pub svc_next_off: i32,
    /// Offset of `redirect_request`, nonzero when a signal handler is due.
    pub redirect_off: i32,
    /// Offset of `tpidr`, the TPIDR_EL0 thread pointer.
    pub tpidr_off: i32,
    /// Offset of `cntvct`, the counter the run loop stamps between blocks.
    pub cntvct_off: i32,
}

/// `test r, r`
pub open spec fn test_bytes(r: u8) -> Seq<u8> {
    enc_binop(0x85, r, r)
}

/// The code of an SVC at `pc`: record `pc + 4` in `svc_next`, call the
/// dispatcher with the state in RDI and RSP aligned to 16 around the call;
/// then, when `redirect_request` is set, return to the dispatcher with x0
/// untouched (`jne` over 16 bytes onto the second `ret`); else store the
/// result in x0 and return when `state.pc` is 0 (the first `ret`), or go on
/// past both `ret`s.
pub open spec fn svc_bytes(pc: u64, host: HostLinks) -> Seq<u8> {
    svc_call_bytes(pc, host) + svc_return_bytes(host)
}

/// The call half of an SVC: `svc_next = pc + 4`, RDI = state, and the call
/// of the dispatcher with RSP moved down by 8 around it.
pub open spec fn svc_call_bytes(pc: u64, host: HostLinks) -> Seq<u8> {
    enc_mov_ri64(RAX, pc.wrapping_add(4)) + enc_mov_store64(RBX, host.svc_next_off, RAX)
        + enc_mov_rr64(RDI, RBX) + enc_mov_ri64(RAX, host.svc_entry) + enc_ari_imm(5, RSP, 8)
        + enc_call_r64(RAX) + enc_ari_imm(0, RSP, 8)
}

/// The return half of an SVC: the redirect test, the result into x0, the
/// exit test and the two `ret`s.
pub open spec fn svc_return_bytes(host: HostLinks) -> Seq<u8> {
    enc_mov_load64(RCX, RBX, host.redirect_off) + test_bytes(RCX) + seq![0x75u8, 16u8]
        + stg_bytes(0, RAX) + enc_mov_load64(RAX, RBX, PC_OFF) + test_bytes(RAX) + seq![
        0x75u8,
        2u8,
    ] + seq![0xC3u8] + seq![0xC3u8]
}

fn svc_call(buf: &mut CodeBuf, pc: u64, host: HostLinks)
    ensures
        final(buf)@ == old(buf)@ + svc_call_bytes(pc, host),
{
    let ghost start = buf@;
    buf.mov_ri64(RAX, pc.wrapping_add(4));
    buf.mov_store64(RBX, host.svc_next_off, RAX);  // state.svc_next = pc + 4
    buf.mov_rr64(RDI, RBX);  // arg0 = state
    buf.mov_ri64(RAX, host.svc_entry);
    buf.sub_ri64(RSP, 8);  // RSP = 0 mod 16 at the call
    buf.call_r64(RAX);  // the syscall result comes back in RAX
    buf.add_ri64(RSP, 8);
    proof {
        assert(buf@ =~= start + svc_call_bytes(pc, host));
    }
}

fn svc_return(buf: &mut CodeBuf, host: HostLinks)
    ensures
        final(buf)@ == old(buf)@ + svc_return_bytes(host),
{
    let ghost start = buf@;
    buf.mov_load64(RCX, RBX, host.redirect_off);
    buf.test_rr64(RCX, RCX);
    buf.jne_rel8(16);  // redirect pending: onto the second `ret`, x0 kept
    stg(buf, 0, RAX);  // the result into x0
    buf.mov_load64(RAX, RBX, PC_OFF);
    buf.test_rr64(RAX, RAX);
    buf.jne_rel8(2);  // pc != 0: past both `ret`s
    buf.ret();  // pc == 0: the thread has exited
    buf.ret();  // redirect pending
    proof {
        assert(buf@ =~= start + svc_return_bytes(host));
    }
}

fn translate_svc(buf: &mut CodeBuf, pc: u64, host: HostLinks)
    ensures
        final(buf)@ == old(buf)@ + svc_bytes(pc, host),
{
    let ghost start = buf@;
    svc_call(buf, pc, host);
    svc_return(buf, host);
    proof {
        assert(buf@ =~= start + svc_bytes(pc, host));
    }
}

/// The operand word of the SHA helper: `mode`, `rd`, `rn`, `rm` in bytes
/// 3, 2, 1, 0.
pub open spec fn sha_packed(mode: u8, rd: u8, rn: u8, rm: u8) -> u64 {
    ((mode as u64) << 24u64) | ((rd as u64) << 16u64) | ((rn as u64) << 8u64) | (rm as u64)
}

/// SHA*: a call of the host helper with the state in RDI and the packed
/// operation in RSI, RSP moved down by 8 around the call.
pub open spec fn sha_bytes(mode: u8, rd: u8, rn: u8, rm: u8, host: HostLinks) -> Seq<u8> {
    enc_mov_rr64(RDI, RBX) + enc_mov_ri64(RSI, sha_packed(mode, rd, rn, rm)) + enc_mov_ri64(
        RAX,
        host.sha_entry,
    ) + enc_ari_imm(5, RSP, 8) + enc_call_r64(RAX) + enc_ari_imm(0, RSP, 8)
}

fn translate_sha(buf: &mut CodeBuf, mode: u8, rd: u8, rn: u8, rm: u8, host: HostLinks)
    ensures
        final(buf)@ == old(buf)@ + sha_bytes(mode, rd, rn, rm, host),
{
    let ghost start = buf@;
    let packed: u64 = ((mode as u64) << 24) | ((rd as u64) << 16) | ((rn as u64) << 8) | (rm as u64);
    buf.mov_rr64(RDI, RBX);  // arg0 = state
    buf.mov_ri64(RSI, packed);  // arg1 = the operation
    buf.mov_ri64(RAX, host.sha_entry);
    buf.sub_ri64(RSP, 8);  // RSP = 0 mod 16 at the call
    buf.call_r64(RAX);
    buf.add_ri64(RSP, 8);
    proof {
        assert(buf@ =~= start + sha_bytes(mode, rd, rn, rm, host));
    }
}

/// `xN = v` for a read of a constant system register.
pub open spec fn mrs_const_bytes(rt: u8, v: u64) -> Seq<u8> {
    enc_mov_ri64(RAX, v) + stg_bytes(rt, RAX)
}

/// The code of an MRS (`read`) or MSR of `sysreg` through `rt`; nothing for
/// `rt == 31`, for a write of a read-only register and for an FPCR write.
pub open spec fn sysreg_bytes(sysreg: u8, rt: u8, read: bool, host: HostLinks) -> Seq<u8> {
    if rt == 31 {
        Seq::empty()
    } else if sysreg == 1 {
        // CNTFRQ_EL0: a fixed 100 MHz counter
        if read {
            mrs_const_bytes(rt, 100_000_000)
        } else {
            Seq::empty()
        }
    } else if sysreg == 3 {
        if read {
            enc_mov_load64(RAX, RBX, host.cntvct_off) + stg_bytes(rt, RAX)
        } else {
            Seq::empty()
        }
    } else if sysreg == 4 {
        if read {
            enc_mov_load32(RAX, RBX, NZCV_OFF) + stg_bytes(rt, RAX)
        } else {
            ldg_src_bytes(rt) + enc_ari_imm(4, RAX, 0x0f) + enc_shift_ri8(4, RAX, 28)
                + enc_mov_store32(RBX, NZCV_OFF, RAX)
        }
    } else if sysreg == 5 {
        // DCZID_EL0: 16-byte DC ZVA blocks
        if read {
            mrs_const_bytes(rt, 4)
        } else {
            Seq::empty()
        }
    } else if sysreg == 6 || sysreg == 7 || sysreg == 8 {
        if read {
            mrs_const_bytes(rt, 0)
        } else {
            Seq::empty()
        }
    } else if sysreg == 9 {
        Seq::empty()
    } else if sysreg == 10 {
        // CTR_EL0: 16-byte I and D cache lines
        if read {
            mrs_const_bytes(rt, 0x0002_0002)
        } else {
            Seq::empty()
        }
    } else if read {
        enc_mov_load64(RAX, RBX, host.tpidr_off) + stg_bytes(rt, RAX)
    } else {
        ldg_src_bytes(rt) + enc_mov_store64(RBX, host.tpidr_off, RAX)
    }
}

fn mrs_const(buf: &mut CodeBuf, rt: u8, v: u64)
    ensures
        final(buf)@ == old(buf)@ + mrs_const_bytes(rt, v),
{
    let ghost start = buf@;
    buf.mov_ri64(RAX, v);
    stg(buf, rt as u32, RAX);
    proof {
        assert(buf@ =~= start + mrs_const_bytes(rt, v));
    }
}

fn translate_sysreg(buf: &mut CodeBuf, sysreg: u8, rt: u8, read: bool, host: HostLinks)
    ensures
        final(buf)@ == old(buf)@ + sysreg_bytes(sysreg, rt, read, host),
{
    let ghost start = buf@;
    if rt == 31 {
        // XZR: reads are discarded, writes of zero are not modelled
    } else if sysreg == 1 {
        if read {
            mrs_const(buf, rt, 100_000_000);
        }
    } else if sysreg == 3 {
        if read {
            buf.mov_load64(RAX, RBX, host.cntvct_off);
            stg(buf, rt as u32, RAX);
        }
    } else if sysreg == 4 {
        if read {
            // packed N=31, Z=30, C=29, V=28
            buf.mov_load32(RAX, RBX, NZCV_OFF);
            stg(buf, rt as u32, RAX);
        } else {
            // the low four bits of xN up to bits 28..31
            ldg_src(buf, rt as u32);
            buf.and_ri64(RAX, 0x0f);
            buf.shl_ri8(RAX, 28);
            buf.mov_store32(RBX, NZCV_OFF, RAX);
        }
    } else if sysreg == 5 {
        if read {
            mrs_const(buf, rt, 4);
        }
    } else if sysreg == 6 || sysreg == 7 || sysreg == 8 {
        // features that are never enabled read as 0
        if read {
            mrs_const(buf, rt, 0);
        }
    } else if sysreg == 9 {
        // FP rounding is fixed per operation; an FPCR write is accepted
    } else if sysreg == 10 {
        if read {
            mrs_const(buf, rt, 0x0002_0002);
        }
    } else if read {
        buf.mov_load64(RAX, RBX, host.tpidr_off);
        stg(buf, rt as u32, RAX);
    } else {
        ldg_src(buf, rt as u32);
        buf.mov_store64(RBX, host.tpidr_off, RAX);
    }
    proof {
        assert(buf@ =~= start + sysreg_bytes(sysreg, rt, read, host));
    }
}

/// The text of an instruction form `translate` does not lower, as its
/// fields print: "translate: unhandled Simd4s { rd: 1, rn: 2, rm: 3, op: 4 }
/// at guest pc 0x1000".
pub open spec fn simd4s_error(pc: u64, rd: u8, rn: u8, rm: u8, op: u8) -> Seq<char> {
    "translate: unhandled Simd4s { rd: "@ + decimal(rd as nat) + ", rn: "@ + decimal(rn as nat)
        + ", rm: "@ + decimal(rm as nat) + ", op: "@ + decimal(op as nat) + " } at guest pc 0x"@ + hex(
        pc as nat,
    )
}

fn simd4s_error_msg(pc: u64, rd: u8, rn: u8, rm: u8, op: u8) -> (msg: String)
    ensures
        msg@ == simd4s_error(pc, rd, rn, rm, op),
{
    let mut msg = String::from_str("translate: unhandled Simd4s { rd: ");
    append_decimal(&mut msg, rd);
    msg.append(", rn: ");
    append_decimal(&mut msg, rn);
    msg.append(", rm: ");
    append_decimal(&mut msg, rm);
    msg.append(", op: ");
    append_decimal(&mut msg, op);
    msg.append(" } at guest pc 0x");
    append_hex(&mut msg, pc);
    msg
}

/// Translate the single instruction `inst` at guest address `pc`, appending
/// its x86-64 code to `buf`. A branch whose target is resolved once the
/// buffer is laid out appends a `Fixup` (the target pc and the offset of its
/// rel32 field) to `fixups`.
pub fn translate(
    buf: &mut CodeBuf,
    pc: u64,
    inst: Inst,
    fixups: &mut Vec<Fixup>,
    host: HostLinks,
) -> (r: Result<
    (),
    String,
>)
    requires
        inst_wf(inst),
    ensures
        r is Ok <==> inst_supported(inst),
        final(buf)@ == old(buf)@ + inst_bytes(pc, inst, host),
        final(fixups)@ == old(fixups)@ + inst_fixups(pc, inst, old(buf)@.len() as int),
        r matches Err(e) ==> e@ == inst_error(pc, inst),
{
    let ghost start = buf@;
    match inst {
        Inst::MoveWide { rd, imm16, hw, opc, sf } => {
            translate_move_wide(buf, rd, imm16, hw, opc, sf);
        },
        Inst::AddSubImm { rd, rn, imm12, shift12, sub, s, sf } => {
            translate_add_sub_imm(buf, rd, rn, imm12, shift12, sub, s, sf);
        },
        Inst::AddSubReg { rd, rn, rm, sub, s, shift, sh_amt, sf, sp_operand } => {
            translate_add_sub_reg(buf, rd, rn, rm, sub, s, shift, sh_amt, sf, sp_operand);
        },
        Inst::AddSubExt { rd, rn, rm, sub, s, sf, opt, shift } => {
            translate_add_sub_ext(buf, rd, rn, rm, sub, s, sf, opt, shift);
        },
        Inst::AddCarry { rd, rn, rm, sf, s, sub } => {
            translate_add_carry(buf, rd, rn, rm, sf, s, sub);
        },
        Inst::LogicReg { rd, rn, rm, op, s, shift, sh_amt, sf } => {
            if !translate_logic_reg(buf, rd, rn, rm, op, s, shift, sh_amt, sf) {
                return Err(op_error(false, op));
            }
        },
        Inst::LogicImm { rd, rn, mask, op, sf } => {
            if !translate_logic_imm(buf, rd, rn, mask, op, sf) {
                return Err(op_error(true, op));
            }
        },
        Inst::LdStrImm { rt, rn, imm, size, ld, sext } => {
            if !translate_ld_str_imm(buf, rt, rn, imm, size, ld, sext) {
                return Err(size_error_at(size, pc, ld && sext));
            }
        },
        Inst::LdStrImmWb { rt, rn, imm9, size, ld, sext, writeback, pre } => {
            if !translate_ld_str_wb(buf, rt, rn, imm9, size, ld, sext, writeback, pre) {
                return Err(
                    if ld && sext {
                        decimal_msg("LdStrImmWb sign-extend size ", size, " not implemented")
                    } else {
                        decimal_msg("LdStrImmWb size ", size, " not implemented")
                    },
                );
            }
        },
        Inst::AcqRel { size, ld, rt, rn } => {
            // ordering is moot in a single-threaded translation
            if !translate_exclusive(buf, rt, rn, size, ld, None) {
                return Err(decimal_msg("AcqRel size ", size, " not implemented"));
            }
        },
        Inst::LdExr { size, ld, rs, rt, rn } => {
            // a single-threaded exclusive block always succeeds
            if !translate_exclusive(buf, rt, rn, size, ld, Some(rs)) {
                return Err(decimal_msg("LdExr size ", size, " not implemented"));
            }
        },
        Inst::MulHigh { rd, rn, rm, signed } => {
            translate_mul_high(buf, rd, rn, rm, signed);
        },
        Inst::MulDiv { div, signed, rd, rn, rm, ra, sf } => {
            translate_mul_div(buf, div, signed, rd, rn, rm, ra, sf);
        },
        Inst::MulLong { rd, rn, rm, ra, signed, sub } => {
            translate_mul_long(buf, rd, rn, rm, ra, signed, sub);
        },
        Inst::Div { rd, rn, rm, signed, is_x } => {
            translate_div(buf, rd, rn, rm, signed, is_x);
        },
        Inst::VarShiftVar { rd, rn, rm, op, sf } => {
            translate_var_shift(buf, rd, rn, rm, op, sf);
        },
        Inst::Ror { rd, rn, rot, sf } => {
            translate_ror(buf, rd, rn, rot, sf);
        },
        Inst::Extr { rd, rn, rm, lsb, sf } => {
            translate_extr(buf, rd, rn, rm, lsb, sf);
        },
        Inst::CSel { rd, rn, rm, cond, op, sf } => {
            let r = translate_csel(buf, rd, rn, rm, cond, op, sf);
            if r.is_err() {
                return r;
            }
        },
        Inst::BitField { rd, rn, immr, imms, sf, arith, insert } => {
            translate_bitfield(buf, rd, rn, immr, imms, sf, arith, insert);
        },
        Inst::ClzCls { rd, rn, sf, cls } => {
            if !translate_clz(buf, rd, rn, sf, cls) {
                proof {
                    reveal_strlit("CLS (count leading sign) not implemented");
                }
                return Err(String::from_str("CLS (count leading sign) not implemented"));
            }
        },
        Inst::CacheMaintain { zva, rt } => {
            // only DC ZVA has an effect in the direct-mapped translation
            translate_cache(buf, zva, rt);
        },
        Inst::MteTag { load, rt, rn, wb, wb_off } => {
            // there is no tag state; only the tag load and the writeback act
            translate_mte(buf, load, rt, rn, wb, wb_off);
        },
        Inst::LdStrReg { rt, rn, rm, size, ld, shift, sext, index_ext } => {
            if !translate_ld_str_reg(buf, rt, rn, rm, size, ld, shift, sext, index_ext) {
                return Err(
                    if ld && sext {
                        decimal_msg("LdStrReg sign-extend size ", size, " not implemented")
                    } else {
                        decimal_msg("LdStrReg size ", size, " not implemented")
                    },
                );
            }
        },
        Inst::LdStPair {
            rt,
            rt2,
            rn,
            imm,
            ld,
            writeback,
            preidx,
            size_64,
            q128,
            fp_d,
            fp_s,
            sext,
        } => {
            translate_ld_st_pair(
                buf,
                rt,
                rt2,
                rn,
                imm,
                ld,
                writeback,
                preidx,
                size_64,
                q128,
                fp_d,
                fp_s,
                sext,
            );
        },
        Inst::Rev { rd, rn, op, sf } => {
            translate_rev(buf, rd, rn, op, sf);
        },
        Inst::VecLdStImm { .. } | Inst::VecLdStrReg { .. } | Inst::VecLdStImmUnscaled { .. }
        | Inst::VecLdStIndexed { .. } => {
            translate_vec_ldst(buf, inst);
        },
        Inst::FpLdStImmUnscaled { size, .. } | Inst::FpLdStImmWb { size, .. } => {
            if !translate_fp_ldst(buf, inst) {
                return Err(size_error(size));
            }
        },
        Inst::FpLdStImm { size, .. } => {
            if !translate_fp_ldst(buf, inst) {
                return Err(decimal_msg("FpLdStImm size ", size, " not implemented"));
            }
        },
        Inst::CcMp { rn, rm, imm, nzcv, cond, cmn, sf, is_reg } => {
            if !translate_cond_compare(buf, rn, rm, imm, nzcv, cond, cmn, sf, is_reg) {
                let mut msg = String::from_str("CcMp: bad cond 0x");
                append_hex(&mut msg, cond as u64);
                return Err(msg);
            }
        },
        Inst::FmovGp { .. } | Inst::FmovImm { .. } | Inst::FmovImm16 { .. } | Inst::FmovFp { .. }
        | Inst::VecMovi { .. } => {
            translate_fp_move(buf, inst);
        },
        Inst::FpCompare { rn, rm, against_zero, sz, half } => {
            translate_fp_compare(buf, rn, rm, against_zero, sz, half);
        },
        Inst::FcsSel { rd, rn, rm, cond, sz } => {
            if !translate_fcsel(buf, rd, rn, rm, cond, sz) {
                let mut msg = String::from_str("FcSel: bad cond 0x");
                append_hex(&mut msg, cond as u64);
                return Err(msg);
            }
        },
        Inst::LseAtomic { op, size64, rs, rn, rt } => {
            // single-threaded: old = [x[rn]]; [x[rn]] = f(old, rs); rt = old
            translate_atomic(buf, op, size64, rs, rn, rt);
        },
        Inst::FpLdStrReg { vt, rn, rm, size, ld, shift, index_ext } => {
            if !translate_fp_ld_str_reg(buf, vt, rn, rm, size, ld, shift, index_ext) {
                return Err(decimal_msg("FpLdStrReg size ", size, " not implemented"));
            }
        },
        Inst::FpScalar { rd, rn, rm, op, sz, half } => {
            let r = translate_fp_scalar(buf, rd, rn, rm, op, sz, half);
            if r.is_err() {
                return r;
            }
        },
        Inst::Brk { .. } => {
            // a guest breakpoint halts the run loop
            translate_halt(buf);
        },
        Inst::Udf { .. } => {
            // an undefined instruction halts the run loop
            translate_halt(buf);
        },
        Inst::Hint => {
            // NOP-class and PAC hints execute as no-ops
            proof {
                lemma_grow_none(start);
            }
        },
        Inst::WaitBarrier => {
            // barriers order nothing in a single-threaded translation
            proof {
                lemma_grow_none(start);
            }
        },
        Inst::SmeNoop => {
            // the ZA tile is never live with SME off
            proof {
                lemma_grow_none(start);
            }
        },
        Inst::AddVectorLen { rd, rn, imm_bytes } => {
            translate_add_vector_len(buf, rd, rn, imm_bytes);
        },
        Inst::SveCntd { rd } => {
            translate_sve_cntd(buf, rd);
        },
        Inst::Br { rn } => {
            translate_br(buf, rn);
        },
        Inst::Blr { rn } => {
            // x30 = pc + 4, then as BR
            store_link(buf, pc);
            let ghost mid = buf@;
            translate_br(buf, rn);
            proof {
                lemma_grow(start, link_bytes(pc), mid, br_bytes(rn), buf@);
            }
        },
        Inst::Ret => {
            translate_ret(buf);
        },
        Inst::B { imm, link } => {
            translate_b(buf, pc, imm, link, fixups);
        },
        Inst::Adr { rd, imm } => {
            const_to_reg(buf, rd, (pc as i64).wrapping_add(imm) as u64);
        },
        Inst::Adrp { rd, imm } => {
            let page: i64 = (pc as i64) & !0xfff_i64;
            const_to_reg(buf, rd, page.wrapping_add(imm) as u64);
        },
        Inst::Cbz { rt, imm, nonzero } => {
            translate_cbz(buf, pc, rt, imm, nonzero, fixups);
        },
        Inst::Tbz { rt, bit, imm, nonzero } => {
            translate_tbz(buf, pc, rt, bit, imm, nonzero, fixups);
        },
        Inst::BCond { cond, imm } => {
            if !translate_bcond(buf, pc, cond, imm, fixups) {
                return Err(cond_error(cond));
            }
        },
        Inst::Svc { .. } => {
            translate_svc(buf, pc, host);
        },
        Inst::SysReg { sysreg, rt, read } => {
            translate_sysreg(buf, sysreg, rt, read, host);
        },
        Inst::FpUnary { rd, rn, op, sz } => {
            let r = crate::fp_ops::translate_fp_unary(buf, rd, rn, op, sz);
            if r.is_err() {
                return r;
            }
        },
        Inst::Fabd { rd, rn, rm, sz } => {
            crate::fp_ops::translate_fabd(buf, rd, rn, rm, sz);
        },
        Inst::FMaxMin { rd, rn, rm, sz, op } => {
            crate::fp_ops::translate_fmaxmin(buf, rd, rn, rm, sz, op);
        },
        Inst::FmulScalar { rd, rn, rm, double, neg } => {
            crate::fp_ops::translate_fmul_scalar(buf, rd, rn, rm, double, neg);
        },
        Inst::Fcvt { to_d, rd, rn } => {
            crate::fp_ops::translate_fcvt(buf, to_d, rd, rn);
        },
        Inst::FcvtHalf { rd, rn, op } => {
            let r = crate::fp_ops::translate_fcvt_half(buf, rd, rn, op);
            if r.is_err() {
                return r;
            }
        },
        Inst::Fma3 { rd, rn, rm, ra, sz, sub, neg } => {
            crate::fp_ops::translate_fma3(buf, rd, rn, rm, ra, sz, sub, neg);
        },
        Inst::FcvtTzReg { rd, rn, dbl, unsigned } => {
            crate::fp_ops::translate_fcvt_tz_reg(buf, rd, rn, dbl, unsigned);
        },
        Inst::Scvtf { rd, rn, to_double, sf, unsigned } => {
            crate::fp_ops::translate_scvtf(buf, rd, rn, to_double, sf, unsigned);
        },
        Inst::ScvtfFixed { rd, rn, to_double, sf, unsigned, fbits } => {
            crate::fp_ops::translate_scvtf_fixed(buf, rd, rn, to_double, sf, unsigned, fbits);
        },
        Inst::ScalarUcvtf { rd, rn, sng } => {
            crate::fp_ops::translate_scalar_cvtf(buf, rd, rn, sng, true);
        },
        Inst::ScalarScvtf { rd, rn, sng } => {
            crate::fp_ops::translate_scalar_cvtf(buf, rd, rn, sng, false);
        },
        Inst::FpPair { rd, rn, sz, min, .. } => {
            // the NaN-ignoring forms share maxsd/minsd
            crate::fp_ops::translate_fp_pair(buf, rd, rn, sz, min);
        },
        Inst::FcvtToInt { rd, rn, mode, unsigned, src_sng, fbits, .. } => {
            crate::fp_ops::translate_fcvt_to_int(buf, rd, rn, mode, unsigned, src_sng, fbits);
        },
        Inst::FpCondCompare { rn, rm, nzcv, cond, sz } => {
            if !translate_fp_cond_compare(buf, rn, rm, nzcv, cond, sz) {
                let mut msg = String::from_str("Fccmp: bad cond 0x");
                append_hex(&mut msg, cond as u64);
                return Err(msg);
            }
        },
        Inst::InsD1D0 { rd, rn } => {
            crate::simd_ops::translate_ins_d1d0(buf, rd, rn);
        },
        Inst::Simd4s { rd, rn, rm, op } => {
            if !crate::simd_ops::translate_simd4s(buf, rd, rn, rm, op) {
                return Err(simd4s_error_msg(pc, rd, rn, rm, op));
            }
        },
        Inst::SimdAddB { rd, rn, rm, sub, .. } => {
            crate::simd_ops::translate_simd_add_b(buf, rd, rn, rm, sub);
        },
        Inst::SimdAddH { rd, rn, rm, sub, .. } => {
            // a 4H result still writes all 16 bytes
            crate::simd_ops::translate_simd_add_h(buf, rd, rn, rm, sub);
        },
        Inst::SimdNot { rd, rn } => {
            crate::simd_ops::translate_simd_not(buf, rd, rn);
        },
        Inst::SimdDupD { rd, rn, index } => {
            crate::simd_ops::translate_simd_dup_d(buf, rd, rn, index);
        },
        Inst::SimdPairAddD { rd, rn, .. } => {
            // signed and unsigned sums agree modulo 2^64
            crate::simd_ops::translate_simd_pair_add_d(buf, rd, rn);
        },
        Inst::SimdAddD { rd, rn, rm, sub } => {
            crate::simd_ops::translate_simd_add_d(buf, rd, rn, rm, sub);
        },
        Inst::SimdOrr16 { rd, rn, rm } => {
            crate::simd_ops::translate_simd_orr16(buf, rd, rn, rm);
        },
        Inst::SimdMul { rd, rn, rm, lanes } => {
            crate::simd_ops::translate_simd_mul(buf, rd, rn, rm, lanes);
        },
        Inst::SimdMulH { rd, rn, rm, lanes } => {
            crate::simd_ops::translate_simd_mul_h(buf, rd, rn, rm, lanes);
        },        Inst::SimdVLog { rd, rn, rm, op } => {
            crate::simd_ops::translate_simd_vlog(buf, rd, rn, rm, op);
        },
        Inst::SimdBit { rd, rn, rm, bif } => {
            crate::simd_ops::translate_simd_bit(buf, rd, rn, rm, bif);
        },
        Inst::SimdSel { rd, rn, rm, op } => {
            crate::simd_ops::translate_simd_sel(buf, rd, rn, rm, op);
        },
        Inst::Urhadd { rd, rn, rm, bytes } => {
            crate::simd_ops::translate_urhadd(buf, rd, rn, rm, bytes);
        },
        Inst::SimdLaneS { rd, rn, esize, index } => {
            crate::simd_ops::translate_simd_lane_s(buf, rd, rn, esize, index);
        },
        Inst::InsGp { rd, rn, esize, index } => {
            crate::simd_ops::translate_ins_gp(buf, rd, rn, esize, index);
        },
        Inst::SimdMovEl { rd, rn, esize, index, signed, is_x } => {
            crate::simd_ops::translate_simd_mov_el(buf, rd, rn, esize, index, signed, is_x);
        },
        Inst::SimdDupGp { rd, rn, esize, q } => {
            crate::simd_ops::translate_simd_dup_gp(buf, rd, rn, esize, q);
        },        Inst::SimdCmhi { rd, rn, rm, lanes } => {
            crate::simd_ops::translate_cmh32(buf, rd, rn, rm, 0x47, lanes);  // cmova
        },
        Inst::SimdCmhs { rd, rn, rm, lanes } => {
            crate::simd_ops::translate_cmh32(buf, rd, rn, rm, 0x43, lanes);  // cmovae
        },
        Inst::SimdCmhiD { rd, rn, rm } => {
            crate::simd_ops::translate_cmh64(buf, rd, rn, rm, 0x47);
        },
        Inst::SimdCmhsD { rd, rn, rm } => {
            // all ones where rn >= rm
            crate::simd_ops::translate_cmh64(buf, rd, rn, rm, 0x43);
        },
        Inst::SimdCmhiH { rd, rn, rm, lanes } => {
            crate::simd_ops::translate_cmhi16(buf, rd, rn, rm, lanes);
        },
        Inst::SimdCmhiB { rd, rn, rm, lanes, ge } => {
            crate::simd_ops::translate_cmh8(buf, rd, rn, rm, if ge { 0x43 } else { 0x47 }, lanes);
        },
        Inst::SimdPopcnt { rd, rn } => {
            crate::simd_ops::translate_simd_popcnt(buf, rd, rn);
        },
        Inst::SimdSum8 { rd, rn } => {
            crate::simd_ops::translate_simd_sum8(buf, rd, rn);
        },        Inst::SimdMla { rd, rn, rm, lanes, sub } => {
            crate::simd_ops::translate_mla(buf, rd, rn, rm, false, 0, sub, lanes);
        },
        Inst::SimdMlaEl { rd, rn, rm, index, lanes, sub } => {
            // the element of rm multiplies every lane
            crate::simd_ops::translate_mla(buf, rd, rn, rm, true, index, sub, lanes);
        },
        Inst::SimdShl { rd, rn, esize, shift } => {
            crate::simd_ops::translate_simd_shl(buf, rd, rn, esize, shift);
        },
        Inst::SimdFmovImm { rd, esize, value_bits, q } => {
            crate::simd_ops::translate_simd_fmov_imm(buf, rd, esize, value_bits, q);
        },
        Inst::SimdInsD { rd, rn, dst_idx, src_idx, esize } => {
            crate::simd_ops::translate_simd_ins_d(buf, rd, rn, dst_idx, src_idx, esize);
        },
        Inst::SimdCmTest { rd, rn, rm, lanes, esize } => {
            crate::simd_ops::translate_cmtst(buf, rd, rn, rm, lanes, esize);
        },
        Inst::SimdRev { rd, rn, granule, q } => {
            crate::simd_ops::translate_simd_rev(buf, rd, rn, granule, q);
        },
        Inst::SimDup { rd, rn, esize, src_idx, q } => {
            crate::simd_ops::translate_simd_dup_el(buf, rd, rn, esize, src_idx, q);
        },        Inst::Ld1V { rd, rn, bytes } => {
            crate::vec_mem::translate_ld1v(buf, rd, rn, bytes);
        },
        Inst::St1V { rd, rn, bytes } => {
            crate::vec_mem::translate_st1v(buf, rd, rn, bytes);
        },
        Inst::Ld1L { rd, rn, esize, index } => {
            crate::vec_mem::translate_ld1l(buf, rd, rn, esize, index);
        },
        Inst::Ld1N { rd, rn, nreg, q, post } => {
            crate::vec_mem::translate_ld1n(buf, rd, rn, nreg, q, post, true);
        },
        Inst::St1N { rd, rn, nreg, q, post } => {
            crate::vec_mem::translate_ld1n(buf, rd, rn, nreg, q, post, false);
        },
        Inst::Ld2 { rd, rn, q, post, esize } => {
            crate::vec_mem::translate_struct(buf, rd, rn, 2, q, post, esize, true);
        },
        Inst::St2 { rd, rn, q, post, esize } => {
            crate::vec_mem::translate_struct(buf, rd, rn, 2, q, post, esize, false);
        },
        Inst::Ld3N { rd, rn, q, post, esize } => {
            crate::vec_mem::translate_struct(buf, rd, rn, 3, q, post, esize, true);
        },
        Inst::St3N { rd, rn, q, post, esize } => {
            crate::vec_mem::translate_struct(buf, rd, rn, 3, q, post, esize, false);
        },
        Inst::Ld4N { rd, rn, q, post, esize } => {
            crate::vec_mem::translate_struct(buf, rd, rn, 4, q, post, esize, true);
        },
        Inst::St4N { rd, rn, q, post, esize } => {
            crate::vec_mem::translate_struct(buf, rd, rn, 4, q, post, esize, false);
        },        Inst::SimdUz1 { rd, rn, rm, esize, q } => {
            crate::simd_ops::translate_permute(buf, rd, rn, rm, 0, esize, q);
        },
        Inst::SimdUz2 { rd, rn, rm, esize, q } => {
            crate::simd_ops::translate_permute(buf, rd, rn, rm, 1, esize, q);
        },
        Inst::SimdZip1 { rd, rn, rm, esize, q } => {
            crate::simd_ops::translate_permute(buf, rd, rn, rm, 2, esize, q);
        },
        Inst::SimdZip2 { rd, rn, rm, esize, q } => {
            crate::simd_ops::translate_permute(buf, rd, rn, rm, 3, esize, q);
        },
        Inst::SimdTrn1 { rd, rn, rm, esize, q } => {
            crate::simd_ops::translate_permute(buf, rd, rn, rm, 4, esize, q);
        },
        Inst::SimdTrn2 { rd, rn, rm, esize, q } => {
            crate::simd_ops::translate_permute(buf, rd, rn, rm, 5, esize, q);
        },
        Inst::Addv { rd, rn, size, q } => {
            if !crate::simd_ops::translate_addv(buf, rd, rn, size, q) {
                let mut msg = String::from_str("Addv unsupported size=");
                append_decimal(&mut msg, size);
                if q {
                    msg.append(" q=true");
                } else {
                    msg.append(" q=false");
                }
                return Err(msg);
            }
        },
        Inst::SminMax { rd, rn, rm, max, unsigned, esize, q } => {
            crate::simd_ops::translate_smin_max(buf, rd, rn, rm, max, unsigned, esize, q);
        },
        Inst::Tbl { rd, rn, rm, tbx, n_tables } => {
            crate::simd_ops::translate_tbl(buf, rd, rn, rm, tbx, n_tables);
        },
        Inst::SimdXtn { rd, rn, dst_esize } => {
            crate::simd_ops::translate_simd_xtn(buf, rd, rn, dst_esize);
        },
        Inst::SimdCmEq { rd, rn, rm, lanes, esize } => {
            crate::simd_lanes::translate_cmeq(buf, rd, rn, rm, lanes, esize);
        },
        Inst::SimdCmgt { rd, rn, rm, lanes, esize, ge } => {
            crate::simd_lanes::translate_cmgt(buf, rd, rn, rm, lanes, esize, ge);
        },
        Inst::SimdHadd { rd, rn, rm, unsigned, esize, q } => {
            crate::simd_lanes::translate_hadd(buf, rd, rn, rm, unsigned, esize, q);
        },
        Inst::SimdHsub { rd, rn, rm, unsigned, esize, q } => {
            crate::simd_lanes::translate_hsub(buf, rd, rn, rm, unsigned, esize, q);
        },
        Inst::SimdAbd { rd, rn, rm, esize, q, .. } => {
            crate::simd_lanes::translate_abd(buf, rd, rn, rm, esize, q);
        },
        Inst::SimdLaneGp { rd, rn, esize, index, sign, .. } => {
            crate::simd_lanes::translate_lane_gp(buf, rd, rn, esize, index, sign);
        },
        Inst::SimdShr { rd, rn, esize, shift, unsigned } => {
            crate::simd_lanes::translate_shr(buf, rd, rn, esize, shift, unsigned);
        },
        Inst::Pmull1q { rd, rn, rm, hi } => {
            crate::simd_lanes::translate_pmull1q(buf, rd, rn, rm, hi);
        },
        Inst::SimdAddp { rd, rn, rm, esize, q } => {
            crate::simd_lanes::translate_addp(buf, rd, rn, rm, esize, q);
        },
        Inst::SimdXtl { rd, rn, sign, esrc, upper } => {
            crate::simd_lanes::translate_xtl(buf, rd, rn, sign, esrc, upper);
        },
        Inst::SimdSatAdd { rd, rn, rm, esize, sub, unsigned, q } => { crate::simd_sat::translate_sat_add(buf, rd, rn, rm, esize, sub, unsigned, q); },
        Inst::SimdSatShl { rd, rn, esize, shift, sat } => { crate::simd_sat::translate_sat_shl(buf, rd, rn, esize, shift, sat); },
        Inst::SatNarrowShift { rd, rn, src_esize, dst_esize, shift, src_signed, dst_signed, q } => { crate::simd_sat::translate_sat_nshift(buf, rd, rn, src_esize, dst_esize, shift, src_signed, dst_signed, q); },
        Inst::SimdMullEl { rd, rn, rm, index, res_esize, unsigned, q, acc, sub } => { crate::simd_sat::translate_mull_el(buf, rd, rn, rm, index, res_esize, unsigned, q, acc, sub); },
        Inst::SimdVShift { rd, rn, rm, esize, signed_, q, rounding } => { crate::simd_sat::translate_vshift(buf, rd, rn, rm, esize, signed_, q, rounding); },
        Inst::SimdTbl { rd, rn, rm, len2, tbx, q } => { crate::simd_sat::translate_tbl2(buf, rd, rn, rm, len2, tbx, q); },
        Inst::Ld1 { rd, rn, esize, q } => { crate::simd_sat::translate_ld1r(buf, rd, rn, esize, q); },
        Inst::FMaxV { rd, rn, min } => { crate::vec_fp::translate_fmaxv(buf, rd, rn, min); },
        Inst::Fmla { rd, rn, rm, el64, q, sub } => { crate::vec_fp::translate_fmla(buf, rd, rn, rm, el64, q, sub); },
        Inst::FmlaEl { rd, rn, vlm, idx, el64, q, sub } => { crate::vec_fp::translate_fmla_el(buf, rd, rn, vlm, idx, el64, q, sub); },
        Inst::VecFpCompare { rd, rn, rm, esize, op, q } => { crate::vec_fp::translate_vec_fp_rel(buf, rd, rn, rm, esize, op, q); },
        Inst::VecFpCompareZero { rd, rn, op, esize, q } => { crate::vec_fp::translate_vec_fp_zero(buf, rd, rn, op, esize, q); },
        Inst::SimdFpPair3 { rd, rn, rm, add, min, q, .. } => { crate::vec_fp::translate_fp_pair3(buf, rd, rn, rm, add, min, q); },
        Inst::Simd2dFp { rd, rn, rm, op } => {
            if !crate::vec_fp::translate_simd2d(buf, rd, rn, rm, op) {
                return Err(decimal_msg("Simd2dFp op ", op, " not implemented"));
            }
        },
        Inst::SimdFrint { rd, rn, mode, esize, q } => { crate::vec_fp::translate_frint(buf, rd, rn, mode, esize, q); },
        Inst::SimdFreFrsqrte { rd, rn, sqrt, esize, q } => { crate::vec_fp::translate_fre(buf, rd, rn, sqrt, esize, q); },
        Inst::SimdFmulEl { rd, rn, rm, esize, index, q } => { crate::vec_fp::translate_fmul_el(buf, rd, rn, rm, esize, index, q); },
        Inst::SimdFp16As { rd, rn, rm, op, q } => { crate::vec_fp::translate_fp16_as(buf, rd, rn, rm, op, q); },
        Inst::SimdFp16BEl { rd, rn, vlm, idx, op, q } => { crate::vec_fp::translate_fp16_el(buf, rd, rn, vlm, idx, op, q); },
        Inst::SimdFp16Compare { rd, rn, rm, op, q } => { crate::vec_fp::translate_fp16_reg(buf, rd, rn, rm, op, q); },
        Inst::SimdFp16CompareZero { rd, rn, op, q } => { crate::vec_fp::translate_fp16_zero(buf, rd, rn, op, q); },
        Inst::FcvVec { rd, rn, signed, esize, q } => { crate::vec_fp::translate_fcv_vec(buf, rd, rn, signed, esize, q); },
        Inst::VecIntToFp { rd, rn, esize, signed, q } => { crate::vec_fp::translate_int_to_fp(buf, rd, rn, esize, signed, q); },
        Inst::SimdFpToInt { rd, rn, esize, q, mode, .. } => { crate::vec_fp::translate_fp_to_int(buf, rd, rn, esize, q, mode); },
        Inst::Ucvtf2d { rd, rn } => { crate::vec_fp::translate_ucvtf2d(buf, rd, rn); },
        Inst::SimdI2Fp16 { rd, rn, unsigned, q } => { crate::vec_fp::translate_i2fp16(buf, rd, rn, unsigned, q); },
        Inst::VecFcvtl { rd, rn, upper, half } => { crate::vec_fp::translate_fcvtl(buf, rd, rn, upper, half); },
        Inst::VecFcvtn { rd, rn, upper } => { crate::vec_fp::translate_fcvtn(buf, rd, rn, upper); },
        Inst::VecFpArith { rd, rn, rm, op, q } => {
            crate::simd_lanes::translate_vec_fp_arith(buf, rd, rn, rm, op, q);
        },
        Inst::SimdFpUnary { rd, rn, op, esize, q } => {
            crate::simd_lanes::translate_fp_unary_vec(buf, rd, rn, op, esize, q);
        },
        Inst::SimdHighNarrow { rd, rn, rm, dst_esize, sub, round, q } => {
            crate::simd_lanes::translate_high_narrow(buf, rd, rn, rm, dst_esize, sub, round, q);
        },
        Inst::SaturatNarrow { rd, rn, dst_esize, src_signed, dst_signed, q } => {
            crate::simd_lanes::translate_sat_narrow(buf, rd, rn, dst_esize, src_signed, dst_signed, q);
        },
        Inst::SimdMull { rd, rn, rm, res_esize, unsigned, q, acc, sub } => {
            crate::simd_lanes::translate_mull(buf, rd, rn, rm, res_esize, unsigned, q, acc, sub);
        },
        Inst::WidenShl { rd, rn, dst_esize, nlanes, signed, upper } => {
            crate::simd_lanes::translate_widen_shl(buf, rd, rn, dst_esize, nlanes, signed, upper);
        },
        Inst::SimdAdalp { rd, rn, src_esize, n_pairs, signed, upper, acc } => {
            crate::simd_lanes::translate_adalp(buf, rd, rn, src_esize, n_pairs, signed, upper, acc);
        },
        Inst::SimdExt { rd, rn, rm, imm, q } => {
            crate::simd_lanes::translate_simd_ext(buf, rd, rn, rm, imm, q);
        },
        Inst::SimdReduceMinMax { rd, rn, size, signed, is_min, q } => {
            if !crate::simd_lanes::translate_reduce(buf, rd, rn, size, signed, is_min, q) {
                let mut msg = String::from_str("SimdReduceMinMax unsupported size=");
                append_decimal(&mut msg, size);
                if q {
                    msg.append(" q=true");
                } else {
                    msg.append(" q=false");
                }
                return Err(msg);
            }
        },
        Inst::SimdShrn { rd, rn, esrc, shift, upper, round } => {
            crate::simd_lanes::translate_shrn(buf, rd, rn, esrc, shift, upper, round);
        },
        Inst::SimdMaxMinP { rd, rn, rm, min, unsigned, esize, q } => {
            crate::simd_lanes::translate_maxminp(buf, rd, rn, rm, min, unsigned, esize, q);
        },
        Inst::SimdShrAcc { rd, rn, esize, shift, unsigned } => {
            crate::simd_lanes::translate_shr_acc(buf, rd, rn, esize, shift, unsigned);
        },
        Inst::SimdCompareZero { rd, rn, esize, q, cond } => {
            crate::simd_lanes::translate_vs_zero(buf, rd, rn, esize, q, cond);
        },
        Inst::SimdArithUnary { rd, rn, esize, q, op } => {
            crate::simd_lanes::translate_arith_unary(buf, rd, rn, esize, q, op);
        },
        Inst::SimdAddl { rd, rn, rm, esrc, sign, sub, upper } => {
            crate::simd_lanes::translate_addl(buf, rd, rn, rm, esrc, sign, sub, upper);
        },
        Inst::SimdAddw { rd, rn, rm, sign, esrc, upper, sub } => {
            crate::simd_lanes::translate_addw(buf, rd, rn, rm, esrc, sign, sub, upper);
        },
        Inst::Sha { mode, rd, rn, rm } => {
            translate_sha(buf, mode, rd, rn, rm, host);
        },
    }
    proof {
        assert(fixups@ =~= old(fixups)@ + inst_fixups(pc, inst, start.len() as int));
    }
    Ok(())
}

} // verus!
