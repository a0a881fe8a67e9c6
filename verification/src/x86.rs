//! Minimal x86-64 machine code emitter.
//!
//! The emitter holds only the encodings the translator uses. Register
//! operands are `u8` values in `0..16` naming RAX..R15 (or XMM0..XMM15);
//! memory operands are a base register plus a signed displacement (no index).
//! Every emitting method appends exactly the bytes of one `enc_*` spec
//! function below and leaves the bytes already in the buffer unchanged.
use vstd::prelude::*;

verus! {

/// Growable buffer holding emitted machine code bytes.
#[derive(Clone)]
pub struct CodeBuf {
    pub bytes: Vec<u8>,
}

impl View for CodeBuf {
    type V = Seq<u8>;

    open spec fn view(&self) -> Seq<u8> {
        self.bytes@
    }
}

impl Default for CodeBuf {
    fn default() -> (r: Self)
        ensures
            r@ == Seq::<u8>::empty(),
    {
        CodeBuf { bytes: Vec::new() }
    }
}

impl CodeBuf {
    /// An empty buffer.
    pub fn new() -> (r: Self)
        ensures
            r@ == Seq::<u8>::empty(),
    {
        CodeBuf { bytes: Vec::with_capacity(256) }
    }

    /// Number of bytes emitted so far.
    pub fn len(&self) -> (n: usize)
        ensures
            n == self@.len(),
    {
        self.bytes.len()
    }

    /// The emitted bytes.
    pub fn as_slice(&self) -> (s: &[u8])
        ensures
            s@ == self@,
    {
        self.bytes.as_slice()
    }

    /// Emit one byte.
    pub fn b(&mut self, v: u8)
        ensures
            final(self)@ == old(self)@.push(v),
    {
        self.bytes.push(v);
    }
}

// ---- register numbers -------------------------------------------------------
pub const RAX: u8 = 0;
pub const RCX: u8 = 1;
pub const RDX: u8 = 2;
pub const RBX: u8 = 3;
pub const RSP: u8 = 4;
pub const RBP: u8 = 5;
pub const RSI: u8 = 6;
pub const RDI: u8 = 7;
pub const R8: u8 = 8;
pub const R9: u8 = 9;
pub const R10: u8 = 10;
pub const R11: u8 = 11;
pub const R12: u8 = 12;
pub const R13: u8 = 13;
pub const R14: u8 = 14;
pub const R15: u8 = 15;

// ---- encoding of the operand bytes -------------------------------------------

/// REX prefix `0100WRXB`: `w` selects a 64-bit operand, and bit 3 of `r`,
/// `x`, `b` extends ModRM.reg, SIB.index and ModRM.rm/SIB.base.
pub open spec fn rex_byte(w: bool, r: u8, x: u8, b: u8) -> u8 {
    0x40u8 | (if w { 8u8 } else { 0u8 }) | (if r & 8 != 0 { 4u8 } else { 0u8 }) | (if x & 8
        != 0 {
        2u8
    } else {
        0u8
    }) | (if b & 8 != 0 {
        1u8
    } else {
        0u8
    })
}

/// ModRM byte: `mod` in bits 7..6, `reg` in bits 5..3, `rm` in bits 2..0.
pub open spec fn modrm_byte(md: u8, reg: u8, rm: u8) -> u8 {
    ((md & 3) << 6) | ((reg & 7) << 3) | (rm & 7)
}

/// The ModRM `mod` field that a displacement selects: 0 for none, 1 for a
/// signed 8-bit displacement, 2 for a 32-bit one.
pub open spec fn disp_mode(disp: i32) -> u8 {
    if disp == 0 {
        0
    } else if -128 <= disp < 128 {
        1
    } else {
        2
    }
}

/// Little-endian bytes of a 32-bit value.
pub open spec fn le32(v: u32) -> Seq<u8> {
    seq![v as u8, (v >> 8u32) as u8, (v >> 16u32) as u8, (v >> 24u32) as u8]
}

/// Little-endian bytes of a 64-bit value.
pub open spec fn le64(v: u64) -> Seq<u8> {
    seq![
        v as u8,
        (v >> 8u64) as u8,
        (v >> 16u64) as u8,
        (v >> 24u64) as u8,
        (v >> 32u64) as u8,
        (v >> 40u64) as u8,
        (v >> 48u64) as u8,
        (v >> 56u64) as u8,
    ]
}

/// A base register that `[base + disp]` can encode without a SIB byte: RSP
/// and R12 would need one, and this emitter does not produce it.
pub open spec fn mem_base_ok(base: u8) -> bool {
    base != RSP && base != R12
}

/// ModRM (+ displacement) for the memory operand `[base + disp]` with `reg`
/// in the ModRM.reg field. A zero displacement off RBP/R13 is encoded with a
/// 32-bit zero displacement, as `mod = 0` there would mean RIP-relative.
pub open spec fn enc_mem(reg: u8, base: u8, disp: i32) -> Seq<u8> {
    if disp_mode(disp) == 0 && base & 7 != 5 {
        seq![modrm_byte(0, reg, base & 7)]
    } else if disp_mode(disp) == 1 {
        seq![modrm_byte(1, reg, base & 7), disp as u8]
    } else {
        seq![modrm_byte(2, reg, base & 7)] + le32(disp as u32)
    }
}

/// The bytes `s` if `cond` holds, else nothing.
pub open spec fn opt(cond: bool, s: Seq<u8>) -> Seq<u8> {
    if cond {
        s
    } else {
        Seq::empty()
    }
}

/// REX.W, or the full REX prefix when a register operand is R8..R15.
pub open spec fn rex_w(r: u8, b: u8) -> u8 {
    if r >= 8 || b >= 8 {
        rex_byte(true, r, 0, b)
    } else {
        0x48
    }
}

/// A REX prefix without W, emitted only when a register operand is R8..R15.
pub open spec fn rex_opt(r: u8, b: u8) -> Seq<u8> {
    opt(r >= 8 || b >= 8, seq![rex_byte(false, r, 0, b)])
}

/// The REX prefix of an instruction whose `byte_reg` operand is a byte
/// register: as `rex_opt(byte_reg, b)`, and a bare REX (0x40) for the byte
/// registers SPL, BPL, SIL and DIL (4..8), which without one would mean AH,
/// CH, DH and BH.
pub open spec fn rex_byte_reg(byte_reg: u8, b: u8) -> Seq<u8> {
    if byte_reg >= 8 || b >= 8 {
        seq![rex_byte(false, byte_reg, 0, b)]
    } else if byte_reg >= 4 {
        seq![0x40u8]
    } else {
        Seq::empty()
    }
}

/// `0x48`, or `0x49` (REX.W + REX.B) when `r` is R8..R15.
pub open spec fn rex_wb(r: u8) -> u8 {
    if r >= 8 {
        0x49
    } else {
        0x48
    }
}

// ---- encodings of the emitted instructions ------------------------------------

/// `mov r64, imm64` (REX.W B8+r io)
pub open spec fn enc_mov_ri64(rd: u8, imm: u64) -> Seq<u8> {
    seq![rex_wb(rd), (0xB8u8 + (rd & 7)) as u8] + le64(imm)
}

/// `mov r/m64, imm32` sign-extended (REX.W C7 /0 id)
pub open spec fn enc_mov_ri32(rd: u8, imm: u32) -> Seq<u8> {
    seq![rex_wb(rd), 0xC7u8, modrm_byte(3, 0, rd & 7)] + le32(imm)
}

/// `mov r32, imm32` (B8+r id), REX.B for R8..R15
pub open spec fn enc_mov_eax_imm32(rd: u8, imm: u32) -> Seq<u8> {
    opt(rd >= 8, seq![0x41u8]) + seq![(0xB8u8 + (rd & 7)) as u8] + le32(imm)
}

/// `mov r/m64, r64` (REX.W 89 /r), nothing when `rd == rs`.
pub open spec fn enc_mov_rr64(rd: u8, rs: u8) -> Seq<u8> {
    if rd == rs {
        Seq::empty()
    } else {
        seq![rex_w(rs, rd), 0x89u8, modrm_byte(3, rs & 7, rd & 7)]
    }
}

/// `mov r64, [base + disp]` (REX.W 8B /r)
pub open spec fn enc_mov_load64(rd: u8, base: u8, disp: i32) -> Seq<u8> {
    seq![rex_w(rd, base), 0x8Bu8] + enc_mem(rd, base, disp)
}

/// `mov r32, [base + disp]` (8B /r), zero-extending into r64
pub open spec fn enc_mov_load32(rd: u8, base: u8, disp: i32) -> Seq<u8> {
    rex_opt(rd, base) + seq![0x8Bu8] + enc_mem(rd, base, disp)
}

/// `movzx r32, word [base + disp]` (0F B7 /r)
pub open spec fn enc_movzx_word_mem(rd: u8, base: u8, disp: i32) -> Seq<u8> {
    rex_opt(rd, base) + seq![0x0Fu8, 0xB7u8] + enc_mem(rd, base, disp)
}

/// `movzx r32, byte [base + disp]` (0F B6 /r)
pub open spec fn enc_movzx_byte_mem(rd: u8, base: u8, disp: i32) -> Seq<u8> {
    rex_opt(rd, base) + seq![0x0Fu8, 0xB6u8] + enc_mem(rd, base, disp)
}

/// `mov [base + disp], r64` (REX.W 89 /r)
pub open spec fn enc_mov_store64(base: u8, disp: i32, src: u8) -> Seq<u8> {
    seq![rex_w(src, base), 0x89u8] + enc_mem(src, base, disp)
}

/// `mov [base + disp], r32` (89 /r)
pub open spec fn enc_mov_store32(base: u8, disp: i32, src: u8) -> Seq<u8> {
    rex_opt(src, base) + seq![0x89u8] + enc_mem(src, base, disp)
}

/// `movsx r64, byte [base + disp]` (REX.W 0F BE /r)
pub open spec fn enc_movsx_byte_mem(rd: u8, base: u8, disp: i32) -> Seq<u8> {
    seq![rex_w(rd, base), 0x0Fu8, 0xBEu8] + enc_mem(rd, base, disp)
}

/// `movsx r64, word [base + disp]` (REX.W 0F BF /r)
pub open spec fn enc_movsx_word_mem(rd: u8, base: u8, disp: i32) -> Seq<u8> {
    seq![rex_w(rd, base), 0x0Fu8, 0xBFu8] + enc_mem(rd, base, disp)
}

/// `movzx r32, byte [base + idx*1 + disp32]` (0F B6 /r with a SIB byte)
pub open spec fn enc_movzx_byte_mem_idxd(rd: u8, base: u8, idx: u8, disp: i32) -> Seq<u8> {
    opt(rd >= 8 || base >= 8 || idx >= 8, seq![rex_byte(false, rd, idx, base)]) + seq![
        0x0Fu8,
        0xB6u8,
        modrm_byte(2, rd & 7, 4),
        ((idx & 7) << 3) | (base & 7),
    ] + le32(disp as u32)
}

/// `mov byte [base + disp], r8` (88 /r)
pub open spec fn enc_mov_store8(base: u8, disp: i32, src: u8) -> Seq<u8> {
    rex_byte_reg(src, base) + seq![0x88u8] + enc_mem(src, base, disp)
}

/// `mov word [base + disp], r16` (66 89 /r)
pub open spec fn enc_mov_store16(base: u8, disp: i32, src: u8) -> Seq<u8> {
    seq![0x66u8] + rex_opt(src, base) + seq![0x89u8] + enc_mem(src, base, disp)
}

/// `movdqu xmm, [base + disp]` (F3 0F 6F /r)
pub open spec fn enc_movdqu_load(xmm: u8, base: u8, disp: i32) -> Seq<u8> {
    seq![0xF3u8] + rex_opt(xmm, base) + seq![0x0Fu8, 0x6Fu8] + enc_mem(xmm, base, disp)
}

/// `movdqu [base + disp], xmm` (F3 0F 7F /r)
pub open spec fn enc_movdqu_store(base: u8, disp: i32, xmm: u8) -> Seq<u8> {
    seq![0xF3u8] + rex_opt(xmm, base) + seq![0x0Fu8, 0x7Fu8] + enc_mem(xmm, base, disp)
}

/// `movdqa dst, src` (66 0F 6F /r, reg = dst, rm = src), nothing when
/// `dst == src`.
pub open spec fn enc_movdqa_xmm(dst: u8, src: u8) -> Seq<u8> {
    if dst == src {
        Seq::empty()
    } else {
        enc_sse_rr(0x66, 0x6F, dst, src)
    }
}

/// A register-register SSE instruction `prefix [REX] 0F op /r` with
/// ModRM.reg = `dst` and ModRM.rm = `src`.
pub open spec fn enc_sse_rr(prefix: u8, op: u8, dst: u8, src: u8) -> Seq<u8> {
    seq![prefix] + rex_opt(dst, src) + seq![0x0Fu8, op, modrm_byte(3, dst & 7, src & 7)]
}

/// `pclmulqdq dst, src, imm8` (66 0F 3A 44 /r ib)
pub open spec fn enc_pclmulq(dst: u8, src: u8, imm: u8) -> Seq<u8> {
    seq![0x66u8] + rex_opt(dst, src) + seq![
        0x0Fu8,
        0x3Au8,
        0x44u8,
        modrm_byte(3, dst & 7, src & 7),
        imm,
    ]
}

/// `pxor x, x` then `pcmpeqd x, x`: all 128 bits set.
pub open spec fn enc_movdqu_ones(xmm: u8) -> Seq<u8> {
    enc_sse_rr(0x66, 0xEF, xmm, xmm) + enc_sse_rr(0x66, 0x76, xmm, xmm)
}

/// `movq xmm, [base + disp]` (F3 48 0F 7E /r)
pub open spec fn enc_movq_load(xmm: u8, base: u8, disp: i32) -> Seq<u8> {
    seq![0xF3u8, 0x48u8] + rex_opt(xmm, base) + seq![0x0Fu8, 0x7Eu8] + enc_mem(xmm, base, disp)
}

/// `movq [base + disp], xmm` (66 48 0F D6 /r)
pub open spec fn enc_movq_store(base: u8, disp: i32, xmm: u8) -> Seq<u8> {
    seq![0x66u8, 0x48u8] + rex_opt(xmm, base) + seq![0x0Fu8, 0xD6u8] + enc_mem(xmm, base, disp)
}

/// `roundsd dst, src, mode` (66 0F 3A 0B /r ib), mode taken mod 16
pub open spec fn enc_roundsd(dst: u8, src: u8, mode: u8) -> Seq<u8> {
    seq![0x66u8] + rex_opt(dst, src) + seq![
        0x0Fu8,
        0x3Au8,
        0x0Bu8,
        modrm_byte(3, dst & 7, src & 7),
        mode & 0x0f,
    ]
}

/// A group-3 register instruction `REX.W F7 /ext` on `rm`, with REX.B for
/// R8..R15.
pub open spec fn enc_grp3(ext: u8, rm: u8) -> Seq<u8> {
    seq![rex_wb(rm), 0xF7u8, modrm_byte(3, ext, rm & 7)]
}

/// An SSE register-register instruction that always carries a REX prefix:
/// `prefix REX 0F op /r` with reg = `a`, rm = `b`.
pub open spec fn enc_sse_rex_rr(prefix: u8, op: u8, a: u8, b: u8) -> Seq<u8> {
    seq![prefix, rex_byte(false, a, 0, b), 0x0Fu8, op, modrm_byte(3, a & 7, b & 7)]
}

/// `cvt(t)sd2si r64, xmm` (F2 48 [REX] 0F op /r)
pub open spec fn enc_cvtsd2si(op: u8, rd: u8, xmm: u8) -> Seq<u8> {
    seq![0xF2u8, 0x48u8] + opt(rd >= 8 || xmm >= 8, seq![rex_byte(true, rd, 0, xmm)]) + seq![
        0x0Fu8,
        op,
        modrm_byte(3, rd & 7, xmm & 7),
    ]
}

/// `cvtsi2s{d,s} xmm, r{32,64}` (prefix [48] [REX] 0F 2A /r)
pub open spec fn enc_cvtsi2(prefix: u8, xmm: u8, src64: bool, rs: u8) -> Seq<u8> {
    seq![prefix] + opt(src64, seq![0x48u8]) + opt(
        xmm >= 8 || rs >= 8,
        seq![rex_byte(src64, xmm, 0, rs)],
    ) + seq![0x0Fu8, 0x2Au8, modrm_byte(3, xmm & 7, rs & 7)]
}

/// `lea r64, [base + disp]` (REX.W 8D /r)
pub open spec fn enc_lea64(rd: u8, base: u8, disp: i32) -> Seq<u8> {
    seq![rex_w(rd, base), 0x8Du8] + enc_mem(rd, base, disp)
}

/// A 64-bit register-register ALU instruction `REX.W op /r` with
/// ModRM.reg = `rs` and ModRM.rm = `rd`.
pub open spec fn enc_binop(op: u8, rd: u8, rs: u8) -> Seq<u8> {
    seq![rex_w(rs, rd), op, modrm_byte(3, rs & 7, rd & 7)]
}

/// The 32-bit form of `enc_binop` (no REX.W).
pub open spec fn enc_binop32(op: u8, rd: u8, rs: u8) -> Seq<u8> {
    rex_opt(rs, rd) + seq![op, modrm_byte(3, rs & 7, rd & 7)]
}

/// `op r/m64, imm32` sign-extended (REX.W 81 /op id)
pub open spec fn enc_ari_imm(op: u8, rd: u8, imm: u32) -> Seq<u8> {
    seq![rex_wb(rd), 0x81u8, modrm_byte(3, op, rd & 7)] + le32(imm)
}

/// `op r/m32, imm32` (81 /op id), REX.B for R8..R15
pub open spec fn enc_ari_imm32(op: u8, rd: u8, imm: u32) -> Seq<u8> {
    opt(rd >= 8, seq![0x41u8]) + seq![0x81u8, modrm_byte(3, op, rd & 7)] + le32(imm)
}

/// `mov r32, r32` on `rd` itself: clears bits 63..32.
pub open spec fn enc_zero_ext_r32(rd: u8) -> Seq<u8> {
    opt(rd >= 8, seq![0x45u8]) + seq![0x89u8, modrm_byte(3, rd & 7, rd & 7)]
}

/// `shift r/m64, cl` (REX.W D3 /op)
pub open spec fn enc_shift_cl(op: u8, rd: u8) -> Seq<u8> {
    seq![rex_wb(rd), 0xD3u8, modrm_byte(3, op, rd & 7)]
}

/// `shift r/m64, imm8` (REX.W C1 /op ib)
pub open spec fn enc_shift_ri8(op: u8, rd: u8, imm: u8) -> Seq<u8> {
    seq![rex_wb(rd), 0xC1u8, modrm_byte(3, op, rd & 7), imm]
}

/// `shift r/m32, imm8` (C1 /op ib), REX.B when bit 3 of `rd` is set
pub open spec fn enc_shift32_ri8(op: u8, rd: u8, imm: u8) -> Seq<u8> {
    opt(rd & 8 != 0, seq![0x41u8]) + seq![0xC1u8, modrm_byte(3, op, rd & 7), imm]
}

/// `rol r/m16, imm8` (66 C1 /0 ib)
pub open spec fn enc_rol16_ri8(rd: u8, imm: u8) -> Seq<u8> {
    seq![0x66u8] + opt(rd & 8 != 0, seq![0x41u8]) + seq![0xC1u8, modrm_byte(3, 0, rd & 7), imm]
}

/// `cmovcc r64, r/m64` (REX.W 0F cc /r), reg = `rd`, rm = `rs`
pub open spec fn enc_cmov_rr64(cc: u8, rd: u8, rs: u8) -> Seq<u8> {
    seq![rex_w(rd, rs), 0x0Fu8, cc, modrm_byte(3, rd & 7, rs & 7)]
}

/// `push r64` (50+r), REX.B for R8..R15
pub open spec fn enc_push(r: u8) -> Seq<u8> {
    opt(r >= 8, seq![0x41u8]) + seq![(0x50u8 + (r & 7)) as u8]
}

/// `pop r64` (58+r), REX.B for R8..R15
pub open spec fn enc_pop(r: u8) -> Seq<u8> {
    opt(r >= 8, seq![0x41u8]) + seq![(0x58u8 + (r & 7)) as u8]
}

/// `call r/m64` (FF /2)
pub open spec fn enc_call_r64(rd: u8) -> Seq<u8> {
    opt(rd >= 8, seq![0x41u8]) + seq![0xFFu8, modrm_byte(3, 2, rd & 7)]
}

/// `setcc r/m8` (0F 90+cc /0)
pub open spec fn enc_setcc_rm8(cc: u8, reg: u8) -> Seq<u8> {
    rex_byte_reg_rm(reg) + seq![
        0x0Fu8,
        (0x90u8 + (cc & 0xf)) as u8,
        modrm_byte(3, 0, reg & 7),
    ]
}

/// The REX prefix of an instruction whose ModRM.rm operand `rm` is a byte
/// register: REX.B for R8B..R15B, a bare REX for SPL..DIL (4..8).
pub open spec fn rex_byte_reg_rm(rm: u8) -> Seq<u8> {
    if rm >= 8 {
        seq![rex_byte(false, 0, 0, rm)]
    } else if rm >= 4 {
        seq![0x40u8]
    } else {
        Seq::empty()
    }
}

/// A one-register instruction `[REX.W|B] F7 /ext` of the given operand size
/// on `rm` (64-bit: 48/49; 32-bit: 41 for R8..R15 only).
pub open spec fn enc_grp3_sized(w: bool, ext: u8, rm: u8) -> Seq<u8> {
    (if w {
        seq![rex_wb(rm)]
    } else {
        opt(rm >= 8, seq![0x41u8])
    }) + seq![0xF7u8, modrm_byte(3, ext, rm & 7)]
}

/// `movzx r32, r8` (0F B6 /r, reg = dst, rm = the byte register src)
pub open spec fn enc_movzx_r32_r8(dst: u8, src: u8) -> Seq<u8> {
    (if dst >= 8 || src >= 8 {
        seq![rex_byte(false, dst, 0, src)]
    } else if src >= 4 {
        seq![0x40u8]
    } else {
        Seq::empty()
    }) + seq![0x0Fu8, 0xB6u8, modrm_byte(3, dst & 7, src & 7)]
}

/// `bswap r32/r64` (0F C8+r), with REX.W for 64 bits and REX.B for R8..R15
pub open spec fn enc_bswap(w: bool, rd: u8) -> Seq<u8> {
    (if w {
        seq![rex_wb(rd)]
    } else {
        opt(rd >= 8, seq![0x41u8])
    }) + seq![0x0Fu8, 0xC8u8 | (rd & 7)]
}

/// The number of NOPs that `align_to(n)` appends to a buffer of `len` bytes.
pub open spec fn align_pad(len: nat, n: nat) -> nat
    recommends
        n > 0,
{
    ((n - len % n) % (n as int)) as nat
}

/// The rel32 displacement that makes a jump whose next instruction starts at
/// `next` land on `target`: `target - next` modulo 2^32.
pub open spec fn rel32_disp(next: int, target: int) -> u32 {
    ((target - next) % 0x1_0000_0000) as u32
}

/// `s` with the bytes at `at..at + new.len()` replaced by `new`.
pub open spec fn splice(s: Seq<u8>, at: int, new: Seq<u8>) -> Seq<u8> {
    s.subrange(0, at) + new + s.subrange(at + new.len(), s.len() as int)
}

/// Appending `k <= align_pad(len, n)` bytes reaches a multiple of `n` exactly
/// when `k` is the whole pad.
proof fn lemma_align_pad(len: nat, n: nat, k: nat)
    requires
        n > 0,
        k <= align_pad(len, n),
    ensures
        ((len + k) % n == 0) == (k == align_pad(len, n)),
{
    let q = (len / n) as int;
    let r = (len % n) as int;
    vstd::arithmetic::div_mod::lemma_fundamental_div_mod(len as int, n as int);
    vstd::arithmetic::div_mod::lemma_mod_multiples_vanish(q, r + k, n as int);
    assert(len + k == n * q + (r + k));
    if r == 0 {
        vstd::arithmetic::div_mod::lemma_mod_self_0(n as int);
        assert(align_pad(len, n) == 0);
        vstd::arithmetic::div_mod::lemma_small_mod(0, n);
    } else {
        vstd::arithmetic::div_mod::lemma_small_mod((n - r) as nat, n);
        assert(align_pad(len, n) == n - r);
        if k < n - r {
            vstd::arithmetic::div_mod::lemma_small_mod((r + k) as nat, n);
        } else {
            vstd::arithmetic::div_mod::lemma_mod_self_0(n as int);
        }
    }
}

// ---- encoder primitives -------------------------------------------------------

/// Bit facts about the masks that the encoders apply to register numbers.
proof fn lemma_mask_bounds(x: u8)
    ensures
        x & 7 <= 7,
        x & 0xf <= 0xf,
        (x & 7) | 0xC8 == 0xC8 + (x & 7),
{
    assert(x & 7 <= 7) by (bit_vector);
    assert(x & 0xf <= 0xf) by (bit_vector);
    assert((x & 7) | 0xC8 == 0xC8 + (x & 7)) by (bit_vector);
}

/// A zero 32-bit field is four zero bytes.
proof fn lemma_le32_zero()
    ensures
        le32(0) == seq![0u8, 0u8, 0u8, 0u8],
{
    assert((0u32 >> 8u32) as u8 == 0 && (0u32 >> 16u32) as u8 == 0 && (0u32 >> 24u32) as u8 == 0
        && 0u32 as u8 == 0) by (bit_vector);
}

/// REX prefix byte.
fn rex(w: bool, r: u8, x: u8, b: u8) -> (v: u8)
    ensures
        v == rex_byte(w, r, x, b),
{
    0x40 | (if w { 8 } else { 0 }) | (if r & 8 != 0 { 0x04 } else { 0 }) | (if x & 8 != 0 {
        0x02
    } else {
        0
    }) | (if b & 8 != 0 {
        0x01
    } else {
        0
    })
}

/// ModRM byte.
fn modrm(mod_: u8, reg: u8, rm: u8) -> (v: u8)
    ensures
        v == modrm_byte(mod_, reg, rm),
{
    ((mod_ & 3) << 6) | ((reg & 7) << 3) | (rm & 7)
}

/// ModRM displacement-size selection.
fn disp_mod(disp: i32) -> (m: u8)
    ensures
        m == disp_mode(disp),
{
    if disp == 0 {
        0
    } else if -128 <= disp && disp < 128 {
        1
    } else {
        2
    }
}

impl CodeBuf {
    /// Emit a 32-bit value, little-endian.
    pub fn u32(&mut self, v: u32)
        ensures
            final(self)@ == old(self)@ + le32(v),
    {
        self.b(v as u8);
        self.b((v >> 8) as u8);
        self.b((v >> 16) as u8);
        self.b((v >> 24) as u8);
    }

    /// Emit a 64-bit value, little-endian.
    pub fn u64(&mut self, v: u64)
        ensures
            final(self)@ == old(self)@ + le64(v),
    {
        self.b(v as u8);
        self.b((v >> 8) as u8);
        self.b((v >> 16) as u8);
        self.b((v >> 24) as u8);
        self.b((v >> 32) as u8);
        self.b((v >> 40) as u8);
        self.b((v >> 48) as u8);
        self.b((v >> 56) as u8);
    }

    /// `mov r64, imm64`
    pub fn mov_ri64(&mut self, rd: u8, imm: u64)
        ensures
            final(self)@ == old(self)@ + enc_mov_ri64(rd, imm),
    {
        if rd >= 8 {
            self.b(0x49);
        } else {
            self.b(0x48);
        }
        proof {
            lemma_mask_bounds(rd);
        }
        self.b(0xB8 + (rd & 7));
        self.u64(imm);
    }

    /// `mov r64, imm32` sign-extended
    pub fn mov_ri32(&mut self, rd: u8, imm: u32)
        ensures
            final(self)@ == old(self)@ + enc_mov_ri32(rd, imm),
    {
        if rd >= 8 {
            self.b(0x49);
        } else {
            self.b(0x48);
        }
        self.b(0xC7);
        self.b(modrm(3, 0, rd & 7));
        self.u32(imm);
    }

    /// `mov r32, imm32`, which zero-extends into the 64-bit register
    pub fn mov_eax_imm32(&mut self, rd: u8, imm: u32)
        ensures
            final(self)@ == old(self)@ + enc_mov_eax_imm32(rd, imm),
    {
        if rd >= 8 {
            self.b(0x41);  // REX.B for R8..R15
        }
        proof {
            lemma_mask_bounds(rd);
        }
        self.b(0xB8 + (rd & 7));
        self.u32(imm);
    }

    /// `mov r64, r64`; nothing is emitted when `rd == rs`
    pub fn mov_rr64(&mut self, rd: u8, rs: u8)
        ensures
            final(self)@ == old(self)@ + enc_mov_rr64(rd, rs),
    {
        if rd == rs {
            return ;
        }
        if rd >= 8 || rs >= 8 {
            self.b(rex(true, rs, 0, rd));
        } else {
            self.b(0x48);
        }
        self.b(0x89);
        self.b(modrm(3, rs & 7, rd & 7));
    }
}

impl CodeBuf {
    /// Emit the ModRM (+ displacement) for `[base + disp]` with `reg` in the
    /// ModRM.reg field.
    fn emit_mem(&mut self, reg: u8, base: u8, disp: i32)
        requires
            mem_base_ok(base),
        ensures
            final(self)@ == old(self)@ + enc_mem(reg, base, disp),
    {
        // RSP/R12 as a base need a SIB byte, which this emitter never writes.
        let d = disp_mod(disp);
        if d == 0 && (base & 7) != 5 {
            self.b(modrm(0, reg, base & 7));
        } else if d == 1 {
            self.b(modrm(1, reg, base & 7));
            self.b(disp as u8);
        } else {
            self.b(modrm(2, reg, base & 7));
            self.u32(disp as u32);
        }
    }

    /// `mov r64, [base + disp]`
    pub fn mov_load64(&mut self, rd: u8, base: u8, disp: i32)
        requires
            mem_base_ok(base),
        ensures
            final(self)@ == old(self)@ + enc_mov_load64(rd, base, disp),
    {
        if rd >= 8 || base >= 8 {
            self.b(rex(true, rd, 0, base));
        } else {
            self.b(0x48);
        }
        self.b(0x8B);
        self.emit_mem(rd, base, disp);
    }

    /// `mov r32, [base + disp]`, zero-extending into the 64-bit register
    pub fn mov_load32(&mut self, rd: u8, base: u8, disp: i32)
        requires
            mem_base_ok(base),
        ensures
            final(self)@ == old(self)@ + enc_mov_load32(rd, base, disp),
    {
        if rd >= 8 || base >= 8 {
            self.b(rex(false, rd, 0, base));
        }
        self.b(0x8B);
        self.emit_mem(rd, base, disp);
    }

    /// `movzx r32, word [base + disp]`: a 16-bit load zero-extended into the
    /// whole register (used by rev16 so that the 16-bit rotate and store work
    /// on a clean value).
    pub fn mov_load16(&mut self, rd: u8, base: u8, disp: i32)
        requires
            mem_base_ok(base),
        ensures
            final(self)@ == old(self)@ + enc_movzx_word_mem(rd, base, disp),
    {
        if rd >= 8 || base >= 8 {
            self.b(rex(false, rd, 0, base));
        }
        self.b(0x0F);
        self.b(0xB7);
        self.emit_mem(rd, base, disp);
    }

    /// `mov [base + disp], r64`
    pub fn mov_store64(&mut self, base: u8, disp: i32, src: u8)
        requires
            mem_base_ok(base),
        ensures
            final(self)@ == old(self)@ + enc_mov_store64(base, disp, src),
    {
        if base >= 8 || src >= 8 {
            self.b(rex(true, src, 0, base));
        } else {
            self.b(0x48);
        }
        self.b(0x89);
        self.emit_mem(src, base, disp);
    }

    /// `mov [base + disp], r32`
    pub fn mov_store32(&mut self, base: u8, disp: i32, src: u8)
        requires
            mem_base_ok(base),
        ensures
            final(self)@ == old(self)@ + enc_mov_store32(base, disp, src),
    {
        if base >= 8 || src >= 8 {
            self.b(rex(false, src, 0, base));
        }
        self.b(0x89);
        self.emit_mem(src, base, disp);
    }

    /// `movzx r32, byte [base + disp]` (byte load, zero-extended)
    pub fn movzx_byte_mem(&mut self, rd: u8, base: u8, disp: i32)
        requires
            mem_base_ok(base),
        ensures
            final(self)@ == old(self)@ + enc_movzx_byte_mem(rd, base, disp),
    {
        if rd >= 8 || base >= 8 {
            self.b(rex(false, rd, 0, base));
        }
        self.b(0x0F);
        self.b(0xB6);
        self.emit_mem(rd, base, disp);
    }

    /// `movzx r32, word [base + disp]` (16-bit load, zero-extended)
    pub fn movzx_word_mem(&mut self, rd: u8, base: u8, disp: i32)
        requires
            mem_base_ok(base),
        ensures
            final(self)@ == old(self)@ + enc_movzx_word_mem(rd, base, disp),
    {
        if rd >= 8 || base >= 8 {
            self.b(rex(false, rd, 0, base));
        }
        self.b(0x0F);
        self.b(0xB7);
        self.emit_mem(rd, base, disp);
    }

    /// `movsx r64, byte [base + disp]` (byte load, sign-extended to 64 bits)
    pub fn movsx_byte_mem(&mut self, rd: u8, base: u8, disp: i32)
        requires
            mem_base_ok(base),
        ensures
            final(self)@ == old(self)@ + enc_movsx_byte_mem(rd, base, disp),
    {
        if rd >= 8 || base >= 8 {
            self.b(rex(true, rd, 0, base));  // REX.W: write the whole r64
        } else {
            self.b(0x48);
        }
        self.b(0x0F);
        self.b(0xBE);
        self.emit_mem(rd, base, disp);
    }

    /// `movsx r64, word [base + disp]` (16-bit load, sign-extended to 64 bits)
    pub fn movsx_word_mem(&mut self, rd: u8, base: u8, disp: i32)
        requires
            mem_base_ok(base),
        ensures
            final(self)@ == old(self)@ + enc_movsx_word_mem(rd, base, disp),
    {
        if rd >= 8 || base >= 8 {
            self.b(rex(true, rd, 0, base));  // REX.W: write the whole r64
        } else {
            self.b(0x48);
        }
        self.b(0x0F);
        self.b(0xBF);
        self.emit_mem(rd, base, disp);
    }

    /// `movzx r32, byte [base + idx*1 + disp]` (zero-extending indexed byte
    /// load, used for table lookups at a runtime index). ModRM rm = 100 selects
    /// a SIB byte with scale 1, then a 32-bit displacement.
    pub fn movzx_byte_mem_idxd(&mut self, rd: u8, base: u8, idx: u8, disp: i32)
        ensures
            final(self)@ == old(self)@ + enc_movzx_byte_mem_idxd(rd, base, idx, disp),
    {
        if rd >= 8 || base >= 8 || idx >= 8 {
            self.b(rex(false, rd, idx, base));
        }
        self.b(0x0F);
        self.b(0xB6);
        self.b(modrm(2, rd & 7, 0b100));
        self.b((idx & 7) << 3 | (base & 7));
        self.u32(disp as u32);
    }

    /// `mov byte [base + disp], r8`; SPL..DIL (4..8) take a bare REX prefix,
    /// without which they would mean AH..BH
    pub fn mov_store8(&mut self, base: u8, disp: i32, src: u8)
        requires
            mem_base_ok(base),
        ensures
            final(self)@ == old(self)@ + enc_mov_store8(base, disp, src),
    {
        if base >= 8 || src >= 8 {
            self.b(rex(false, src, 0, base));
        } else if src >= 4 {
            self.b(0x40);
        }
        self.b(0x88);
        self.emit_mem(src, base, disp);
    }

    /// `mov word [base + disp], r16`
    pub fn mov_store16(&mut self, base: u8, disp: i32, src: u8)
        requires
            mem_base_ok(base),
        ensures
            final(self)@ == old(self)@ + enc_mov_store16(base, disp, src),
    {
        self.b(0x66);  // 16-bit operand-size prefix
        if base >= 8 || src >= 8 {
            self.b(rex(false, src, 0, base));
        }
        self.b(0x89);
        self.emit_mem(src, base, disp);
    }

    // ---- SIMD (128-bit XMM) ----

    /// `movdqu xmm, [base + disp]`: 128-bit unaligned load
    pub fn movdqu_load(&mut self, xmm: u8, base: u8, disp: i32)
        requires
            mem_base_ok(base),
        ensures
            final(self)@ == old(self)@ + enc_movdqu_load(xmm, base, disp),
    {
        self.b(0xF3);
        if xmm >= 8 || base >= 8 {
            self.b(rex(false, xmm, 0, base));
        }
        self.b(0x0F);
        self.b(0x6F);
        self.emit_mem(xmm, base, disp);
    }

    /// `movdqu [base + disp], xmm`: 128-bit unaligned store
    pub fn movdqu_store(&mut self, base: u8, disp: i32, xmm: u8)
        requires
            mem_base_ok(base),
        ensures
            final(self)@ == old(self)@ + enc_movdqu_store(base, disp, xmm),
    {
        self.b(0xF3);
        if base >= 8 || xmm >= 8 {
            self.b(rex(false, xmm, 0, base));
        }
        self.b(0x0F);
        self.b(0x7F);
        self.emit_mem(xmm, base, disp);
    }

    /// `movq xmm, [base + disp]`: 64-bit load into the low half of an XMM
    pub fn movq_load(&mut self, xmm: u8, base: u8, disp: i32)
        requires
            mem_base_ok(base),
        ensures
            final(self)@ == old(self)@ + enc_movq_load(xmm, base, disp),
    {
        self.b(0xF3);
        self.b(0x48);
        if xmm >= 8 || base >= 8 {
            self.b(rex(false, xmm, 0, base));
        }
        self.b(0x0F);
        self.b(0x7E);
        self.emit_mem(xmm, base, disp);
    }

    /// `movq [base + disp], xmm`
    pub fn movq_store(&mut self, base: u8, disp: i32, xmm: u8)
        requires
            mem_base_ok(base),
        ensures
            final(self)@ == old(self)@ + enc_movq_store(base, disp, xmm),
    {
        self.b(0x66);
        self.b(0x48);
        if base >= 8 || xmm >= 8 {
            self.b(rex(false, xmm, 0, base));
        }
        self.b(0x0F);
        self.b(0xD6);
        self.emit_mem(xmm, base, disp);
    }

    /// `lea r64, [base + disp]`
    pub fn lea64(&mut self, rd: u8, base: u8, disp: i32)
        requires
            mem_base_ok(base),
        ensures
            final(self)@ == old(self)@ + enc_lea64(rd, base, disp),
    {
        if rd >= 8 || base >= 8 {
            self.b(rex(true, rd, 0, base));
        } else {
            self.b(0x48);
        }
        self.b(0x8D);
        self.emit_mem(rd, base, disp);
    }
}

impl CodeBuf {
    /// `movdqa dst, src` (register copy); nothing is emitted when `dst == src`
    pub fn movdqa_xmm(&mut self, dst: u8, src: u8)
        ensures
            final(self)@ == old(self)@ + enc_movdqa_xmm(dst, src),
    {
        if dst == src {
            return ;
        }
        self.b(0x66);
        if dst >= 8 || src >= 8 {
            self.b(rex(false, dst, 0, src));
        }
        self.b(0x0F);
        self.b(0x6F);
        self.b(modrm(3, dst & 7, src & 7));  // reg = destination, rm = source
    }

    /// `pxor xmm, xmm` (XOR; `pxor x, x` clears x)
    pub fn pxor_xmm(&mut self, dst: u8, src: u8)
        ensures
            final(self)@ == old(self)@ + enc_sse_rr(0x66, 0xEF, dst, src),
    {
        self.b(0x66);
        if dst >= 8 || src >= 8 {
            self.b(rex(false, dst, 0, src));
        }
        self.b(0x0F);
        self.b(0xEF);
        self.b(modrm(3, dst & 7, src & 7));
    }

    /// `pclmulqdq dst, src, imm`: carry-less multiply of a selectable 64-bit
    /// half of `dst` and of `src` (imm bits 1..0 and 5..4) into 128 bits
    pub fn pclmulq(&mut self, dst: u8, src: u8, imm: u8)
        ensures
            final(self)@ == old(self)@ + enc_pclmulq(dst, src, imm),
    {
        self.b(0x66);
        if dst >= 8 || src >= 8 {
            self.b(rex(false, dst, 0, src));
        }
        self.b(0x0F);
        self.b(0x3A);
        self.b(0x44);
        self.b(modrm(3, dst & 7, src & 7));
        self.b(imm);
    }

    /// Set an XMM register to all ones: `pxor x, x` then `pcmpeqd x, x`
    pub fn movdqu_ones(&mut self, xmm: u8)
        ensures
            final(self)@ == old(self)@ + enc_movdqu_ones(xmm),
    {
        // pxor xmm, xmm
        self.b(0x66);
        if xmm >= 8 {
            self.b(rex(false, xmm, 0, xmm));
        }
        self.b(0x0F);
        self.b(0xEF);
        self.b(modrm(3, xmm & 7, xmm & 7));
        // pcmpeqd xmm, xmm
        self.b(0x66);
        if xmm >= 8 {
            self.b(rex(false, xmm, 0, xmm));
        }
        self.b(0x0F);
        self.b(0x76);
        self.b(modrm(3, xmm & 7, xmm & 7));
    }

    /// `pand xmm, xmm`: 128-bit AND (reg = dst, rm = src)
    pub fn pand(&mut self, dst: u8, src: u8)
        ensures
            final(self)@ == old(self)@ + enc_sse_rr(0x66, 0xDB, dst, src),
    {
        self.b(0x66);
        if dst >= 8 || src >= 8 {
            self.b(rex(false, dst, 0, src));
        }
        self.b(0x0F);
        self.b(0xDB);
        self.b(modrm(3, dst & 7, src & 7));
    }

    /// `por xmm, xmm`: 128-bit OR
    pub fn por(&mut self, dst: u8, src: u8)
        ensures
            final(self)@ == old(self)@ + enc_sse_rr(0x66, 0xEB, dst, src),
    {
        self.b(0x66);
        if dst >= 8 || src >= 8 {
            self.b(rex(false, dst, 0, src));
        }
        self.b(0x0F);
        self.b(0xEB);
        self.b(modrm(3, dst & 7, src & 7));
    }

    /// `pandn xmm, xmm`: dst = !dst & src (`pandn xmm1, xmm0` is 66 0F DF C8)
    pub fn pandn(&mut self, dst: u8, src: u8)
        ensures
            final(self)@ == old(self)@ + enc_sse_rr(0x66, 0xDF, dst, src),
    {
        self.b(0x66);
        if dst >= 8 || src >= 8 {
            self.b(rex(false, dst, 0, src));
        }
        self.b(0x0F);
        self.b(0xDF);
        self.b(modrm(3, dst & 7, src & 7));
    }

    /// `paddd xmm, xmm`: add four 32-bit lanes
    pub fn paddd(&mut self, dst: u8, src: u8)
        ensures
            final(self)@ == old(self)@ + enc_sse_rr(0x66, 0xFE, dst, src),
    {
        self.b(0x66);
        if dst >= 8 || src >= 8 {
            self.b(rex(false, dst, 0, src));
        }
        self.b(0x0F);
        self.b(0xFE);
        self.b(modrm(3, dst & 7, src & 7));
    }

    /// `psubd xmm, xmm`: subtract four 32-bit lanes
    pub fn psubd(&mut self, dst: u8, src: u8)
        ensures
            final(self)@ == old(self)@ + enc_sse_rr(0x66, 0xFA, dst, src),
    {
        self.b(0x66);
        if dst >= 8 || src >= 8 {
            self.b(rex(false, dst, 0, src));
        }
        self.b(0x0F);
        self.b(0xFA);
        self.b(modrm(3, dst & 7, src & 7));
    }

    /// `paddb xmm, xmm`: add sixteen 8-bit lanes
    pub fn paddb(&mut self, dst: u8, src: u8)
        ensures
            final(self)@ == old(self)@ + enc_sse_rr(0x66, 0xFC, dst, src),
    {
        self.b(0x66);
        if dst >= 8 || src >= 8 {
            self.b(rex(false, dst, 0, src));
        }
        self.b(0x0F);
        self.b(0xFC);
        self.b(modrm(3, dst & 7, src & 7));
    }

    /// `psubb xmm, xmm`: subtract sixteen 8-bit lanes
    pub fn psubb(&mut self, dst: u8, src: u8)
        ensures
            final(self)@ == old(self)@ + enc_sse_rr(0x66, 0xF8, dst, src),
    {
        self.b(0x66);
        if dst >= 8 || src >= 8 {
            self.b(rex(false, dst, 0, src));
        }
        self.b(0x0F);
        self.b(0xF8);
        self.b(modrm(3, dst & 7, src & 7));
    }

    /// `paddw xmm, xmm`: add eight 16-bit lanes
    pub fn paddw(&mut self, dst: u8, src: u8)
        ensures
            final(self)@ == old(self)@ + enc_sse_rr(0x66, 0xFD, dst, src),
    {
        self.b(0x66);
        if dst >= 8 || src >= 8 {
            self.b(rex(false, dst, 0, src));
        }
        self.b(0x0F);
        self.b(0xFD);
        self.b(modrm(3, dst & 7, src & 7));
    }

    /// `psubw xmm, xmm`: subtract eight 16-bit lanes
    pub fn psubw(&mut self, dst: u8, src: u8)
        ensures
            final(self)@ == old(self)@ + enc_sse_rr(0x66, 0xF9, dst, src),
    {
        self.b(0x66);
        if dst >= 8 || src >= 8 {
            self.b(rex(false, dst, 0, src));
        }
        self.b(0x0F);
        self.b(0xF9);
        self.b(modrm(3, dst & 7, src & 7));
    }

    /// Scalar double `F2 0F op /r` with ModRM.reg = dst and rm = src, so that
    /// `mulsd(0, 1)` is F2 0F 59 C1 (xmm0 = xmm0 * xmm1).
    fn sd(&mut self, op: u8, dst: u8, src: u8)
        ensures
            final(self)@ == old(self)@ + enc_sse_rr(0xF2, op, dst, src),
    {
        self.b(0xF2);
        if dst >= 8 || src >= 8 {
            self.b(rex(false, dst, 0, src));
        }
        self.b(0x0F);
        self.b(op);
        self.b(modrm(3, dst & 7, src & 7));
    }

    /// `addsd xmm, xmm`: dst += src (scalar double)
    pub fn addsd(&mut self, dst: u8, src: u8)
        ensures
            final(self)@ == old(self)@ + enc_sse_rr(0xF2, 0x58, dst, src),
    {
        self.sd(0x58, dst, src);
    }

    /// `mulsd xmm, xmm`: dst *= src (scalar double)
    pub fn mulsd(&mut self, dst: u8, src: u8)
        ensures
            final(self)@ == old(self)@ + enc_sse_rr(0xF2, 0x59, dst, src),
    {
        self.sd(0x59, dst, src);
    }

    /// `mulss xmm, xmm`: dst *= src (scalar single)
    pub fn mulss(&mut self, dst: u8, src: u8)
        ensures
            final(self)@ == old(self)@ + enc_sse_rr(0xF3, 0x59, dst, src),
    {
        self.b(0xF3);
        if dst >= 8 || src >= 8 {
            self.b(rex(false, dst, 0, src));
        }
        self.b(0x0F);
        self.b(0x59);
        self.b(modrm(3, dst & 7, src & 7));
    }

    /// `divss xmm, xmm`: dst /= src (scalar single)
    pub fn divss(&mut self, dst: u8, src: u8)
        ensures
            final(self)@ == old(self)@ + enc_sse_rr(0xF3, 0x5E, dst, src),
    {
        self.b(0xF3);
        if dst >= 8 || src >= 8 {
            self.b(rex(false, dst, 0, src));
        }
        self.b(0x0F);
        self.b(0x5E);
        self.b(modrm(3, dst & 7, src & 7));
    }

    /// `addss xmm, xmm`: dst += src (scalar single)
    pub fn addss(&mut self, dst: u8, src: u8)
        ensures
            final(self)@ == old(self)@ + enc_sse_rr(0xF3, 0x58, dst, src),
    {
        self.b(0xF3);
        if dst >= 8 || src >= 8 {
            self.b(rex(false, dst, 0, src));
        }
        self.b(0x0F);
        self.b(0x58);
        self.b(modrm(3, dst & 7, src & 7));
    }

    /// `subss xmm, xmm`: dst -= src (scalar single)
    pub fn subss(&mut self, dst: u8, src: u8)
        ensures
            final(self)@ == old(self)@ + enc_sse_rr(0xF3, 0x5C, dst, src),
    {
        self.b(0xF3);
        if dst >= 8 || src >= 8 {
            self.b(rex(false, dst, 0, src));
        }
        self.b(0x0F);
        self.b(0x5C);
        self.b(modrm(3, dst & 7, src & 7));
    }

    /// `subsd xmm, xmm`: dst -= src (scalar double)
    pub fn subsd(&mut self, dst: u8, src: u8)
        ensures
            final(self)@ == old(self)@ + enc_sse_rr(0xF2, 0x5C, dst, src),
    {
        self.sd(0x5C, dst, src);
    }

    /// `divsd xmm, xmm`: dst /= src (scalar double)
    pub fn divsd(&mut self, dst: u8, src: u8)
        ensures
            final(self)@ == old(self)@ + enc_sse_rr(0xF2, 0x5E, dst, src),
    {
        self.sd(0x5E, dst, src);
    }

    /// `sqrtsd xmm, xmm`: dst = sqrt(src) (scalar double)
    pub fn sqrtsd(&mut self, dst: u8, src: u8)
        ensures
            final(self)@ == old(self)@ + enc_sse_rr(0xF2, 0x51, dst, src),
    {
        self.sd(0x51, dst, src);
    }

    /// `roundsd dst, src, mode`: round with mode `imm[1:0]` (0 nearest-even,
    /// 1 toward -inf, 2 toward +inf, 3 toward zero)
    pub fn roundsd(&mut self, dst: u8, src: u8, mode: u8)
        ensures
            final(self)@ == old(self)@ + enc_roundsd(dst, src, mode),
    {
        self.b(0x66);
        if dst >= 8 || src >= 8 {
            self.b(rex(false, dst, 0, src));
        }
        self.b(0x0F);
        self.b(0x3A);
        self.b(0x0B);
        self.b(modrm(3, dst & 7, src & 7));
        self.b(mode & 0x0f);
    }

    // ---- integer multiply / divide ----

    /// `cqo`: sign-extend RAX into RDX
    pub fn cqo(&mut self)
        ensures
            final(self)@ == old(self)@ + seq![0x48u8, 0x99u8],
    {
        self.b(0x48);
        self.b(0x99);
    }

    /// `cdq`: sign-extend EAX into EDX
    pub fn cdq(&mut self)
        ensures
            final(self)@ == old(self)@ + seq![0x99u8],
    {
        self.b(0x99);
    }

    /// `div r64`: unsigned RDX:RAX / r64, quotient in RAX, remainder in RDX
    pub fn div_r64(&mut self, divr: u8)
        ensures
            final(self)@ == old(self)@ + enc_grp3_sized(true, 6, divr),
    {
        self.b(if divr >= 8 {
            0x49
        } else {
            0x48
        });
        self.b(0xF7);
        self.b(modrm(3, 6, divr & 7));
    }

    /// `div r32`: unsigned EDX:EAX / r32
    pub fn div_r32(&mut self, divr: u8)
        ensures
            final(self)@ == old(self)@ + enc_grp3_sized(false, 6, divr),
    {
        if divr >= 8 {
            self.b(0x41);
        }
        self.b(0xF7);
        self.b(modrm(3, 6, divr & 7));
    }

    /// `idiv r64`: signed RDX:RAX / r64
    pub fn idiv_r64(&mut self, divr: u8)
        ensures
            final(self)@ == old(self)@ + enc_grp3_sized(true, 7, divr),
    {
        self.b(if divr >= 8 {
            0x49
        } else {
            0x48
        });
        self.b(0xF7);
        self.b(modrm(3, 7, divr & 7));
    }

    /// `idiv r32`: signed EDX:EAX / r32
    pub fn idiv_r32(&mut self, divr: u8)
        ensures
            final(self)@ == old(self)@ + enc_grp3_sized(false, 7, divr),
    {
        if divr >= 8 {
            self.b(0x41);
        }
        self.b(0xF7);
        self.b(modrm(3, 7, divr & 7));
    }

    /// `imul r64, r/m64`: rd = rd * rs (signed, low 64 bits)
    pub fn imul_rr64(&mut self, rd: u8, rs: u8)
        ensures
            final(self)@ == old(self)@ + seq![rex_w(rd, rs), 0x0Fu8, 0xAFu8, modrm_byte(3, rd & 7, rs & 7)],
    {
        if rd >= 8 || rs >= 8 {
            self.b(rex(true, rd, 0, rs));
        } else {
            self.b(0x48);
        }
        self.b(0x0F);
        self.b(0xAF);
        self.b(modrm(3, rd & 7, rs & 7));  // reg = dst, rm = src
    }

    /// `mul r/m64`: unsigned RDX:RAX = RAX * rm (the high half lands in RDX)
    pub fn mul_high_r64(&mut self, rm: u8)
        ensures
            final(self)@ == old(self)@ + enc_grp3(4, rm),
    {
        self.b(if rm >= 8 { 0x49 } else { 0x48 });
        self.b(0xF7);
        self.b(modrm(3, 4, rm & 7));
    }

    /// `imul r/m64`: signed RDX:RAX = RAX * rm
    pub fn imul_high_r64(&mut self, rm: u8)
        ensures
            final(self)@ == old(self)@ + enc_grp3(5, rm),
    {
        self.b(if rm >= 8 { 0x49 } else { 0x48 });
        self.b(0xF7);
        self.b(modrm(3, 5, rm & 7));
    }

    /// `movsxd r64, r/m32`: sign-extend a 32-bit register into r64
    pub fn movsxd_r64_r32(&mut self, rd: u8, rs: u8)
        ensures
            final(self)@ == old(self)@ + seq![rex_w(rd, rs), 0x63u8, modrm_byte(3, rd & 7, rs & 7)],
    {
        if rd >= 8 || rs >= 8 {
            self.b(rex(true, rd, 0, rs));
        } else {
            self.b(0x48);
        }
        self.b(0x63);
        self.b(modrm(3, rd & 7, rs & 7));
    }

    /// `movq xmm, r64`: a GPR's bits into the low 8 bytes of an XMM
    pub fn movq_xmm_r64(&mut self, xmm: u8, r64: u8)
        ensures
            final(self)@ == old(self)@ + seq![
                0x66u8,
                rex_byte(true, xmm, 0, r64),
                0x0Fu8,
                0x6Eu8,
                modrm_byte(3, xmm & 7, r64 & 7),
            ],
    {
        self.b(0x66);
        self.b(rex(true, xmm, 0, r64));
        self.b(0x0F);
        self.b(0x6E);
        self.b(modrm(3, xmm & 7, r64 & 7));
    }

    /// `movq r64, xmm`: the low 8 bytes of an XMM into a GPR (66 REX.W 0F 7E,
    /// the MOVQ r/m64, xmm form: reg = xmm, rm = GPR)
    pub fn movq_r64_xmm(&mut self, r64: u8, xmm: u8)
        ensures
            final(self)@ == old(self)@ + seq![
                0x66u8,
                rex_byte(true, xmm, 0, r64),
                0x0Fu8,
                0x7Eu8,
                modrm_byte(3, xmm & 7, r64 & 7),
            ],
    {
        self.b(0x66);
        self.b(rex(true, xmm, 0, r64));
        self.b(0x0F);
        self.b(0x7E);
        self.b(modrm(3, xmm & 7, r64 & 7));
    }

    /// `comisd xmm_a, xmm_b`: ordered compare of doubles into CF/ZF/PF
    pub fn comisd(&mut self, a: u8, b: u8)
        ensures
            final(self)@ == old(self)@ + enc_sse_rex_rr(0x66, 0x2F, a, b),
    {
        self.b(0x66);
        self.b(rex(false, a, 0, b));
        self.b(0x0F);
        self.b(0x2F);
        self.b(modrm(3, a & 7, b & 7));
    }

    /// `comiss xmm_a, xmm_b`: ordered compare of singles
    pub fn comiss(&mut self, a: u8, b: u8)
        ensures
            final(self)@ == old(self)@ + seq![
                rex_byte(false, a, 0, b),
                0x0Fu8,
                0x2Fu8,
                modrm_byte(3, a & 7, b & 7),
            ],
    {
        self.b(rex(false, a, 0, b));
        self.b(0x0F);
        self.b(0x2F);
        self.b(modrm(3, a & 7, b & 7));
    }

    /// `setcc r/m8`: store 1 when condition `cc` holds, else 0; SPL..DIL
    /// (4..8) take a bare REX prefix
    pub fn setcc_rm8(&mut self, cc: u8, reg: u8)
        ensures
            final(self)@ == old(self)@ + enc_setcc_rm8(cc, reg),
    {
        if reg >= 8 {
            self.b(rex(false, 0, 0, reg));
        } else if reg >= 4 {
            self.b(0x40);
        }
        self.b(0x0F);
        proof {
            lemma_mask_bounds(cc);
        }
        self.b(0x90 + (cc & 0xf));
        self.b(modrm(3, 0, reg & 7));
    }

    /// `movzx r32, r8`: zero-extend a byte register into a 32-bit register;
    /// SPL..DIL (4..8) as the source take a bare REX prefix
    pub fn movzx_r32_r8(&mut self, dst: u8, src: u8)
        ensures
            final(self)@ == old(self)@ + enc_movzx_r32_r8(dst, src),
    {
        if dst >= 8 || src >= 8 {
            self.b(rex(false, dst, 0, src));
        } else if src >= 4 {
            self.b(0x40);
        }
        self.b(0x0F);
        self.b(0xB6);
        self.b(modrm(3, dst & 7, src & 7));
    }

    /// `maxsd xmm, xmm`: a = max(a, b) on doubles
    pub fn maxsd(&mut self, a: u8, b: u8)
        ensures
            final(self)@ == old(self)@ + enc_sse_rex_rr(0xF2, 0x5F, a, b),
    {
        self.b(0xF2);
        self.b(rex(false, a, 0, b));
        self.b(0x0F);
        self.b(0x5F);
        self.b(modrm(3, a & 7, b & 7));
    }

    /// `minsd xmm, xmm`: a = min(a, b) on doubles
    pub fn minsd(&mut self, a: u8, b: u8)
        ensures
            final(self)@ == old(self)@ + enc_sse_rex_rr(0xF2, 0x5D, a, b),
    {
        self.b(0xF2);
        self.b(rex(false, a, 0, b));
        self.b(0x0F);
        self.b(0x5D);
        self.b(modrm(3, a & 7, b & 7));
    }

    /// `maxss xmm, xmm`: a = max(a, b) on singles
    pub fn maxss(&mut self, a: u8, b: u8)
        ensures
            final(self)@ == old(self)@ + enc_sse_rex_rr(0xF3, 0x5F, a, b),
    {
        self.b(0xF3);
        self.b(rex(false, a, 0, b));
        self.b(0x0F);
        self.b(0x5F);
        self.b(modrm(3, a & 7, b & 7));
    }

    /// `minss xmm, xmm`: a = min(a, b) on singles
    pub fn minss(&mut self, a: u8, b: u8)
        ensures
            final(self)@ == old(self)@ + enc_sse_rex_rr(0xF3, 0x5D, a, b),
    {
        self.b(0xF3);
        self.b(rex(false, a, 0, b));
        self.b(0x0F);
        self.b(0x5D);
        self.b(modrm(3, a & 7, b & 7));
    }

    /// `cvttsd2si r64, xmm`: double to integer, truncating toward zero
    pub fn cvttsd2si(&mut self, rd: u8, xmm: u8)
        ensures
            final(self)@ == old(self)@ + enc_cvtsd2si(0x2C, rd, xmm),
    {
        self.b(0xF2);
        self.b(0x48);
        if rd >= 8 || xmm >= 8 {
            self.b(rex(true, rd, 0, xmm));
        }
        self.b(0x0F);
        self.b(0x2C);
        self.b(modrm(3, rd & 7, xmm & 7));  // reg = GPR (dst), rm = xmm (src)
    }

    /// `cvtsd2si r64, xmm`: double to integer, rounding per MXCSR
    pub fn cvtsd2si(&mut self, rd: u8, xmm: u8)
        ensures
            final(self)@ == old(self)@ + enc_cvtsd2si(0x2D, rd, xmm),
    {
        self.b(0xF2);
        self.b(0x48);
        if rd >= 8 || xmm >= 8 {
            self.b(rex(true, rd, 0, xmm));
        }
        self.b(0x0F);
        self.b(0x2D);
        self.b(modrm(3, rd & 7, xmm & 7));  // reg = GPR (dst), rm = xmm (src)
    }

    /// `cvtsi2sd xmm, r/m32|64`: signed integer to double
    pub fn cvtsi2sd(&mut self, xmm: u8, src64: bool, rs: u8)
        ensures
            final(self)@ == old(self)@ + enc_cvtsi2(0xF2, xmm, src64, rs),
    {
        self.b(0xF2);
        if src64 {
            self.b(0x48);
        }
        if xmm >= 8 || rs >= 8 {
            self.b(rex(src64, xmm, 0, rs));
        }
        self.b(0x0F);
        self.b(0x2A);
        self.b(modrm(3, xmm & 7, rs & 7));
    }

    /// `cvtsi2ss xmm, r/m32|64`: signed integer to single
    pub fn cvtsi2ss(&mut self, xmm: u8, src64: bool, rs: u8)
        ensures
            final(self)@ == old(self)@ + enc_cvtsi2(0xF3, xmm, src64, rs),
    {
        self.b(0xF3);
        if src64 {
            self.b(0x48);
        }
        if xmm >= 8 || rs >= 8 {
            self.b(rex(src64, xmm, 0, rs));
        }
        self.b(0x0F);
        self.b(0x2A);
        self.b(modrm(3, xmm & 7, rs & 7));
    }

    /// `cvtsd2ss xmm, xmm`: double to single
    pub fn cvtsd2ss(&mut self, dst: u8, src: u8)
        ensures
            final(self)@ == old(self)@ + enc_sse_rr(0xF2, 0x5A, dst, src),
    {
        self.b(0xF2);
        if dst >= 8 || src >= 8 {
            self.b(rex(false, dst, 0, src));
        }
        self.b(0x0F);
        self.b(0x5A);
        self.b(modrm(3, dst & 7, src & 7));
    }

    /// `cvtss2sd xmm, xmm`: single to double
    pub fn cvtss2sd(&mut self, dst: u8, src: u8)
        ensures
            final(self)@ == old(self)@ + enc_sse_rr(0xF3, 0x5A, dst, src),
    {
        self.b(0xF3);
        if dst >= 8 || src >= 8 {
            self.b(rex(false, dst, 0, src));
        }
        self.b(0x0F);
        self.b(0x5A);
        self.b(modrm(3, dst & 7, src & 7));
    }

    /// `movd r32, xmm`: the low 32 bits of an XMM into a GPR (66 0F 7E, the
    /// MOVD r/m32, xmm form: reg = xmm, rm = GPR)
    pub fn movd_r32_xmm(&mut self, rd: u8, xmm: u8)
        ensures
            final(self)@ == old(self)@ + enc_sse_rr(0x66, 0x7E, xmm, rd),
    {
        self.b(0x66);
        if xmm >= 8 || rd >= 8 {
            self.b(rex(false, xmm, 0, rd));
        }
        self.b(0x0F);
        self.b(0x7E);
        self.b(modrm(3, xmm & 7, rd & 7));
    }

    /// `movd xmm, r32`: the low 32 bits of a GPR into an XMM (66 0F 6E:
    /// reg = xmm, rm = GPR)
    pub fn movd_xmm_r32(&mut self, xmm: u8, rs: u8)
        ensures
            final(self)@ == old(self)@ + enc_sse_rr(0x66, 0x6E, xmm, rs),
    {
        self.b(0x66);
        if xmm >= 8 || rs >= 8 {
            self.b(rex(false, xmm, 0, rs));
        }
        self.b(0x0F);
        self.b(0x6E);
        self.b(modrm(3, xmm & 7, rs & 7));
    }

    // ---- 64-bit arithmetic ----

    /// A 64-bit register-register ALU op (reg = source, rm = destination).
    fn binop(&mut self, op: u8, rd: u8, rs: u8)
        ensures
            final(self)@ == old(self)@ + enc_binop(op, rd, rs),
    {
        if rd >= 8 || rs >= 8 {
            self.b(rex(true, rs, 0, rd));
        } else {
            self.b(0x48);
        }
        self.b(op);
        self.b(modrm(3, rs & 7, rd & 7));
    }

    /// A 32-bit register-register ALU op (no REX.W).
    fn binop32(&mut self, op: u8, rd: u8, rs: u8)
        ensures
            final(self)@ == old(self)@ + enc_binop32(op, rd, rs),
    {
        if rd >= 8 || rs >= 8 {
            self.b(rex(false, rs, 0, rd));  // REX without W for high registers
        }
        self.b(op);
        self.b(modrm(3, rs & 7, rd & 7));
    }

    /// `add r64, r64`
    pub fn add_rr64(&mut self, rd: u8, rs: u8)
        ensures
            final(self)@ == old(self)@ + enc_binop(0x01, rd, rs),
    {
        self.binop(0x01, rd, rs);
    }

    /// `sub r64, r64`
    pub fn sub_rr64(&mut self, rd: u8, rs: u8)
        ensures
            final(self)@ == old(self)@ + enc_binop(0x29, rd, rs),
    {
        self.binop(0x29, rd, rs);
    }

    /// `add r32, r32`: flags from the 32-bit result, upper half of rd cleared
    pub fn add_rr32(&mut self, rd: u8, rs: u8)
        ensures
            final(self)@ == old(self)@ + enc_binop32(0x01, rd, rs),
    {
        self.binop32(0x01, rd, rs);
    }

    /// `sub r32, r32`: flags from the 32-bit result, upper half of rd cleared
    pub fn sub_rr32(&mut self, rd: u8, rs: u8)
        ensures
            final(self)@ == old(self)@ + enc_binop32(0x29, rd, rs),
    {
        self.binop32(0x29, rd, rs);
    }

    /// `adc r64, r64`: rd = rd + rs + CF
    pub fn adc_rr64(&mut self, rd: u8, rs: u8)
        ensures
            final(self)@ == old(self)@ + enc_binop(0x11, rd, rs),
    {
        self.binop(0x11, rd, rs);
    }

    /// `sbb r64, r64`: rd = rd - rs - CF
    pub fn sbb_rr64(&mut self, rd: u8, rs: u8)
        ensures
            final(self)@ == old(self)@ + enc_binop(0x19, rd, rs),
    {
        self.binop(0x19, rd, rs);
    }

    /// `cmc`: complement the carry flag
    pub fn cmc(&mut self)
        ensures
            final(self)@ == old(self)@ + seq![0xF5u8],
    {
        self.b(0xF5);
    }

    /// `xor r64, r64`
    pub fn xor_rr64(&mut self, rd: u8, rs: u8)
        ensures
            final(self)@ == old(self)@ + enc_binop(0x31, rd, rs),
    {
        self.binop(0x31, rd, rs);
    }

    /// `or r64, r64`
    pub fn or_rr64(&mut self, rd: u8, rs: u8)
        ensures
            final(self)@ == old(self)@ + enc_binop(0x09, rd, rs),
    {
        self.binop(0x09, rd, rs);
    }

    /// `and r64, r64`
    pub fn and_rr64(&mut self, rd: u8, rs: u8)
        ensures
            final(self)@ == old(self)@ + enc_binop(0x21, rd, rs),
    {
        self.binop(0x21, rd, rs);
    }

    /// `cmp r64, r64`: flags of a - b
    pub fn cmp_rr64(&mut self, a: u8, b: u8)
        ensures
            final(self)@ == old(self)@ + enc_binop(0x39, a, b),
    {
        self.binop(0x39, a, b);
    }

    /// `test r64, r64`: flags of a & b
    pub fn test_rr64(&mut self, a: u8, b: u8)
        ensures
            final(self)@ == old(self)@ + enc_binop(0x85, a, b),
    {
        if a >= 8 || b >= 8 {
            self.b(rex(true, b, 0, a));
        } else {
            self.b(0x48);
        }
        self.b(0x85);
        self.b(modrm(3, b & 7, a & 7));
    }

    /// `op r/m64, imm32` with the immediate sign-extended to 64 bits.
    fn ari_imm(&mut self, op: u8, rd: u8, imm: u32)
        ensures
            final(self)@ == old(self)@ + enc_ari_imm(op, rd, imm),
    {
        if rd >= 8 {
            self.b(0x49);
        } else {
            self.b(0x48);
        }
        self.b(0x81);
        self.b(modrm(3, op, rd & 7));
        self.u32(imm);
    }

    /// `add r64, imm32` (sign-extended)
    pub fn add_ri64(&mut self, rd: u8, imm: u32)
        ensures
            final(self)@ == old(self)@ + enc_ari_imm(0, rd, imm),
    {
        self.ari_imm(0, rd, imm);
    }

    /// `sub r64, imm32` (sign-extended)
    pub fn sub_ri64(&mut self, rd: u8, imm: u32)
        ensures
            final(self)@ == old(self)@ + enc_ari_imm(5, rd, imm),
    {
        self.ari_imm(5, rd, imm);
    }

    /// `neg r64`; R8..R15 need REX.B (0x49), else the low register is negated
    pub fn neg_r64(&mut self, rd: u8)
        ensures
            final(self)@ == old(self)@ + enc_grp3(3, rd),
    {
        self.b(if rd >= 8 { 0x49 } else { 0x48 });
        self.b(0xF7);
        self.b(modrm(3, 3, rd & 7));
    }

    /// `not r64`
    pub fn not_r64(&mut self, rd: u8)
        ensures
            final(self)@ == old(self)@ + enc_grp3(2, rd),
    {
        self.b(if rd >= 8 { 0x49 } else { 0x48 });
        self.b(0xF7);
        self.b(modrm(3, 2, rd & 7));
    }

    /// `and r64, imm32` (sign-extended, so `and r, 0xffffffff` leaves r unchanged)
    pub fn and_ri64(&mut self, rd: u8, imm: u32)
        ensures
            final(self)@ == old(self)@ + enc_ari_imm(4, rd, imm),
    {
        self.ari_imm(4, rd, imm);
    }

    /// Zero-extend the low 32 bits of `rd` into the whole register with
    /// `mov r32, r32` on itself (no REX.W), which clears bits 63..32. An
    /// `and r64, 0xffffffff` would not do it: its immediate is sign-extended.
    pub fn zero_ext_r32(&mut self, rd: u8)
        ensures
            final(self)@ == old(self)@ + enc_zero_ext_r32(rd),
    {
        proof {
            assert(0x40u8 | (0x04u8 | 0x01u8) == 0x45u8 && 0x40u8 | 0u8 == 0x40u8) by (bit_vector);
        }
        let rex = 0x40 | if rd >= 8 {
            0x04 | 0x01  // REX.R (reg) and REX.B (rm)

        } else {
            0
        };
        if rex != 0x40 {
            self.b(rex);
        }
        self.b(0x89);
        self.b(modrm(3, rd & 7, rd & 7));
    }

    /// `or r64, imm32` (sign-extended)
    pub fn or_ri64(&mut self, rd: u8, imm: u32)
        ensures
            final(self)@ == old(self)@ + enc_ari_imm(1, rd, imm),
    {
        self.ari_imm(1, rd, imm);
    }

    /// `xor r64, imm32` (sign-extended)
    pub fn xor_ri64(&mut self, rd: u8, imm: u32)
        ensures
            final(self)@ == old(self)@ + enc_ari_imm(6, rd, imm),
    {
        self.ari_imm(6, rd, imm);
    }

    /// `cmp r64, imm32` (sign-extended)
    pub fn cmp_ri64(&mut self, rd: u8, imm: u32)
        ensures
            final(self)@ == old(self)@ + enc_ari_imm(7, rd, imm),
    {
        self.ari_imm(7, rd, imm);
    }

    /// `op r/m32, imm32` (no REX.W): 32-bit flags, upper half cleared.
    fn ari_imm32(&mut self, op: u8, rd: u8, imm: u32)
        ensures
            final(self)@ == old(self)@ + enc_ari_imm32(op, rd, imm),
    {
        if rd >= 8 {
            self.b(0x41);
        }
        self.b(0x81);
        self.b(modrm(3, op, rd & 7));
        self.u32(imm);
    }

    /// `add r32, imm32`
    pub fn add_ri32(&mut self, rd: u8, imm: u32)
        ensures
            final(self)@ == old(self)@ + enc_ari_imm32(0, rd, imm),
    {
        self.ari_imm32(0, rd, imm);
    }

    /// `sub r32, imm32`
    pub fn sub_ri32(&mut self, rd: u8, imm: u32)
        ensures
            final(self)@ == old(self)@ + enc_ari_imm32(5, rd, imm),
    {
        self.ari_imm32(5, rd, imm);
    }

    // ---- shifts ----

    /// `shift r/m64, cl` with the group-2 extension `op`.
    fn shift_cl(&mut self, op: u8, rd: u8)
        ensures
            final(self)@ == old(self)@ + enc_shift_cl(op, rd),
    {
        if rd >= 8 {
            self.b(0x49);
        } else {
            self.b(0x48);
        }
        self.b(0xD3);
        self.b(modrm(3, op, rd & 7));
    }

    /// `shl r64, cl`
    pub fn shl_cl64(&mut self, rd: u8)
        ensures
            final(self)@ == old(self)@ + enc_shift_cl(4, rd),
    {
        self.shift_cl(4, rd);
    }

    /// `shr r64, cl`
    pub fn shr_cl64(&mut self, rd: u8)
        ensures
            final(self)@ == old(self)@ + enc_shift_cl(5, rd),
    {
        self.shift_cl(5, rd);
    }

    /// `sar r64, cl`
    pub fn sar_cl64(&mut self, rd: u8)
        ensures
            final(self)@ == old(self)@ + enc_shift_cl(7, rd),
    {
        self.shift_cl(7, rd);
    }

    /// `ror r64, cl`
    pub fn ror_cl64(&mut self, rd: u8)
        ensures
            final(self)@ == old(self)@ + enc_shift_cl(1, rd),
    {
        self.shift_cl(1, rd);
    }

    /// `shl r64, imm8`
    pub fn shl_ri8(&mut self, rd: u8, imm: u8)
        ensures
            final(self)@ == old(self)@ + enc_shift_ri8(4, rd, imm),
    {
        self.b(if rd >= 8 { 0x49 } else { 0x48 });
        self.b(0xC1);
        self.b(modrm(3, 4, rd & 7));
        self.b(imm);
    }

    /// `shr r64, imm8`
    pub fn shr_ri8(&mut self, rd: u8, imm: u8)
        ensures
            final(self)@ == old(self)@ + enc_shift_ri8(5, rd, imm),
    {
        self.b(if rd >= 8 { 0x49 } else { 0x48 });
        self.b(0xC1);
        self.b(modrm(3, 5, rd & 7));
        self.b(imm);
    }

    /// `sar r64, imm8` (arithmetic shift right)
    pub fn sar_ri8(&mut self, rd: u8, imm: u8)
        ensures
            final(self)@ == old(self)@ + enc_shift_ri8(7, rd, imm),
    {
        self.b(if rd >= 8 { 0x49 } else { 0x48 });
        self.b(0xC1);
        self.b(modrm(3, 7, rd & 7));
        self.b(imm);
    }

    /// `sar r32, imm8`: 32-bit arithmetic shift taking the sign from bit 31
    pub fn sar32_ri8(&mut self, rd: u8, imm: u8)
        ensures
            final(self)@ == old(self)@ + enc_shift32_ri8(7, rd, imm),
    {
        if rd & 8 != 0 {
            self.b(0x41);
        }
        self.b(0xC1);
        self.b(modrm(3, 7, rd & 7));
        self.b(imm);
    }

    /// `ror r64, imm8` (rotate right)
    pub fn ror_ri8(&mut self, rd: u8, imm: u8)
        ensures
            final(self)@ == old(self)@ + enc_shift_ri8(1, rd, imm),
    {
        self.b(if rd >= 8 { 0x49 } else { 0x48 });
        self.b(0xC1);
        self.b(modrm(3, 1, rd & 7));
        self.b(imm);
    }

    /// `ror r32, imm8`: 32-bit rotate right
    pub fn ror32_ri8(&mut self, rd: u8, imm: u8)
        ensures
            final(self)@ == old(self)@ + enc_shift32_ri8(1, rd, imm),
    {
        if rd & 8 != 0 {
            self.b(0x41);
        }
        self.b(0xC1);
        self.b(modrm(3, 1, rd & 7));
        self.b(imm);
    }

    /// `rol r16, imm8`: rotate the low 16 bits left, bits 63..16 untouched
    pub fn rol16_ri8(&mut self, rd: u8, imm: u8)
        ensures
            final(self)@ == old(self)@ + enc_rol16_ri8(rd, imm),
    {
        self.b(0x66);  // 16-bit operand-size prefix
        if rd & 8 != 0 {
            self.b(0x41);  // REX.B for a high register
        }
        self.b(0xC1);
        self.b(modrm(3, 0, rd & 7));
        self.b(imm);
    }

    /// `bswap r32`: reverse the byte order of the low 32 bits
    pub fn bswap_r32(&mut self, rd: u8)
        ensures
            final(self)@ == old(self)@ + enc_bswap(false, rd),
    {
        if rd >= 8 {
            self.b(0x41);
        }
        self.b(0x0F);
        self.b(0xC8 | (rd & 7));
    }

    /// `bswap r64`: reverse the byte order of all 64 bits
    pub fn bswap_r64(&mut self, rd: u8)
        ensures
            final(self)@ == old(self)@ + enc_bswap(true, rd),
    {
        self.b(if rd >= 8 {
            0x49
        } else {
            0x48
        });
        self.b(0x0F);
        self.b(0xC8 | (rd & 7));
    }

    // ---- control flow ----

    /// Emit a zero rel32 field and return its offset.
    fn patch_here(&mut self) -> (off: usize)
        ensures
            final(self)@ == old(self)@ + seq![0u8, 0u8, 0u8, 0u8],
            off == old(self)@.len(),
    {
        self.u32(0);
        proof {
            lemma_le32_zero();
        }
        self.len() - 4
    }

    /// `jmp rel32` with a zero displacement; returns the offset of the
    /// displacement field for later patching
    pub fn jmp_rel32(&mut self) -> (off: usize)
        ensures
            final(self)@ == old(self)@ + seq![0xE9u8, 0u8, 0u8, 0u8, 0u8],
            off == old(self)@.len() + 1,
    {
        self.b(0xE9);
        self.patch_here()
    }

    /// `jcc rel32` (0F cc) with a zero displacement; `cc` is the second
    /// opcode byte (0x84 = JE). Returns the offset of the displacement field.
    pub fn jcc_rel32(&mut self, cc: u8) -> (off: usize)
        ensures
            final(self)@ == old(self)@ + seq![0x0Fu8, cc, 0u8, 0u8, 0u8, 0u8],
            off == old(self)@.len() + 2,
    {
        self.b(0x0F);
        self.b(cc);
        self.patch_here()
    }

    /// `jne rel8`: jump `disp` bytes past the end of this 2-byte instruction
    /// when ZF is clear
    pub fn jne_rel8(&mut self, disp: u8)
        ensures
            final(self)@ == old(self)@ + seq![0x75u8, disp],
    {
        self.b(0x75);
        self.b(disp);
    }

    /// `jz rel8`: as `jne_rel8`, when ZF is set
    pub fn jz_rel8(&mut self, disp: u8)
        ensures
            final(self)@ == old(self)@ + seq![0x74u8, disp],
    {
        self.b(0x74);
        self.b(disp);
    }

    /// `cmovcc r64, r/m64` (0F cc /r), where `cc` is the jcc second byte
    /// minus 0x40 (e.g. 0x45 = cmovne); reg = rd (dst), rm = rs (src)
    pub fn cmov_rr64(&mut self, cc: u8, rd: u8, rs: u8)
        ensures
            final(self)@ == old(self)@ + enc_cmov_rr64(cc, rd, rs),
    {
        if rd >= 8 || rs >= 8 {
            self.b(rex(true, rd, 0, rs));
        } else {
            self.b(0x48);
        }
        self.b(0x0F);
        self.b(cc);
        self.b(modrm(3, rd & 7, rs & 7));
    }

    /// `call r64`
    pub fn call_r64(&mut self, rd: u8)
        ensures
            final(self)@ == old(self)@ + enc_call_r64(rd),
    {
        if rd >= 8 {
            self.b(0x41);
        }
        self.b(0xFF);
        self.b(modrm(3, 2, rd & 7));
    }

    /// `call rel32` with a zero displacement; returns the offset of the
    /// displacement field
    pub fn call_rel32(&mut self) -> (off: usize)
        ensures
            final(self)@ == old(self)@ + seq![0xE8u8, 0u8, 0u8, 0u8, 0u8],
            off == old(self)@.len() + 1,
    {
        self.b(0xE8);
        self.patch_here()
    }

    /// Point the rel32 field at `off` at the buffer offset `target`: the
    /// displacement counts from the end of the field.
    pub(crate) fn patch_rel32_at(&mut self, off: usize, target: usize)
        requires
            off + 4 <= old(self)@.len(),
        ensures
            final(self)@ == splice(old(self)@, off as int, le32(rel32_disp(off + 4, target as int))),
    {
        patch_rel32(&mut self.bytes, off, 0, target);
    }

    /// `ret`
    pub fn ret(&mut self)
        ensures
            final(self)@ == old(self)@ + seq![0xC3u8],
    {
        self.b(0xC3);
    }

    /// `push r64`
    pub fn push(&mut self, r: u8)
        ensures
            final(self)@ == old(self)@ + enc_push(r),
    {
        if r >= 8 {
            self.b(0x41);
        }
        proof {
            lemma_mask_bounds(r);
        }
        self.b(0x50 + (r & 7));
    }

    /// `pushfq`: push RFLAGS
    pub fn pushfq(&mut self)
        ensures
            final(self)@ == old(self)@ + seq![0x9Cu8],
    {
        self.b(0x9C);
    }

    /// `pop r64`
    pub fn pop(&mut self, r: u8)
        ensures
            final(self)@ == old(self)@ + enc_pop(r),
    {
        if r >= 8 {
            self.b(0x41);
        }
        proof {
            lemma_mask_bounds(r);
        }
        self.b(0x58 + (r & 7));
    }

    /// `popfq`: pop RFLAGS
    pub fn popfq(&mut self)
        ensures
            final(self)@ == old(self)@ + seq![0x9Du8],
    {
        self.b(0x9D);
    }

    /// Pad with NOPs (0x90) until the length is a multiple of `n`.
    pub fn align_to(&mut self, n: usize)
        requires
            n > 0,
        ensures
            final(self)@ == old(self)@ + Seq::new(
                align_pad(old(self)@.len(), n as nat),
                |i: int| 0x90u8,
            ),
            final(self)@.len() % (n as nat) == 0,
    {
        let ghost start = self@;
        let ghost pad = align_pad(start.len(), n as nat);
        proof {
            lemma_align_pad(start.len(), n as nat, 0);
        }
        while self.len() % n != 0
            invariant
                n > 0,
                pad == align_pad(start.len(), n as nat),
                start.len() <= self@.len() <= start.len() + pad,
                self@ == start + Seq::new((self@.len() - start.len()) as nat, |i: int| 0x90u8),
                (self@.len() % (n as nat) == 0) == (self@.len() == start.len() + pad),
            decreases start.len() + pad - self@.len(),
        {
            self.b(0x90);
            proof {
                lemma_align_pad(start.len(), n as nat, (self@.len() - start.len()) as nat);
            }
        }
    }
}

/// The displacement `patch_rel32` writes, `target - next` modulo 2^32, is
/// the 32-bit wrapping difference of the two addresses' low 32 bits.
pub proof fn law_rel32_disp_wrapping(t: usize, n: usize)
    ensures
        vstd::wrapping::u32_specs::wrapping_sub(t as u32, n as u32) == rel32_disp(n as int, t as int),
{
    let m: int = 0x1_0000_0000;
    assert(t as u32 == (t as u64 % 0x1_0000_0000u64) as u32) by (bit_vector);
    assert(n as u32 == (n as u64 % 0x1_0000_0000u64) as u32) by (bit_vector);
    let a = (t as int) % m;
    let b = (n as int) % m;
    assert(t as u32 == a);
    assert(n as u32 == b);
    vstd::arithmetic::div_mod::lemma_fundamental_div_mod(t as int, m);
    vstd::arithmetic::div_mod::lemma_fundamental_div_mod(n as int, m);
    let qt = (t as int) / m;
    let qn = (n as int) / m;
    assert(a - b == (t - n) + m * (qn - qt));
    vstd::arithmetic::div_mod::lemma_mod_multiples_vanish(qn - qt, t - n, m);
    let w = vstd::wrapping::u32_specs::wrapping_sub(t as u32, n as u32);
    if a - b < 0 {
        assert(w == a - b + m);
        vstd::arithmetic::div_mod::lemma_mod_add_multiples_vanish(a - b, m);
        vstd::arithmetic::div_mod::lemma_small_mod((a - b + m) as nat, m as nat);
    } else {
        vstd::arithmetic::div_mod::lemma_small_mod((a - b) as nat, m as nat);
    }
}

/// Patch the 4-byte rel32 field at `from + off` of `buf` so that the jump
/// whose next instruction starts at `from + off + 4` lands on `target`.
pub fn patch_rel32(buf: &mut Vec<u8>, off: usize, from: usize, target: usize)
    requires
        from + off + 4 <= old(buf)@.len(),
    ensures
        final(buf)@ == splice(old(buf)@, from + off, le32(rel32_disp(from + off + 4, target as int))),
{
    let _len = buf.len();  // the length is a usize, so `from + off + 4` fits
    let next = from + off + 4;
    let disp = (target as u32).wrapping_sub(next as u32);
    proof {
        law_rel32_disp_wrapping(target, next);
    }
    let at = off + from;
    buf.set(at, disp as u8);
    buf.set(at + 1, (disp >> 8) as u8);
    buf.set(at + 2, (disp >> 16) as u8);
    buf.set(at + 3, (disp >> 24) as u8);
    assert(buf@ =~= splice(old(buf)@, at as int, le32(disp)));
}

// ---- what the encodings mean ------------------------------------------------

/// The ModRM byte keeps its three fields apart: `mod` in bits 7..6, `reg` in
/// bits 5..3 and `rm` in bits 2..0, each taken modulo its width.
pub proof fn law_modrm_fields(md: u8, reg: u8, rm: u8)
    ensures
        modrm_byte(md, reg, rm) >> 6u8 == md & 3,
        (modrm_byte(md, reg, rm) >> 3u8) & 7 == reg & 7,
        modrm_byte(md, reg, rm) & 7 == rm & 7,
{
    assert({
        let v = ((md & 3) << 6u8) | ((reg & 7) << 3u8) | (rm & 7);
        &&& v >> 6u8 == md & 3
        &&& (v >> 3u8) & 7 == reg & 7
        &&& v & 7 == rm & 7
    }) by (bit_vector);
}

/// The REX prefix is `0100WRXB`: its high nibble is 4 and W, R, X, B are
/// `w` and bit 3 of `r`, `x`, `b`.
pub proof fn law_rex_fields(w: bool, r: u8, x: u8, b: u8)
    ensures
        rex_byte(w, r, x, b) >> 4u8 == 4,
        ((rex_byte(w, r, x, b) >> 3u8) & 1 == 1) == w,
        (rex_byte(w, r, x, b) >> 2u8) & 1 == (r >> 3u8) & 1,
        (rex_byte(w, r, x, b) >> 1u8) & 1 == (x >> 3u8) & 1,
        rex_byte(w, r, x, b) & 1 == (b >> 3u8) & 1,
{
    assert({
        let v = 0x40u8 | (if w {
            8u8
        } else {
            0u8
        }) | (if r & 8 != 0 {
            4u8
        } else {
            0u8
        }) | (if x & 8 != 0 {
            2u8
        } else {
            0u8
        }) | (if b & 8 != 0 {
            1u8
        } else {
            0u8
        });
        &&& v >> 4u8 == 4
        &&& ((v >> 3u8) & 1 == 1) == w
        &&& (v >> 2u8) & 1 == (r >> 3u8) & 1
        &&& (v >> 1u8) & 1 == (x >> 3u8) & 1
        &&& v & 1 == (b >> 3u8) & 1
    }) by (bit_vector);
}

/// The little-endian value of a byte sequence.
pub open spec fn le_value(s: Seq<u8>) -> nat
    decreases s.len(),
{
    if s.len() == 0 {
        0
    } else {
        (s[0] + 256 * le_value(s.drop_first())) as nat
    }
}

/// The value of four little-endian bytes.
proof fn lemma_le_value4(s: Seq<u8>)
    requires
        s.len() == 4,
    ensures
        le_value(s) == s[0] + 256 * s[1] + 65536 * s[2] + 16777216 * s[3],
{
    reveal_with_fuel(le_value, 5);
    assert(s.drop_first().drop_first().drop_first().drop_first().len() == 0);
}

/// Reading back the bytes of `le32(v)` gives `v`.
pub proof fn law_le32_value(v: u32)
    ensures
        le_value(le32(v)) == v,
{
    lemma_le_value4(le32(v));
    assert(v as int == (v as u8) as int + 256 * ((v >> 8u32) as u8) as int + 65536 * ((v
        >> 16u32) as u8) as int + 16777216 * ((v >> 24u32) as u8) as int) by (bit_vector);
}

/// Reading back the bytes of `le64(v)` gives `v`.
pub proof fn law_le64_value(v: u64)
    ensures
        le_value(le64(v)) == v,
{
    reveal_with_fuel(le_value, 9);
    let s = le64(v);
    assert(s.drop_first().drop_first().drop_first().drop_first().drop_first().drop_first().drop_first().drop_first().len()
        == 0);
    assert(v as int == (v as u8) as int + 256 * ((v >> 8u64) as u8) as int + 65536 * ((v
        >> 16u64) as u8) as int + 16777216 * ((v >> 24u64) as u8) as int + 4294967296 * ((v
        >> 32u64) as u8) as int + 1099511627776 * ((v >> 40u64) as u8) as int + 281474976710656
        * ((v >> 48u64) as u8) as int + 72057594037927936 * ((v >> 56u64) as u8) as int)
        by (bit_vector);
}

/// The displacement that a ModRM (+ displacement) encoding of `[base + disp]`
/// denotes: none for `mod` 0, a sign-extended byte for `mod` 1, a 32-bit
/// little-endian value for `mod` 2.
pub open spec fn mem_disp(s: Seq<u8>) -> int {
    let md = s[0] >> 6u8;
    if md == 0 {
        0
    } else if md == 1 {
        s[1] as i8 as int
    } else {
        le_value(s.subrange(1, 5)) as u32 as i32 as int
    }
}

/// The memory operand `[base + disp]` is encoded faithfully: its ModRM names
/// `reg` and `base` (modulo 8, the REX prefix supplying bit 3), and its
/// displacement decodes to `disp`. A `mod` of 0 never meets an rm of 5, which
/// would mean RIP-relative addressing.
pub proof fn law_enc_mem(reg: u8, base: u8, disp: i32)
    ensures
        ({
            let s = enc_mem(reg, base, disp);
            &&& (s[0] >> 3u8) & 7 == reg & 7
            &&& s[0] & 7 == base & 7
            &&& !(s[0] >> 6u8 == 0 && s[0] & 7 == 5)
            &&& mem_disp(s) == disp
        }),
{
    let s = enc_mem(reg, base, disp);
    let m = disp_mode(disp);
    assert(0u8 & 3 == 0 && 1u8 & 3 == 1 && 2u8 & 3 == 2 && (disp as u32) as i32 == disp && (base & 7) & 7
        == base & 7) by (bit_vector);
    if m == 0 && base & 7 != 5 {
        law_modrm_fields(0, reg, base & 7);
    } else if m == 1 {
        law_modrm_fields(1, reg, base & 7);
        assert((disp as u8) as i8 == disp) by (bit_vector)
            requires
                -128 <= disp < 128,
        ;
    } else {
        law_modrm_fields(2, reg, base & 7);
        assert(s.subrange(1, 5) =~= le32(disp as u32));
        law_le32_value(disp as u32);
    }
}

/// The bytes of the memory operand `[base + disp]`, field by field, with
/// `m(md) = (md << 6) | ((reg & 7) << 3) | (base & 7)`: `m(0)` alone for no
/// displacement off a base other than RBP/R13, `m(1)` and the byte for a
/// nonzero displacement in -128..128, else (a zero displacement off RBP/R13
/// included) `m(2)` and the 32-bit displacement. The operand can be emitted
/// for every base but RSP and R12, which would need a SIB byte.
pub proof fn law_enc_mem_layout(reg: u8, base: u8, disp: i32)
    ensures
        mem_base_ok(base) <==> base != 4 && base != 12,
        enc_mem(reg, base, disp) == (if disp == 0 && base & 7 != 5 {
            seq![(0u8 << 6u8) | ((reg & 7) << 3u8) | (base & 7)]
        } else if disp != 0 && -128 <= disp < 128 {
            seq![(1u8 << 6u8) | ((reg & 7) << 3u8) | (base & 7), disp as u8]
        } else {
            seq![(2u8 << 6u8) | ((reg & 7) << 3u8) | (base & 7)] + le32(disp as u32)
        }),
{
    assert(0u8 & 3 == 0 && 1u8 & 3 == 1 && 2u8 & 3 == 2 && (base & 7) & 7 == base & 7) by (bit_vector);
}

/// The signed value of a rel32 field.
pub open spec fn rel32_value(s: Seq<u8>, at: int) -> int {
    le_value(s.subrange(at, at + 4)) as u32 as i32 as int
}

/// After `patch_rel32(buf, off, from, target)` the rel32 field at
/// `from + off` makes the jump land on `target`: the address of the next
/// instruction plus the signed displacement is `target`, whenever `target`
/// is within the +-2 GiB reach of a rel32; the other bytes are unchanged.
pub proof fn law_patch_rel32_lands(old: Seq<u8>, off: int, from: int, target: int)
    requires
        0 <= from,
        0 <= off,
        from + off + 4 <= old.len(),
        -0x8000_0000 <= target - (from + off + 4) < 0x8000_0000,
    ensures
        ({
            let next = from + off + 4;
            let new = splice(old, from + off, le32(rel32_disp(next, target)));
            &&& new.len() == old.len()
            &&& next + rel32_value(new, from + off) == target
            &&& forall|i: int| 0 <= i < old.len() && !(from + off <= i < next) ==> new[i] == old[i]
        }),
{
    let next = from + off + 4;
    let d = rel32_disp(next, target);
    let new = splice(old, from + off, le32(d));
    assert(new.subrange(from + off, next) =~= le32(d));
    law_le32_value(d);
    let delta = target - next;
    if delta >= 0 {
        vstd::arithmetic::div_mod::lemma_small_mod(delta as nat, 0x1_0000_0000);
        assert(d == delta);
        assert(d < 0x8000_0000 ==> d as i32 == d) by (bit_vector);
    } else {
        vstd::arithmetic::div_mod::lemma_mod_add_multiples_vanish(delta, 0x1_0000_0000);
        vstd::arithmetic::div_mod::lemma_small_mod((delta + 0x1_0000_0000) as nat, 0x1_0000_0000);
        assert(d == delta + 0x1_0000_0000);
        assert(d >= 0x8000_0000 ==> d as i32 == d - 0x1_0000_0000) by (bit_vector);
    }
}

} // verus!
