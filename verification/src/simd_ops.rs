//! Vector (NEON) instructions lowered lane by lane through general
//! registers or whole through SSE registers. A guest vector register is the
//! 16-byte slot at `vslot_of(r)` in `CpuState`.
use vstd::prelude::*;
use crate::fp_ops::vslot;
use crate::translate::{ldg, ldg_bytes, permute_off, permute_prog, permute_source, slot_of, vslot_of};
use crate::machine::prog_bytes;
use crate::x86::{
    enc_ari_imm, enc_binop, enc_bswap, enc_rol16_ri8, enc_cmov_rr64, enc_mov_rr64, enc_shift_ri8, enc_mov_load32, enc_mov_load64, enc_mov_ri64, enc_mov_store16,
    enc_mov_store32, enc_mov_store64, enc_mov_store8, enc_movdqu_load, enc_movdqu_ones,
    enc_movdqu_store, enc_movsx_byte_mem, enc_movsx_word_mem, enc_movzx_byte_mem, enc_movzx_word_mem,
    enc_shift_cl, enc_sse_rr, enc_zero_ext_r32, modrm_byte, rex_w, CodeBuf, RAX, RBX, RCX, RDI, RDX,
    R10,
};

verus! {

/// The byte offset `k` inside the slot of vector register `r`.
pub open spec fn lane_off(r: u8, k: int) -> i32 {
    (vslot_of(r) + k) as i32
}

/// The byte offset `index * esize` of an element.
#[verifier::spinoff_prover]
pub(crate) fn elem_off(index: u8, esize: u8) -> (o: i32)
    ensures
        o == index * esize,
        0 <= o <= 65025,
{
    proof {
        assert(0 <= index * esize <= 255 * 255) by (nonlinear_arith)
            requires
                index <= 255,
                esize <= 255,
        ;
    }
    (index as i32) * (esize as i32)
}

/// MOV Vd.D[1], Vn.D[0]: the low 64 bits of `rn` into the high 64 of `rd`.
pub open spec fn ins_d1d0_bytes(rd: u8, rn: u8) -> Seq<u8> {
    enc_mov_load64(RAX, RBX, vslot_of(rn)) + enc_mov_store64(RBX, lane_off(rd, 8), RAX)
}

#[verifier::spinoff_prover]
pub(crate) fn translate_ins_d1d0(buf: &mut CodeBuf, rd: u8, rn: u8)
    ensures
        final(buf)@ == old(buf)@ + ins_d1d0_bytes(rd, rn),
{
    let ghost start = buf@;
    buf.mov_load64(RAX, RBX, vslot(rn));
    buf.mov_store64(RBX, vslot(rd) + 8, RAX);
    proof {
        assert(buf@ =~= start + ins_d1d0_bytes(rd, rn));
    }
}

/// A whole-register SSE operation: `rn` into XMM0 (the register numbered
/// `a`), `rm` into XMM`b`, `op` XMM`a`, XMM`b`, the result to `rd`.
pub open spec fn sse3_bytes(rd: u8, rn: u8, rm: u8, op: u8, a: u8, b: u8) -> Seq<u8> {
    enc_movdqu_load(a, RBX, vslot_of(rn)) + enc_movdqu_load(b, RBX, vslot_of(rm)) + enc_sse_rr(
        0x66,
        op,
        a,
        b,
    ) + enc_movdqu_store(RBX, vslot_of(rd), a)
}

/// ADD (`op` 0, `paddd`) or SUB (`op` 1, `psubd`) of the four 32-bit lanes;
/// nothing for another `op`.
pub open spec fn simd4s_bytes(rd: u8, rn: u8, rm: u8, op: u8) -> Seq<u8> {
    if op == 0 {
        sse3_bytes(rd, rn, rm, 0xFE, 0, 1)
    } else if op == 1 {
        sse3_bytes(rd, rn, rm, 0xFA, 0, 1)
    } else {
        Seq::empty()
    }
}

#[verifier::spinoff_prover]
pub(crate) fn translate_simd4s(buf: &mut CodeBuf, rd: u8, rn: u8, rm: u8, op: u8) -> (ok: bool)
    ensures
        ok == (op <= 1),
        final(buf)@ == old(buf)@ + simd4s_bytes(rd, rn, rm, op),
{
    let ghost start = buf@;
    if op > 1 {
        proof {
            assert(buf@ =~= start + simd4s_bytes(rd, rn, rm, op));
        }
        return false;
    }
    buf.movdqu_load(0, RBX, vslot(rn));
    buf.movdqu_load(1, RBX, vslot(rm));
    if op == 0 {
        buf.paddd(0, 1);
    } else {
        buf.psubd(0, 1);
    }
    buf.movdqu_store(RBX, vslot(rd), 0);
    proof {
        assert(buf@ =~= start + simd4s_bytes(rd, rn, rm, op));
    }
    true
}

/// ADD/SUB of the byte lanes (`paddb`/`psubb`), always on all 16 bytes.
pub open spec fn simd_add_b_bytes(rd: u8, rn: u8, rm: u8, sub: bool) -> Seq<u8> {
    sse3_bytes(rd, rn, rm, if sub { 0xF8 } else { 0xFC }, RAX, RCX)
}

#[verifier::spinoff_prover]
pub(crate) fn translate_simd_add_b(buf: &mut CodeBuf, rd: u8, rn: u8, rm: u8, sub: bool)
    ensures
        final(buf)@ == old(buf)@ + simd_add_b_bytes(rd, rn, rm, sub),
{
    let ghost start = buf@;
    buf.movdqu_load(RAX, RBX, vslot(rn));
    buf.movdqu_load(RCX, RBX, vslot(rm));
    if sub {
        buf.psubb(RAX, RCX);
    } else {
        buf.paddb(RAX, RCX);
    }
    buf.movdqu_store(RBX, vslot(rd), RAX);
    proof {
        assert(buf@ =~= start + simd_add_b_bytes(rd, rn, rm, sub));
    }
}

/// ADD/SUB of the halfword lanes (`paddw`/`psubw`); the 4H form writes all
/// 16 bytes too.
pub open spec fn simd_add_h_bytes(rd: u8, rn: u8, rm: u8, sub: bool) -> Seq<u8> {
    sse3_bytes(rd, rn, rm, if sub { 0xF9 } else { 0xFD }, RAX, RCX)
}

#[verifier::spinoff_prover]
pub(crate) fn translate_simd_add_h(buf: &mut CodeBuf, rd: u8, rn: u8, rm: u8, sub: bool)
    ensures
        final(buf)@ == old(buf)@ + simd_add_h_bytes(rd, rn, rm, sub),
{
    let ghost start = buf@;
    buf.movdqu_load(RAX, RBX, vslot(rn));
    buf.movdqu_load(RCX, RBX, vslot(rm));
    if sub {
        buf.psubw(RAX, RCX);
    } else {
        buf.paddw(RAX, RCX);
    }
    buf.movdqu_store(RBX, vslot(rd), RAX);
    proof {
        assert(buf@ =~= start + simd_add_h_bytes(rd, rn, rm, sub));
    }
}

/// MVN: all 16 bytes of `rn` xor-ed with all ones.
pub open spec fn simd_not_bytes(rd: u8, rn: u8) -> Seq<u8> {
    enc_movdqu_load(RAX, RBX, vslot_of(rn)) + enc_movdqu_ones(RCX) + enc_sse_rr(0x66, 0xEF, RAX, RCX)
        + enc_movdqu_store(RBX, vslot_of(rd), RAX)
}

#[verifier::spinoff_prover]
pub(crate) fn translate_simd_not(buf: &mut CodeBuf, rd: u8, rn: u8)
    ensures
        final(buf)@ == old(buf)@ + simd_not_bytes(rd, rn),
{
    let ghost start = buf@;
    buf.movdqu_load(RAX, RBX, vslot(rn));
    buf.movdqu_ones(RCX);
    buf.pxor_xmm(RAX, RCX);
    buf.movdqu_store(RBX, vslot(rd), RAX);
    proof {
        assert(buf@ =~= start + simd_not_bytes(rd, rn));
    }
}

/// DUP Vd.2D, Vn.D[index]: the selected 64-bit lane into both lanes.
pub open spec fn simd_dup_d_bytes(rd: u8, rn: u8, index: u8) -> Seq<u8> {
    enc_mov_load64(RAX, RBX, lane_off(rn, index * 8)) + enc_mov_store64(RBX, vslot_of(rd), RAX)
        + enc_mov_store64(RBX, lane_off(rd, 8), RAX)
}

#[verifier::spinoff_prover]
pub(crate) fn translate_simd_dup_d(buf: &mut CodeBuf, rd: u8, rn: u8, index: u8)
    ensures
        final(buf)@ == old(buf)@ + simd_dup_d_bytes(rd, rn, index),
{
    let ghost start = buf@;
    buf.mov_load64(RAX, RBX, vslot(rn) + (index as i32) * 8);
    buf.mov_store64(RBX, vslot(rd), RAX);
    buf.mov_store64(RBX, vslot(rd) + 8, RAX);
    proof {
        assert(buf@ =~= start + simd_dup_d_bytes(rd, rn, index));
    }
}

/// ADDP Dd, Vn.2D: the sum of the two 64-bit lanes into the low half of
/// `rd` (its high half kept).
pub open spec fn simd_pair_add_d_bytes(rd: u8, rn: u8) -> Seq<u8> {
    enc_mov_load64(RAX, RBX, vslot_of(rn)) + enc_mov_load64(RCX, RBX, lane_off(rn, 8)) + enc_binop(
        0x01,
        RAX,
        RCX,
    ) + enc_mov_store64(RBX, vslot_of(rd), RAX)
}

#[verifier::spinoff_prover]
pub(crate) fn translate_simd_pair_add_d(buf: &mut CodeBuf, rd: u8, rn: u8)
    ensures
        final(buf)@ == old(buf)@ + simd_pair_add_d_bytes(rd, rn),
{
    let ghost start = buf@;
    buf.mov_load64(RAX, RBX, vslot(rn));
    buf.mov_load64(RCX, RBX, vslot(rn) + 8);
    buf.add_rr64(RAX, RCX);
    buf.mov_store64(RBX, vslot(rd), RAX);
    proof {
        assert(buf@ =~= start + simd_pair_add_d_bytes(rd, rn));
    }
}

/// One 64-bit lane at byte `k` of a two-operand operation `op` (the
/// register-register opcode: 0x01 add, 0x29 sub, 0x09 or).
pub open spec fn lane64_bytes(rd: u8, rn: u8, rm: u8, k: int, op: u8) -> Seq<u8> {
    enc_mov_load64(RAX, RBX, lane_off(rn, k)) + enc_mov_load64(RCX, RBX, lane_off(rm, k)) + enc_binop(
        op,
        RAX,
        RCX,
    ) + enc_mov_store64(RBX, lane_off(rd, k), RAX)
}

#[verifier::spinoff_prover]
fn lane64(buf: &mut CodeBuf, rd: u8, rn: u8, rm: u8, k: i32, op: u8)
    requires
        k == 0 || k == 8,
        op == 0x01 || op == 0x29 || op == 0x09,
    ensures
        final(buf)@ == old(buf)@ + lane64_bytes(rd, rn, rm, k as int, op),
{
    let ghost start = buf@;
    buf.mov_load64(RAX, RBX, vslot(rn) + k);
    buf.mov_load64(RCX, RBX, vslot(rm) + k);
    if op == 0x01 {
        buf.add_rr64(RAX, RCX);
    } else if op == 0x29 {
        buf.sub_rr64(RAX, RCX);
    } else {
        buf.or_rr64(RAX, RCX);
    }
    buf.mov_store64(RBX, vslot(rd) + k, RAX);
    proof {
        assert(buf@ =~= start + lane64_bytes(rd, rn, rm, k as int, op));
    }
}

/// ADD/SUB Vd.2D: each 64-bit lane through RAX and RCX.
pub open spec fn simd_add_d_bytes(rd: u8, rn: u8, rm: u8, sub: bool) -> Seq<u8> {
    let op: u8 = if sub { 0x29 } else { 0x01 };
    lane64_bytes(rd, rn, rm, 0, op) + lane64_bytes(rd, rn, rm, 8, op)
}

#[verifier::spinoff_prover]
pub(crate) fn translate_simd_add_d(buf: &mut CodeBuf, rd: u8, rn: u8, rm: u8, sub: bool)
    ensures
        final(buf)@ == old(buf)@ + simd_add_d_bytes(rd, rn, rm, sub),
{
    let ghost start = buf@;
    let op: u8 = if sub { 0x29 } else { 0x01 };
    lane64(buf, rd, rn, rm, 0, op);
    lane64(buf, rd, rn, rm, 8, op);
    proof {
        assert(buf@ =~= start + simd_add_d_bytes(rd, rn, rm, sub));
    }
}

/// ORR Vd.16B (also MOV when `rm == rn`): 8 bytes at a time.
pub open spec fn simd_orr16_bytes(rd: u8, rn: u8, rm: u8) -> Seq<u8> {
    lane64_bytes(rd, rn, rm, 0, 0x09) + lane64_bytes(rd, rn, rm, 8, 0x09)
}

#[verifier::spinoff_prover]
pub(crate) fn translate_simd_orr16(buf: &mut CodeBuf, rd: u8, rn: u8, rm: u8)
    ensures
        final(buf)@ == old(buf)@ + simd_orr16_bytes(rd, rn, rm),
{
    let ghost start = buf@;
    lane64(buf, rd, rn, rm, 0, 0x09);
    lane64(buf, rd, rn, rm, 8, 0x09);
    proof {
        assert(buf@ =~= start + simd_orr16_bytes(rd, rn, rm));
    }
}

/// `imul rax, rcx`
pub open spec fn imul_bytes() -> Seq<u8> {
    seq![rex_w(RAX, RCX), 0x0Fu8, 0xAFu8, modrm_byte(3, RAX & 7, RCX & 7)]
}

/// One 32-bit lane `i` of MUL: the low 32 bits of the product.
pub open spec fn mul_lane_bytes(rd: u8, rn: u8, rm: u8, i: int) -> Seq<u8> {
    enc_mov_load32(RAX, RBX, lane_off(rn, 4 * i)) + enc_mov_load32(RCX, RBX, lane_off(rm, 4 * i))
        + imul_bytes() + enc_mov_store32(RBX, lane_off(rd, 4 * i), RAX)
}

/// MUL Vd.4S/2S: the first `n` 32-bit lanes.
pub open spec fn simd_mul_bytes(rd: u8, rn: u8, rm: u8, n: nat) -> Seq<u8>
    decreases n,
{
    if n == 0 {
        Seq::empty()
    } else {
        simd_mul_bytes(rd, rn, rm, (n - 1) as nat) + mul_lane_bytes(rd, rn, rm, n - 1)
    }
}

#[verifier::spinoff_prover]
pub(crate) fn translate_simd_mul(buf: &mut CodeBuf, rd: u8, rn: u8, rm: u8, lanes: u8)
    ensures
        final(buf)@ == old(buf)@ + simd_mul_bytes(rd, rn, rm, lanes as nat),
{
    let ghost start = buf@;
    let mut i: u8 = 0;
    while i < lanes
        invariant
            i <= lanes,
            buf@ == start + simd_mul_bytes(rd, rn, rm, i as nat),
        decreases lanes - i,
    {
        let ghost before = buf@;
        let off = (i as i32) * 4;
        buf.mov_load32(RAX, RBX, vslot(rn) + off);
        buf.mov_load32(RCX, RBX, vslot(rm) + off);
        buf.imul_rr64(RAX, RCX);  // the low 32 bits are the lane product
        buf.mov_store32(RBX, vslot(rd) + off, RAX);
        proof {
            assert(buf@ =~= before + mul_lane_bytes(rd, rn, rm, i as int));
            assert(buf@ =~= start + simd_mul_bytes(rd, rn, rm, (i + 1) as nat));
        }
        i = i + 1;
    }
}

/// One 16-bit lane `i` of MUL (halfwords).
pub open spec fn mul_h_lane_bytes(rd: u8, rn: u8, rm: u8, i: int) -> Seq<u8> {
    enc_movzx_word_mem(RAX, RBX, lane_off(rn, 2 * i)) + enc_movzx_word_mem(RCX, RBX, lane_off(rm, 2 * i))
        + imul_bytes() + enc_mov_store16(RBX, lane_off(rd, 2 * i), RAX)
}

/// MUL Vd.8H/4H: the first `n` 16-bit lanes.
pub open spec fn simd_mul_h_bytes(rd: u8, rn: u8, rm: u8, n: nat) -> Seq<u8>
    decreases n,
{
    if n == 0 {
        Seq::empty()
    } else {
        simd_mul_h_bytes(rd, rn, rm, (n - 1) as nat) + mul_h_lane_bytes(rd, rn, rm, n - 1)
    }
}

#[verifier::spinoff_prover]
pub(crate) fn translate_simd_mul_h(buf: &mut CodeBuf, rd: u8, rn: u8, rm: u8, lanes: u8)
    ensures
        final(buf)@ == old(buf)@ + simd_mul_h_bytes(rd, rn, rm, lanes as nat),
{
    let ghost start = buf@;
    let mut i: u8 = 0;
    while i < lanes
        invariant
            i <= lanes,
            buf@ == start + simd_mul_h_bytes(rd, rn, rm, i as nat),
        decreases lanes - i,
    {
        let ghost before = buf@;
        let off = (i as i32) * 2;
        buf.movzx_word_mem(RAX, RBX, vslot(rn) + off);
        buf.movzx_word_mem(RCX, RBX, vslot(rm) + off);
        buf.imul_rr64(RAX, RCX);
        buf.mov_store16(RBX, vslot(rd) + off, RAX);
        proof {
            assert(buf@ =~= before + mul_h_lane_bytes(rd, rn, rm, i as int));
            assert(buf@ =~= start + simd_mul_h_bytes(rd, rn, rm, (i + 1) as nat));
        }
        i = i + 1;
    }
}

/// AND (`op` 0, `pand`), EOR (1, `pxor`), ORR (2, `por`) or BIC (`pandn`
/// of `rm` over `rn`, the result from XMM1) on the full 16 bytes.
pub open spec fn simd_vlog_bytes(rd: u8, rn: u8, rm: u8, op: u8) -> Seq<u8> {
    enc_movdqu_load(RAX, RBX, vslot_of(rn)) + enc_movdqu_load(RCX, RBX, vslot_of(rm)) + if op <= 2 {
        enc_sse_rr(0x66, if op == 0 { 0xDB } else if op == 1 { 0xEF } else { 0xEB }, RAX, RCX)
            + enc_movdqu_store(RBX, vslot_of(rd), RAX)
    } else {
        enc_sse_rr(0x66, 0xDF, RCX, RAX) + enc_movdqu_store(RBX, vslot_of(rd), RCX)
    }
}

#[verifier::spinoff_prover]
pub(crate) fn translate_simd_vlog(buf: &mut CodeBuf, rd: u8, rn: u8, rm: u8, op: u8)
    ensures
        final(buf)@ == old(buf)@ + simd_vlog_bytes(rd, rn, rm, op),
{
    let ghost start = buf@;
    buf.movdqu_load(RAX, RBX, vslot(rn));
    buf.movdqu_load(RCX, RBX, vslot(rm));
    if op == 0 {
        buf.pand(RAX, RCX);
        buf.movdqu_store(RBX, vslot(rd), RAX);
    } else if op == 1 {
        buf.pxor_xmm(RAX, RCX);
        buf.movdqu_store(RBX, vslot(rd), RAX);
    } else if op == 2 {
        buf.por(RAX, RCX);
        buf.movdqu_store(RBX, vslot(rd), RAX);
    } else {
        buf.pandn(RCX, RAX);  // BIC: !rm & rn
        buf.movdqu_store(RBX, vslot(rd), RCX);
    }
    proof {
        assert(buf@ =~= start + simd_vlog_bytes(rd, rn, rm, op));
    }
}

/// One 64-bit half at byte `k` of BIT/BIF: `(sel & rm) | (keep & !rm)`.
pub open spec fn bit_lane_bytes(rd: u8, sel: u8, keep: u8, rm: u8, k: int) -> Seq<u8> {
    enc_mov_load64(RAX, RBX, lane_off(sel, k)) + enc_mov_load64(RCX, RBX, lane_off(rm, k)) + enc_binop(
        0x21,
        RAX,
        RCX,
    ) + enc_mov_load64(RDX, RBX, lane_off(keep, k)) + enc_mov_ri64(RDI, 0xffff_ffff_ffff_ffff)
        + enc_binop(0x31, RCX, RDI) + enc_binop(0x21, RDX, RCX) + enc_binop(0x09, RAX, RDX)
        + enc_mov_store64(RBX, lane_off(rd, k), RAX)
}

#[verifier::spinoff_prover]
fn bit_lane(buf: &mut CodeBuf, rd: u8, sel: u8, keep: u8, rm: u8, k: i32)
    requires
        k == 0 || k == 8,
    ensures
        final(buf)@ == old(buf)@ + bit_lane_bytes(rd, sel, keep, rm, k as int),
{
    let ghost start = buf@;
    buf.mov_load64(RAX, RBX, vslot(sel) + k);
    buf.mov_load64(RCX, RBX, vslot(rm) + k);
    buf.and_rr64(RAX, RCX);  // sel & rm
    buf.mov_load64(RDX, RBX, vslot(keep) + k);
    buf.mov_ri64(RDI, 0xffff_ffff_ffff_ffff);
    buf.xor_rr64(RCX, RDI);  // !rm
    buf.and_rr64(RDX, RCX);  // keep & !rm
    buf.or_rr64(RAX, RDX);
    buf.mov_store64(RBX, vslot(rd) + k, RAX);
    proof {
        assert(buf@ =~= start + bit_lane_bytes(rd, sel, keep, rm, k as int));
    }
}

/// BIT (`rn` where `rm` is set, `rd` elsewhere) or BIF (`bif`: the other
/// way round), 8 bytes at a time.
pub open spec fn simd_bit_bytes(rd: u8, rn: u8, rm: u8, bif: bool) -> Seq<u8> {
    let sel = if bif { rd } else { rn };
    let keep = if bif { rn } else { rd };
    bit_lane_bytes(rd, sel, keep, rm, 0) + bit_lane_bytes(rd, sel, keep, rm, 8)
}

#[verifier::spinoff_prover]
pub(crate) fn translate_simd_bit(buf: &mut CodeBuf, rd: u8, rn: u8, rm: u8, bif: bool)
    ensures
        final(buf)@ == old(buf)@ + simd_bit_bytes(rd, rn, rm, bif),
{
    let ghost start = buf@;
    let sel = if bif { rd } else { rn };
    let keep = if bif { rn } else { rd };
    bit_lane(buf, rd, sel, keep, rm, 0);
    bit_lane(buf, rd, sel, keep, rm, 8);
    proof {
        assert(buf@ =~= start + simd_bit_bytes(rd, rn, rm, bif));
    }
}

/// BSL (`op` 0: `(rn & rd) | (!rd & rm)`) or the other select
/// (`(rn & !rm) | (rd & rm)`), on the full 16 bytes.
pub open spec fn simd_sel_bytes(rd: u8, rn: u8, rm: u8, op: u8) -> Seq<u8> {
    enc_movdqu_load(RAX, RBX, vslot_of(rn)) + enc_movdqu_load(RCX, RBX, vslot_of(rm)) + enc_movdqu_load(
        R10,
        RBX,
        vslot_of(rd),
    ) + (if op == 0 {
        enc_sse_rr(0x66, 0xDB, RAX, R10) + enc_sse_rr(0x66, 0xDF, R10, RCX)
    } else {
        enc_sse_rr(0x66, 0xDF, RAX, RCX) + enc_sse_rr(0x66, 0xDB, R10, RCX)
    }) + enc_sse_rr(0x66, 0xEB, RAX, R10) + enc_movdqu_store(RBX, vslot_of(rd), RAX)
}

#[verifier::spinoff_prover]
pub(crate) fn translate_simd_sel(buf: &mut CodeBuf, rd: u8, rn: u8, rm: u8, op: u8)
    ensures
        final(buf)@ == old(buf)@ + simd_sel_bytes(rd, rn, rm, op),
{
    let ghost start = buf@;
    buf.movdqu_load(RAX, RBX, vslot(rn));
    buf.movdqu_load(RCX, RBX, vslot(rm));
    buf.movdqu_load(R10, RBX, vslot(rd));
    if op == 0 {
        buf.pand(RAX, R10);  // rn & rd
        buf.pandn(R10, RCX);  // !rd & rm
    } else {
        buf.pandn(RAX, RCX);  // !rm & rn
        buf.pand(R10, RCX);  // rd & rm
    }
    buf.por(RAX, R10);
    buf.movdqu_store(RBX, vslot(rd), RAX);
    proof {
        assert(buf@ =~= start + simd_sel_bytes(rd, rn, rm, op));
    }
}

/// One byte lane `i` of URHADD: `(a + b + 1) >> 1`.
pub open spec fn urhadd_lane_bytes(rd: u8, rn: u8, rm: u8, i: int) -> Seq<u8> {
    enc_mov_load32(RAX, RBX, lane_off(rn, i)) + enc_ari_imm(4, RAX, 0xff) + enc_mov_load32(
        RDX,
        RBX,
        lane_off(rm, i),
    ) + enc_ari_imm(4, RDX, 0xff) + enc_binop(0x01, RAX, RDX) + enc_ari_imm(0, RAX, 1) + enc_mov_ri64(
        RCX,
        1,
    ) + enc_shift_cl(5, RAX) + enc_mov_store8(RBX, lane_off(rd, i), RAX)
}

/// URHADD of the first `n` byte lanes.
pub open spec fn urhadd_bytes(rd: u8, rn: u8, rm: u8, n: nat) -> Seq<u8>
    decreases n,
{
    if n == 0 {
        Seq::empty()
    } else {
        urhadd_bytes(rd, rn, rm, (n - 1) as nat) + urhadd_lane_bytes(rd, rn, rm, n - 1)
    }
}

#[verifier::spinoff_prover]
pub(crate) fn translate_urhadd(buf: &mut CodeBuf, rd: u8, rn: u8, rm: u8, bytes: u8)
    ensures
        final(buf)@ == old(buf)@ + urhadd_bytes(rd, rn, rm, bytes as nat),
{
    let ghost start = buf@;
    let mut i: u8 = 0;
    while i < bytes
        invariant
            i <= bytes,
            buf@ == start + urhadd_bytes(rd, rn, rm, i as nat),
        decreases bytes - i,
    {
        let ghost before = buf@;
        let off = i as i32;
        buf.mov_load32(RAX, RBX, vslot(rn) + off);
        buf.and_ri64(RAX, 0xff);
        buf.mov_load32(RDX, RBX, vslot(rm) + off);
        buf.and_ri64(RDX, 0xff);
        buf.add_rr64(RAX, RDX);
        buf.add_ri64(RAX, 1);
        buf.mov_ri64(RCX, 1);
        buf.shr_cl64(RAX);  // (a + b + 1) >> 1
        buf.mov_store8(RBX, vslot(rd) + off, RAX);
        proof {
            assert(buf@ =~= before + urhadd_lane_bytes(rd, rn, rm, i as int));
            assert(buf@ =~= start + urhadd_bytes(rd, rn, rm, (i + 1) as nat));
        }
        i = i + 1;
    }
}

/// MOV Sd/Dd, Vn.T[index]: the element (8 bytes for `esize` 8, else 4)
/// into the low bytes of `rd`.
pub open spec fn simd_lane_s_bytes(rd: u8, rn: u8, esize: u8, index: u8) -> Seq<u8> {
    let src = lane_off(rn, index * esize);
    if esize == 8 {
        enc_mov_load64(RAX, RBX, src) + enc_mov_store64(RBX, vslot_of(rd), RAX)
    } else {
        enc_mov_load32(RAX, RBX, src) + enc_mov_store32(RBX, vslot_of(rd), RAX)
    }
}

#[verifier::spinoff_prover]
pub(crate) fn translate_simd_lane_s(buf: &mut CodeBuf, rd: u8, rn: u8, esize: u8, index: u8)
    ensures
        final(buf)@ == old(buf)@ + simd_lane_s_bytes(rd, rn, esize, index),
{
    let ghost start = buf@;
    let src = vslot(rn) + elem_off(index, esize);
    if esize == 8 {
        buf.mov_load64(RAX, RBX, src);
        buf.mov_store64(RBX, vslot(rd), RAX);
    } else {
        buf.mov_load32(RAX, RBX, src);
        buf.mov_store32(RBX, vslot(rd), RAX);
    }
    proof {
        assert(buf@ =~= start + simd_lane_s_bytes(rd, rn, esize, index));
    }
}

/// INS Vd.T[index], Rn: the low `esize` bytes of general register `rn`
/// (read through its slot) into the element; any `esize` past 4 stores 8.
pub open spec fn ins_gp_bytes(rd: u8, rn: u8, esize: u8, index: u8) -> Seq<u8> {
    let dst = lane_off(rd, index * esize);
    ldg_bytes(RAX, rn) + if esize == 1 {
        enc_mov_store8(RBX, dst, RAX)
    } else if esize == 2 {
        enc_mov_store16(RBX, dst, RAX)
    } else if esize == 4 {
        enc_mov_store32(RBX, dst, RAX)
    } else {
        enc_mov_store64(RBX, dst, RAX)
    }
}

#[verifier::spinoff_prover]
pub(crate) fn translate_ins_gp(buf: &mut CodeBuf, rd: u8, rn: u8, esize: u8, index: u8)
    ensures
        final(buf)@ == old(buf)@ + ins_gp_bytes(rd, rn, esize, index),
{
    let ghost start = buf@;
    let dst = vslot(rd) + elem_off(index, esize);
    ldg(buf, RAX, rn as u32);
    if esize == 1 {
        buf.mov_store8(RBX, dst, RAX);
    } else if esize == 2 {
        buf.mov_store16(RBX, dst, RAX);
    } else if esize == 4 {
        buf.mov_store32(RBX, dst, RAX);
    } else {
        buf.mov_store64(RBX, dst, RAX);
    }
    proof {
        assert(buf@ =~= start + ins_gp_bytes(rd, rn, esize, index));
    }
}

/// The element sizes of UMOV/SMOV.
pub open spec fn mov_el_wf(esize: u8) -> bool {
    esize == 1 || esize == 2 || esize == 4 || esize == 8
}

/// UMOV/SMOV (`signed`) Rd, Vn.T[index]: the element zero- or
/// sign-extended into RAX (a 32-bit element sign-extends only for an X
/// destination), stored to the slot of `rd` as 64 bits (`is_x`) or 32.
pub open spec fn simd_mov_el_bytes(rd: u8, rn: u8, esize: u8, index: u8, signed: bool, is_x: bool) -> Seq<u8> {
    let src = lane_off(rn, index * esize);
    (if esize == 8 {
        enc_mov_load64(RAX, RBX, src)
    } else if esize == 4 {
        enc_mov_load32(RAX, RBX, src) + if signed && is_x {
            seq![rex_w(RAX, RAX), 0x63u8, modrm_byte(3, RAX & 7, RAX & 7)]
        } else {
            Seq::empty()
        }
    } else if esize == 2 {
        if signed {
            enc_movsx_word_mem(RAX, RBX, src)
        } else {
            enc_movzx_word_mem(RAX, RBX, src)
        }
    } else if signed {
        enc_movsx_byte_mem(RAX, RBX, src)
    } else {
        enc_movzx_byte_mem(RAX, RBX, src)
    }) + if is_x {
        enc_mov_store64(RBX, slot_of(rd as u32), RAX)
    } else {
        enc_mov_store32(RBX, slot_of(rd as u32), RAX)
    }
}

#[verifier::spinoff_prover]
pub(crate) fn translate_simd_mov_el(
    buf: &mut CodeBuf,
    rd: u8,
    rn: u8,
    esize: u8,
    index: u8,
    signed: bool,
    is_x: bool,
)
    requires
        mov_el_wf(esize),
    ensures
        final(buf)@ == old(buf)@ + simd_mov_el_bytes(rd, rn, esize, index, signed, is_x),
{
    let ghost start = buf@;
    let src = vslot(rn) + elem_off(index, esize);
    if esize == 8 {
        buf.mov_load64(RAX, RBX, src);
    } else if esize == 4 {
        buf.mov_load32(RAX, RBX, src);
        let ghost mid = buf@;
        if signed && is_x {
            buf.movsxd_r64_r32(RAX, RAX);
        }
        proof {
            assert(buf@ =~= mid + if signed && is_x {
                seq![rex_w(RAX, RAX), 0x63u8, modrm_byte(3, RAX & 7, RAX & 7)]
            } else {
                Seq::empty()
            });
        }
    } else if esize == 2 {
        if signed {
            buf.movsx_word_mem(RAX, RBX, src);
        } else {
            buf.movzx_word_mem(RAX, RBX, src);
        }
    } else if signed {
        buf.movsx_byte_mem(RAX, RBX, src);
    } else {
        buf.movzx_byte_mem(RAX, RBX, src);
    }
    let ghost p1 = buf@;
    let g = (rd as i32) * 8;
    if is_x {
        buf.mov_store64(RBX, g, RAX);
    } else {
        buf.mov_store32(RBX, g, RAX);
    }
    proof {
        assert(buf@ =~= start + simd_mov_el_bytes(rd, rn, esize, index, signed, is_x));
    }
}

/// The element sizes DUP from a general register takes: 1 to 8 bytes.
pub open spec fn dup_gp_wf(esize: u8) -> bool {
    1 <= esize <= 8
}

/// The store of DUP lane `i`: one byte, two, four, or eight bytes for any
/// other `esize`.
pub open spec fn dup_lane_bytes(rd: u8, esize: u8, i: int) -> Seq<u8> {
    if esize == 1 {
        enc_mov_store8(RBX, lane_off(rd, i), RAX)
    } else if esize == 2 {
        enc_mov_store16(RBX, lane_off(rd, 2 * i), RAX)
    } else if esize == 4 {
        enc_mov_store32(RBX, lane_off(rd, 4 * i), RAX)
    } else {
        enc_mov_store64(RBX, lane_off(rd, 8 * i), RAX)
    }
}

/// The stores of the first `n` DUP lanes.
pub open spec fn dup_lanes_bytes(rd: u8, esize: u8, n: nat) -> Seq<u8>
    decreases n,
{
    if n == 0 {
        Seq::empty()
    } else {
        dup_lanes_bytes(rd, esize, (n - 1) as nat) + dup_lane_bytes(rd, esize, n - 1)
    }
}

/// The low `8 * esize` bits set, as the 32-bit immediate of the mask.
pub open spec fn dup_mask(esize: u8) -> u32 {
    (((1u64 << (8 * esize) as u64) - 1) as u64) as u32
}

/// DUP Vd.T, Rn: the element from `rn` (the low `esize` bytes of Wn; Xn for
/// `esize` 8) stored into each of the `(16 or 8) / esize` lanes.
pub open spec fn simd_dup_gp_bytes(rd: u8, rn: u8, esize: u8, q: bool) -> Seq<u8> {
    ldg_bytes(RAX, rn) + (if esize == 8 {
        Seq::empty()
    } else {
        enc_zero_ext_r32(RAX) + enc_ari_imm(4, RAX, dup_mask(esize))
    }) + dup_lanes_bytes(rd, esize, ((if q { 16int } else { 8int }) / esize as int) as nat)
}

#[verifier::spinoff_prover]
pub(crate) fn translate_simd_dup_gp(buf: &mut CodeBuf, rd: u8, rn: u8, esize: u8, q: bool)
    requires
        dup_gp_wf(esize),
    ensures
        final(buf)@ == old(buf)@ + simd_dup_gp_bytes(rd, rn, esize, q),
{
    let ghost start = buf@;
    ldg(buf, RAX, rn as u32);
    if esize != 8 {
        buf.zero_ext_r32(RAX);  // Wn
        proof {
            assert(8 * esize < 64);
            assert(1u64 << (8 * esize) as u64 >= 1) by (bit_vector)
                requires
                    8 * esize < 64,
            ;
        }
        let m = ((1u64 << (8 * esize) as u64) - 1) as u32;
        buf.and_ri64(RAX, m);
    }
    let ghost p1 = buf@;
    let lanes: u32 = (if q { 16u32 } else { 8u32 }) / (esize as u32);
    let mut i: u32 = 0;
    while i < lanes
        invariant
            i <= lanes,
            lanes <= 16,
            dup_gp_wf(esize),
            buf@ == p1 + dup_lanes_bytes(rd, esize, i as nat),
        decreases lanes - i,
    {
        let ghost before = buf@;
        if esize == 1 {
            buf.mov_store8(RBX, vslot(rd) + (i as i32), RAX);
        } else if esize == 2 {
            buf.mov_store16(RBX, vslot(rd) + (i as i32) * 2, RAX);
        } else if esize == 4 {
            buf.mov_store32(RBX, vslot(rd) + (i as i32) * 4, RAX);
        } else {
            buf.mov_store64(RBX, vslot(rd) + (i as i32) * 8, RAX);
        }
        proof {
            assert(buf@ =~= before + dup_lane_bytes(rd, esize, i as int));
            assert(buf@ =~= p1 + dup_lanes_bytes(rd, esize, (i + 1) as nat));
        }
        i = i + 1;
    }
    proof {
        assert(buf@ =~= start + simd_dup_gp_bytes(rd, rn, esize, q));
    }
}

/// The unsigned compare of RAX with RCX selecting all ones or zero into
/// RDI: RDI = `zero`, RDX = `ones`, `cmov` on `cc` (0x47 above, 0x43 above
/// or equal).
pub open spec fn mask_select_bytes(cc: u8, zero: u64, ones: u64) -> Seq<u8> {
    enc_binop(0x39, RAX, RCX) + enc_mov_ri64(RDI, zero) + enc_mov_ri64(RDX, ones) + enc_cmov_rr64(
        cc,
        RDI,
        RDX,
    )
}

#[verifier::spinoff_prover]
fn mask_select(buf: &mut CodeBuf, cc: u8, zero: u64, ones: u64)
    ensures
        final(buf)@ == old(buf)@ + mask_select_bytes(cc, zero, ones),
{
    let ghost start = buf@;
    buf.cmp_rr64(RAX, RCX);
    buf.mov_ri64(RDI, zero);
    buf.mov_ri64(RDX, ones);
    buf.cmov_rr64(cc, RDI, RDX);
    proof {
        assert(buf@ =~= start + mask_select_bytes(cc, zero, ones));
    }
}

/// One 32-bit lane `i` of CMHI (`cc` 0x47) or CMHS (0x43): all ones where
/// `rn > rm` (or `>=`), else 0.
pub open spec fn cmh32_lane_bytes(rd: u8, rn: u8, rm: u8, cc: u8, i: int) -> Seq<u8> {
    enc_mov_load32(RAX, RBX, lane_off(rn, 4 * i)) + enc_mov_load32(RCX, RBX, lane_off(rm, 4 * i))
        + mask_select_bytes(cc, 0, 0xffff_ffff_ffff_ffff) + enc_mov_store32(RBX, lane_off(rd, 4 * i), RDI)
}

/// CMHI/CMHS on the first `n` 32-bit lanes.
pub open spec fn cmh32_bytes(rd: u8, rn: u8, rm: u8, cc: u8, n: nat) -> Seq<u8>
    decreases n,
{
    if n == 0 {
        Seq::empty()
    } else {
        cmh32_bytes(rd, rn, rm, cc, (n - 1) as nat) + cmh32_lane_bytes(rd, rn, rm, cc, n - 1)
    }
}

#[verifier::spinoff_prover]
pub(crate) fn translate_cmh32(buf: &mut CodeBuf, rd: u8, rn: u8, rm: u8, cc: u8, lanes: u8)
    ensures
        final(buf)@ == old(buf)@ + cmh32_bytes(rd, rn, rm, cc, lanes as nat),
{
    let ghost start = buf@;
    let mut i: u8 = 0;
    while i < lanes
        invariant
            i <= lanes,
            buf@ == start + cmh32_bytes(rd, rn, rm, cc, i as nat),
        decreases lanes - i,
    {
        let ghost before = buf@;
        let off = (i as i32) * 4;
        buf.mov_load32(RAX, RBX, vslot(rn) + off);
        buf.mov_load32(RCX, RBX, vslot(rm) + off);
        mask_select(buf, cc, 0, 0xffff_ffff_ffff_ffff);
        buf.mov_store32(RBX, vslot(rd) + off, RDI);
        proof {
            assert(buf@ =~= before + cmh32_lane_bytes(rd, rn, rm, cc, i as int));
            assert(buf@ =~= start + cmh32_bytes(rd, rn, rm, cc, (i + 1) as nat));
        }
        i = i + 1;
    }
}

/// One 64-bit lane at byte `k` of CMHI/CMHS Vd.2D.
pub open spec fn cmh64_lane_bytes(rd: u8, rn: u8, rm: u8, cc: u8, k: int) -> Seq<u8> {
    enc_mov_load64(RAX, RBX, lane_off(rn, k)) + enc_mov_load64(RCX, RBX, lane_off(rm, k))
        + mask_select_bytes(cc, 0, 0xffff_ffff_ffff_ffff) + enc_mov_store64(RBX, lane_off(rd, k), RDI)
}

#[verifier::spinoff_prover]
fn cmh64_lane(buf: &mut CodeBuf, rd: u8, rn: u8, rm: u8, cc: u8, k: i32)
    requires
        k == 0 || k == 8,
    ensures
        final(buf)@ == old(buf)@ + cmh64_lane_bytes(rd, rn, rm, cc, k as int),
{
    let ghost start = buf@;
    buf.mov_load64(RAX, RBX, vslot(rn) + k);
    buf.mov_load64(RCX, RBX, vslot(rm) + k);
    mask_select(buf, cc, 0, 0xffff_ffff_ffff_ffff);
    buf.mov_store64(RBX, vslot(rd) + k, RDI);
    proof {
        assert(buf@ =~= start + cmh64_lane_bytes(rd, rn, rm, cc, k as int));
    }
}

/// CMHI (`cc` 0x47) or CMHS (0x43) Vd.2D: all ones in a lane where `rn` is
/// above (or at least) `rm`, else 0.
pub open spec fn cmh64_bytes(rd: u8, rn: u8, rm: u8, cc: u8) -> Seq<u8> {
    cmh64_lane_bytes(rd, rn, rm, cc, 0) + cmh64_lane_bytes(rd, rn, rm, cc, 8)
}

#[verifier::spinoff_prover]
pub(crate) fn translate_cmh64(buf: &mut CodeBuf, rd: u8, rn: u8, rm: u8, cc: u8)
    ensures
        final(buf)@ == old(buf)@ + cmh64_bytes(rd, rn, rm, cc),
{
    let ghost start = buf@;
    cmh64_lane(buf, rd, rn, rm, cc, 0);
    cmh64_lane(buf, rd, rn, rm, cc, 8);
    proof {
        assert(buf@ =~= start + cmh64_bytes(rd, rn, rm, cc));
    }
}

/// One 16-bit lane `i` of CMHI Vd.8H/4H.
pub open spec fn cmhi16_lane_bytes(rd: u8, rn: u8, rm: u8, i: int) -> Seq<u8> {
    enc_movzx_word_mem(RAX, RBX, lane_off(rn, 2 * i)) + enc_movzx_word_mem(RCX, RBX, lane_off(rm, 2 * i))
        + enc_ari_imm(4, RAX, 0xffff) + enc_ari_imm(4, RCX, 0xffff) + mask_select_bytes(
        0x47,
        0,
        0xffff_ffff_ffff_ffff,
    ) + enc_mov_store16(RBX, lane_off(rd, 2 * i), RDI)
}

/// CMHI on the first `n` 16-bit lanes.
pub open spec fn cmhi16_bytes(rd: u8, rn: u8, rm: u8, n: nat) -> Seq<u8>
    decreases n,
{
    if n == 0 {
        Seq::empty()
    } else {
        cmhi16_bytes(rd, rn, rm, (n - 1) as nat) + cmhi16_lane_bytes(rd, rn, rm, n - 1)
    }
}

#[verifier::spinoff_prover]
pub(crate) fn translate_cmhi16(buf: &mut CodeBuf, rd: u8, rn: u8, rm: u8, lanes: u8)
    ensures
        final(buf)@ == old(buf)@ + cmhi16_bytes(rd, rn, rm, lanes as nat),
{
    let ghost start = buf@;
    let mut i: u8 = 0;
    while i < lanes
        invariant
            i <= lanes,
            buf@ == start + cmhi16_bytes(rd, rn, rm, i as nat),
        decreases lanes - i,
    {
        let ghost before = buf@;
        let off = (i as i32) * 2;
        buf.mov_load16(RAX, RBX, vslot(rn) + off);
        buf.mov_load16(RCX, RBX, vslot(rm) + off);
        buf.and_ri64(RAX, 0xffff);
        buf.and_ri64(RCX, 0xffff);
        mask_select(buf, 0x47, 0, 0xffff_ffff_ffff_ffff);
        buf.mov_store16(RBX, vslot(rd) + off, RDI);
        proof {
            assert(buf@ =~= before + cmhi16_lane_bytes(rd, rn, rm, i as int));
            assert(buf@ =~= start + cmhi16_bytes(rd, rn, rm, (i + 1) as nat));
        }
        i = i + 1;
    }
}

/// `cmp rax, rcx`
#[verifier::spinoff_prover]
fn compare_rax_rcx(buf: &mut CodeBuf)
    ensures
        final(buf)@ == old(buf)@ + enc_binop(0x39, RAX, RCX),
{
    buf.cmp_rr64(RAX, RCX);
}

/// One byte lane `i` of CMHI/CMHS on bytes: the mask built in RDX from
/// zero and all ones in RCX, `cmov` on `cc`, its low byte stored.
pub open spec fn cmh8_lane_bytes(rd: u8, rn: u8, rm: u8, cc: u8, i: int) -> Seq<u8> {
    enc_movzx_byte_mem(RAX, RBX, lane_off(rn, i)) + enc_movzx_byte_mem(RCX, RBX, lane_off(rm, i))
        + enc_ari_imm(4, RAX, 0xff) + enc_ari_imm(4, RCX, 0xff) + enc_binop(0x39, RAX, RCX)
        + enc_mov_ri64(RDX, 0) + enc_mov_ri64(RCX, 0xffff_ffff_ffff_ffff) + enc_cmov_rr64(cc, RDX, RCX)
        + enc_mov_store8(RBX, lane_off(rd, i), RDX)
}

/// CMHI/CMHS on the first `n` byte lanes.
pub open spec fn cmh8_bytes(rd: u8, rn: u8, rm: u8, cc: u8, n: nat) -> Seq<u8>
    decreases n,
{
    if n == 0 {
        Seq::empty()
    } else {
        cmh8_bytes(rd, rn, rm, cc, (n - 1) as nat) + cmh8_lane_bytes(rd, rn, rm, cc, n - 1)
    }
}

#[verifier::spinoff_prover]
pub(crate) fn translate_cmh8(buf: &mut CodeBuf, rd: u8, rn: u8, rm: u8, cc: u8, lanes: u8)
    ensures
        final(buf)@ == old(buf)@ + cmh8_bytes(rd, rn, rm, cc, lanes as nat),
{
    let ghost start = buf@;
    let mut i: u8 = 0;
    while i < lanes
        invariant
            i <= lanes,
            buf@ == start + cmh8_bytes(rd, rn, rm, cc, i as nat),
        decreases lanes - i,
    {
        let ghost before = buf@;
        let off = i as i32;
        buf.movzx_byte_mem(RAX, RBX, vslot(rn) + off);
        buf.movzx_byte_mem(RCX, RBX, vslot(rm) + off);
        buf.and_ri64(RAX, 0xff);
        buf.and_ri64(RCX, 0xff);
        compare_rax_rcx(buf);
        buf.mov_ri64(RDX, 0);
        buf.mov_ri64(RCX, 0xffff_ffff_ffff_ffff);
        buf.cmov_rr64(cc, RDX, RCX);
        buf.mov_store8(RBX, vslot(rd) + off, RDX);  // DL
        proof {
            assert(buf@ =~= before + cmh8_lane_bytes(rd, rn, rm, cc, i as int));
            assert(buf@ =~= start + cmh8_bytes(rd, rn, rm, cc, (i + 1) as nat));
        }
        i = i + 1;
    }
}

/// `mov rdx, rax; shr rdx, sh; mov rcx, m; and rdx, rcx`
pub open spec fn swar_step_bytes(sh: u8, m: u64) -> Seq<u8> {
    enc_mov_rr64(RDX, RAX) + enc_shift_ri8(5, RDX, sh) + enc_mov_ri64(RCX, m) + enc_binop(0x21, RDX, RCX)
}

/// CNT Vd.8B: the per-byte population count of the low 8 bytes of `rn`
/// by the SWAR steps (pairs, nibbles, bytes) into the low 8 bytes of `rd`.
pub open spec fn simd_popcnt_bytes(rd: u8, rn: u8) -> Seq<u8> {
    enc_mov_load64(RAX, RBX, vslot_of(rn)) + swar_step_bytes(1, 0x5555_5555_5555_5555) + enc_binop(
        0x29,
        RAX,
        RDX,
    ) + swar_step_bytes(2, 0x3333_3333_3333_3333) + enc_binop(0x21, RAX, RCX) + enc_binop(0x01, RAX, RDX)
        + enc_mov_rr64(RDX, RAX) + enc_shift_ri8(5, RDX, 4) + enc_binop(0x01, RAX, RDX) + enc_mov_ri64(
        RCX,
        0x0f0f_0f0f_0f0f_0f0f,
    ) + enc_binop(0x21, RAX, RCX) + enc_mov_store64(RBX, vslot_of(rd), RAX)
}

#[verifier::spinoff_prover]
fn swar_step(buf: &mut CodeBuf, sh: u8, m: u64)
    ensures
        final(buf)@ == old(buf)@ + swar_step_bytes(sh, m),
{
    let ghost start = buf@;
    buf.mov_rr64(RDX, RAX);
    buf.shr_ri8(RDX, sh);
    buf.mov_ri64(RCX, m);
    buf.and_rr64(RDX, RCX);
    proof {
        assert(buf@ =~= start + swar_step_bytes(sh, m));
    }
}

#[verifier::spinoff_prover]
pub(crate) fn translate_simd_popcnt(buf: &mut CodeBuf, rd: u8, rn: u8)
    ensures
        final(buf)@ == old(buf)@ + simd_popcnt_bytes(rd, rn),
{
    let ghost start = buf@;
    buf.mov_load64(RAX, RBX, vslot(rn));
    swar_step(buf, 1, 0x5555_5555_5555_5555);
    buf.sub_rr64(RAX, RDX);  // 2-bit counts
    swar_step(buf, 2, 0x3333_3333_3333_3333);
    buf.and_rr64(RAX, RCX);
    buf.add_rr64(RAX, RDX);  // 4-bit counts
    buf.mov_rr64(RDX, RAX);
    buf.shr_ri8(RDX, 4);
    buf.add_rr64(RAX, RDX);
    buf.mov_ri64(RCX, 0x0f0f_0f0f_0f0f_0f0f);
    buf.and_rr64(RAX, RCX);  // byte counts
    buf.mov_store64(RBX, vslot(rd), RAX);
    proof {
        assert(buf@ =~= start + simd_popcnt_bytes(rd, rn));
    }
}

/// One widening step of UADDLV: the sum of the adjacent fields of width
/// `sh` with mask `m` (RAX = (RAX & m) + ((RAX >> sh) & m)).
pub open spec fn sum_step_bytes(sh: u8, m: u64) -> Seq<u8> {
    enc_mov_rr64(RDX, RAX) + enc_shift_ri8(5, RDX, sh) + enc_mov_ri64(RCX, m) + enc_binop(0x21, RDX, RCX)
        + enc_binop(0x21, RAX, RCX) + enc_binop(0x01, RAX, RDX)
}

#[verifier::spinoff_prover]
fn sum_step(buf: &mut CodeBuf, sh: u8, m: u64)
    ensures
        final(buf)@ == old(buf)@ + sum_step_bytes(sh, m),
{
    let ghost start = buf@;
    buf.mov_rr64(RDX, RAX);
    buf.shr_ri8(RDX, sh);
    buf.mov_ri64(RCX, m);
    buf.and_rr64(RDX, RCX);
    buf.and_rr64(RAX, RCX);
    buf.add_rr64(RAX, RDX);
    proof {
        assert(buf@ =~= start + sum_step_bytes(sh, m));
    }
}

/// UADDLV Hd, Vn.8B: the sum of the 8 low bytes of `rn`, by widening
/// steps, into the low 8 bytes of `rd`.
pub open spec fn simd_sum8_bytes(rd: u8, rn: u8) -> Seq<u8> {
    enc_mov_load64(RAX, RBX, vslot_of(rn)) + enc_mov_ri64(RCX, 0x00ff_00ff_00ff_00ff) + enc_mov_rr64(
        RDX,
        RAX,
    ) + enc_shift_ri8(5, RDX, 8) + enc_binop(0x21, RDX, RCX) + enc_binop(0x21, RAX, RCX) + enc_binop(
        0x01,
        RAX,
        RDX,
    ) + sum_step_bytes(16, 0x0000_ffff_0000_ffff) + sum_step_bytes(32, 0x0000_0000_ffff_ffff)
        + enc_mov_store64(RBX, vslot_of(rd), RAX)
}

#[verifier::spinoff_prover]
pub(crate) fn translate_simd_sum8(buf: &mut CodeBuf, rd: u8, rn: u8)
    ensures
        final(buf)@ == old(buf)@ + simd_sum8_bytes(rd, rn),
{
    let ghost start = buf@;
    buf.mov_load64(RAX, RBX, vslot(rn));
    buf.mov_ri64(RCX, 0x00ff_00ff_00ff_00ff);
    buf.mov_rr64(RDX, RAX);
    buf.shr_ri8(RDX, 8);
    buf.and_rr64(RDX, RCX);
    buf.and_rr64(RAX, RCX);
    buf.add_rr64(RAX, RDX);  // 16-bit sums
    sum_step(buf, 16, 0x0000_ffff_0000_ffff);  // 32-bit sums
    sum_step(buf, 32, 0x0000_0000_ffff_ffff);  // the total
    buf.mov_store64(RBX, vslot(rd), RAX);
    proof {
        assert(buf@ =~= start + simd_sum8_bytes(rd, rn));
    }
}

/// An `esize`-byte element at `off` into RAX: 8 and 4 bytes as they are,
/// 2 and any other size zero-extended from 2 bytes or 1.
pub open spec fn el_load_bytes(esize: u8, off: i32) -> Seq<u8> {
    if esize == 8 {
        enc_mov_load64(RAX, RBX, off)
    } else if esize == 4 {
        enc_mov_load32(RAX, RBX, off)
    } else if esize == 2 {
        enc_movzx_word_mem(RAX, RBX, off)
    } else {
        enc_movzx_byte_mem(RAX, RBX, off)
    }
}

#[verifier::spinoff_prover]
fn el_load(buf: &mut CodeBuf, esize: u8, off: i32)
    ensures
        final(buf)@ == old(buf)@ + el_load_bytes(esize, off),
{
    if esize == 8 {
        buf.mov_load64(RAX, RBX, off);
    } else if esize == 4 {
        buf.mov_load32(RAX, RBX, off);
    } else if esize == 2 {
        buf.movzx_word_mem(RAX, RBX, off);
    } else {
        buf.movzx_byte_mem(RAX, RBX, off);
    }
}

/// The low `esize` bytes of `src` (8, 4, 2, or 1 for any other size) to
/// `off`.
pub open spec fn el_store_bytes(esize: u8, off: i32, src: u8) -> Seq<u8> {
    if esize == 8 {
        enc_mov_store64(RBX, off, src)
    } else if esize == 4 {
        enc_mov_store32(RBX, off, src)
    } else if esize == 2 {
        enc_mov_store16(RBX, off, src)
    } else {
        enc_mov_store8(RBX, off, src)
    }
}

#[verifier::spinoff_prover]
pub(crate) fn el_store(buf: &mut CodeBuf, esize: u8, off: i32, src: u8)
    ensures
        final(buf)@ == old(buf)@ + el_store_bytes(esize, off, src),
{
    if esize == 8 {
        buf.mov_store64(RBX, off, src);
    } else if esize == 4 {
        buf.mov_store32(RBX, off, src);
    } else if esize == 2 {
        buf.mov_store16(RBX, off, src);
    } else {
        buf.mov_store8(RBX, off, src);
    }
}

/// One 32-bit lane `i` of MLA/MLS (`sub`): `rd += rn * m` (or `-=`), the
/// multiplier `m` read at `m_off(i)`.
pub open spec fn mla_lane_bytes(rd: u8, rn: u8, m_off: i32, sub: bool, i: int) -> Seq<u8> {
    enc_mov_load32(RAX, RBX, lane_off(rn, 4 * i)) + enc_mov_load32(RCX, RBX, m_off) + imul_bytes()
        + enc_mov_load32(RDX, RBX, lane_off(rd, 4 * i)) + enc_binop(if sub { 0x29 } else { 0x01 }, RDX, RAX)
        + enc_mov_store32(RBX, lane_off(rd, 4 * i), RDX)
}

/// MLA/MLS on the first `n` lanes; the multiplier lane of `rm` at the
/// same index, or the element `index` of `rm` for every lane (`by_el`).
pub open spec fn mla_bytes(rd: u8, rn: u8, rm: u8, by_el: bool, index: u8, sub: bool, n: nat) -> Seq<u8>
    decreases n,
{
    if n == 0 {
        Seq::empty()
    } else {
        mla_bytes(rd, rn, rm, by_el, index, sub, (n - 1) as nat) + mla_lane_bytes(
            rd,
            rn,
            if by_el { lane_off(rm, 4 * index) } else { lane_off(rm, 4 * (n - 1)) },
            sub,
            n - 1,
        )
    }
}

#[verifier::spinoff_prover]
fn mla_lane(buf: &mut CodeBuf, rd: u8, rn: u8, m_off: i32, sub: bool, i: u8)
    ensures
        final(buf)@ == old(buf)@ + mla_lane_bytes(rd, rn, m_off, sub, i as int),
{
    let ghost start = buf@;
    let off = (i as i32) * 4;
    buf.mov_load32(RAX, RBX, vslot(rn) + off);
    buf.mov_load32(RCX, RBX, m_off);
    buf.imul_rr64(RAX, RCX);
    buf.mov_load32(RDX, RBX, vslot(rd) + off);
    if sub {
        buf.sub_rr64(RDX, RAX);
    } else {
        buf.add_rr64(RDX, RAX);
    }
    buf.mov_store32(RBX, vslot(rd) + off, RDX);
    proof {
        assert(buf@ =~= start + mla_lane_bytes(rd, rn, m_off, sub, i as int));
    }
}

#[verifier::spinoff_prover]
pub(crate) fn translate_mla(buf: &mut CodeBuf, rd: u8, rn: u8, rm: u8, by_el: bool, index: u8, sub: bool, lanes: u8)
    ensures
        final(buf)@ == old(buf)@ + mla_bytes(rd, rn, rm, by_el, index, sub, lanes as nat),
{
    let ghost start = buf@;
    let mel = vslot(rm) + (index as i32) * 4;
    let mut i: u8 = 0;
    while i < lanes
        invariant
            i <= lanes,
            mel == lane_off(rm, 4 * index),
            buf@ == start + mla_bytes(rd, rn, rm, by_el, index, sub, i as nat),
        decreases lanes - i,
    {
        let ghost before = buf@;
        let off = (i as i32) * 4;
        let m_off = if by_el { mel } else { vslot(rm) + off };
        mla_lane(buf, rd, rn, m_off, sub, i);
        proof {
            assert(buf@ =~= start + mla_bytes(rd, rn, rm, by_el, index, sub, (i + 1) as nat));
        }
        i = i + 1;
    }
}

/// One lane `i` of SHL by `shift`.
pub open spec fn shl_lane_bytes(rd: u8, rn: u8, esize: u8, shift: u8, i: int) -> Seq<u8> {
    el_load_bytes(esize, lane_off(rn, i * esize)) + enc_shift_ri8(4, RAX, shift) + el_store_bytes(
        esize,
        lane_off(rd, i * esize),
        RAX,
    )
}

/// SHL on the first `n` lanes.
pub open spec fn shl_bytes(rd: u8, rn: u8, esize: u8, shift: u8, n: nat) -> Seq<u8>
    decreases n,
{
    if n == 0 {
        Seq::empty()
    } else {
        shl_bytes(rd, rn, esize, shift, (n - 1) as nat) + shl_lane_bytes(rd, rn, esize, shift, n - 1)
    }
}

/// SHL Vd.T, Vn.T, #shift: each of the `16 / esize` lanes shifted left.
pub open spec fn simd_shl_bytes(rd: u8, rn: u8, esize: u8, shift: u8) -> Seq<u8> {
    shl_bytes(rd, rn, esize, shift, (16u8 / esize) as nat)
}

#[verifier::spinoff_prover]
pub(crate) fn translate_simd_shl(buf: &mut CodeBuf, rd: u8, rn: u8, esize: u8, shift: u8)
    requires
        esize != 0,
    ensures
        final(buf)@ == old(buf)@ + simd_shl_bytes(rd, rn, esize, shift),
{
    let ghost start = buf@;
    let lanes: u8 = 16 / esize;
    let mut i: u8 = 0;
    while i < lanes
        invariant
            i <= lanes,
            lanes == 16u8 / esize,
            esize != 0,
            buf@ == start + shl_bytes(rd, rn, esize, shift, i as nat),
        decreases lanes - i,
    {
        let ghost before = buf@;
        proof {
            assert(i * esize <= 16) by (nonlinear_arith)
                requires
                    i < 16u8 / esize,
                    esize > 0,
            ;
        }
        let off = (i as i32) * (esize as i32);
        el_load(buf, esize, vslot(rn) + off);
        buf.shl_ri8(RAX, shift);
        el_store(buf, esize, vslot(rd) + off, RAX);
        proof {
            assert(buf@ =~= before + shl_lane_bytes(rd, rn, esize, shift, i as int));
            assert(buf@ =~= start + shl_bytes(rd, rn, esize, shift, (i + 1) as nat));
        }
        i = i + 1;
    }
}

/// The stores of RAX, `esize` bytes each (8, or 4 for any other size),
/// at the offsets `off, off + esize, ...` below `total` in the slot of `rd`.
pub open spec fn splat_bytes(rd: u8, esize: u8, wide: bool, off: int, total: int) -> Seq<u8>
    decreases total - off,
{
    if esize == 0 || off >= total {
        Seq::empty()
    } else {
        (if wide { el_store_bytes(esize, lane_off(rd, off), RAX) } else if esize == 8 {
            enc_mov_store64(RBX, lane_off(rd, off), RAX)
        } else {
            enc_mov_store32(RBX, lane_off(rd, off), RAX)
        }) + if off + esize >= total {
            Seq::empty()
        } else {
            splat_bytes(rd, esize, wide, off + esize, total)
        }
    }
}

#[verifier::spinoff_prover]
pub(crate) fn splat(buf: &mut CodeBuf, rd: u8, esize: u8, wide: bool, total: i32)
    requires
        esize != 0,
        total == 8 || total == 16,
    ensures
        final(buf)@ == old(buf)@ + splat_bytes(rd, esize, wide, 0, total as int),
{
    let ghost start = buf@;
    let mut off: i32 = 0;
    while off < total
        invariant
            0 <= off <= total + 255,
            total == 8 || total == 16,
            esize != 0,
            start + splat_bytes(rd, esize, wide, 0, total as int) == buf@ + splat_bytes(
                rd,
                esize,
                wide,
                off as int,
                total as int,
            ),
        decreases total + 255 - off,
    {
        let ghost before = buf@;
        let dst = vslot(rd) + off;
        if wide {
            el_store(buf, esize, dst, RAX);
        } else if esize == 8 {
            buf.mov_store64(RBX, dst, RAX);
        } else {
            buf.mov_store32(RBX, dst, RAX);
        }
        proof {
            let piece = if wide {
                el_store_bytes(esize, lane_off(rd, off as int), RAX)
            } else if esize == 8 {
                enc_mov_store64(RBX, lane_off(rd, off as int), RAX)
            } else {
                enc_mov_store32(RBX, lane_off(rd, off as int), RAX)
            };
            assert(buf@ =~= before + piece);
            assert(splat_bytes(rd, esize, wide, off as int, total as int) == piece + splat_bytes(
                rd,
                esize,
                wide,
                off + esize,
                total as int,
            ));
            assert(before + (piece + splat_bytes(rd, esize, wide, off + esize, total as int))
                =~= buf@ + splat_bytes(rd, esize, wide, off + esize, total as int));
        }
        off = off + esize as i32;
    }
    proof {
        assert(splat_bytes(rd, esize, wide, off as int, total as int) =~= Seq::<u8>::empty());
        assert(buf@ + Seq::<u8>::empty() =~= buf@);
    }
}

/// FMOV Vd.T, #imm: the immediate (its low 32 bits unless `esize` is 8)
/// stored into every element of the 16 (`q`) or 8 low bytes.
pub open spec fn simd_fmov_imm_bytes(rd: u8, esize: u8, value_bits: u64, q: bool) -> Seq<u8> {
    enc_mov_ri64(RAX, if esize == 8 { value_bits } else { value_bits & 0xffff_ffff }) + splat_bytes(
        rd,
        esize,
        false,
        0,
        if q { 16 } else { 8 },
    )
}

#[verifier::spinoff_prover]
pub(crate) fn translate_simd_fmov_imm(buf: &mut CodeBuf, rd: u8, esize: u8, value_bits: u64, q: bool)
    requires
        esize != 0,
    ensures
        final(buf)@ == old(buf)@ + simd_fmov_imm_bytes(rd, esize, value_bits, q),
{
    let ghost start = buf@;
    if esize == 8 {
        buf.mov_ri64(RAX, value_bits);
    } else {
        buf.mov_ri64(RAX, value_bits & 0xffff_ffff);
    }
    splat(buf, rd, esize, false, if q { 16 } else { 8 });
    proof {
        assert(buf@ =~= start + simd_fmov_imm_bytes(rd, esize, value_bits, q));
    }
}

/// DUP Vd.T, Vn.T[src_idx]: the element loaded (zero-extended below 4
/// bytes) and stored into every element of the 16 (`q`) or 8 low bytes;
/// the 8-byte form clears the high half.
pub open spec fn simd_dup_el_bytes(rd: u8, rn: u8, esize: u8, src_idx: u8, q: bool) -> Seq<u8> {
    el_load_bytes(esize, lane_off(rn, src_idx * esize)) + splat_bytes(rd, esize, true, 0, if q {
        16
    } else {
        8
    }) + if q {
        Seq::empty()
    } else {
        enc_mov_ri64(RAX, 0) + enc_mov_store64(RBX, lane_off(rd, 8), RAX)
    }
}

#[verifier::spinoff_prover]
pub(crate) fn translate_simd_dup_el(buf: &mut CodeBuf, rd: u8, rn: u8, esize: u8, src_idx: u8, q: bool)
    requires
        esize != 0,
    ensures
        final(buf)@ == old(buf)@ + simd_dup_el_bytes(rd, rn, esize, src_idx, q),
{
    let ghost start = buf@;
    el_load(buf, esize, vslot(rn) + elem_off(src_idx, esize));
    splat(buf, rd, esize, true, if q { 16 } else { 8 });
    let ghost mid = buf@;
    if !q {
        buf.mov_ri64(RAX, 0);
        buf.mov_store64(RBX, vslot(rd) + 8, RAX);
    }
    proof {
        assert(buf@ =~= start + simd_dup_el_bytes(rd, rn, esize, src_idx, q));
    }
}

/// MOV Vd.T[dst_idx], Vn.T[src_idx]: one element of `esize` bytes (8, 4,
/// 2, or 1 for any other size).
pub open spec fn simd_ins_d_bytes(rd: u8, rn: u8, dst_idx: u8, src_idx: u8, esize: u8) -> Seq<u8> {
    el_load_bytes(esize, lane_off(rn, src_idx * esize)) + el_store_bytes(
        esize,
        lane_off(rd, dst_idx * esize),
        RAX,
    )
}

#[verifier::spinoff_prover]
pub(crate) fn translate_simd_ins_d(buf: &mut CodeBuf, rd: u8, rn: u8, dst_idx: u8, src_idx: u8, esize: u8)
    ensures
        final(buf)@ == old(buf)@ + simd_ins_d_bytes(rd, rn, dst_idx, src_idx, esize),
{
    let ghost start = buf@;
    el_load(buf, esize, vslot(rn) + elem_off(src_idx, esize));
    el_store(buf, esize, vslot(rd) + elem_off(dst_idx, esize), RAX);
    proof {
        assert(buf@ =~= start + simd_ins_d_bytes(rd, rn, dst_idx, src_idx, esize));
    }
}

/// One lane `i` of CMTST: all ones where `rn & rm` is nonzero (`cmovne`),
/// the lanes read as 8 bytes or 4.
pub open spec fn cmtst_lane_bytes(rd: u8, rn: u8, rm: u8, esize: u8, i: int) -> Seq<u8> {
    (if esize == 8 {
        enc_mov_load64(RAX, RBX, lane_off(rn, i * esize)) + enc_mov_load64(RCX, RBX, lane_off(rm, i * esize))
    } else {
        enc_mov_load32(RAX, RBX, lane_off(rn, i * esize)) + enc_mov_load32(RCX, RBX, lane_off(rm, i * esize))
    }) + enc_binop(0x85, RAX, RCX) + enc_mov_ri64(RDI, 0) + enc_mov_ri64(RDX, 0xffff_ffff_ffff_ffff)
        + enc_cmov_rr64(0x45, RDI, RDX) + el_store_bytes(esize, lane_off(rd, i * esize), RDI)
}

/// CMTST on the first `n` lanes.
pub open spec fn cmtst_bytes(rd: u8, rn: u8, rm: u8, esize: u8, n: nat) -> Seq<u8>
    decreases n,
{
    if n == 0 {
        Seq::empty()
    } else {
        cmtst_bytes(rd, rn, rm, esize, (n - 1) as nat) + cmtst_lane_bytes(rd, rn, rm, esize, n - 1)
    }
}

#[verifier::spinoff_prover]
pub(crate) fn translate_cmtst(buf: &mut CodeBuf, rd: u8, rn: u8, rm: u8, lanes: u8, esize: u8)
    ensures
        final(buf)@ == old(buf)@ + cmtst_bytes(rd, rn, rm, esize, lanes as nat),
{
    let ghost start = buf@;
    let mut i: u8 = 0;
    while i < lanes
        invariant
            i <= lanes,
            buf@ == start + cmtst_bytes(rd, rn, rm, esize, i as nat),
        decreases lanes - i,
    {
        let ghost before = buf@;
        let off = elem_off(i, esize);
        if esize == 8 {
            buf.mov_load64(RAX, RBX, vslot(rn) + off);
            buf.mov_load64(RCX, RBX, vslot(rm) + off);
        } else {
            buf.mov_load32(RAX, RBX, vslot(rn) + off);
            buf.mov_load32(RCX, RBX, vslot(rm) + off);
        }
        buf.test_rr64(RAX, RCX);  // ZF: no common bit
        buf.mov_ri64(RDI, 0);
        buf.mov_ri64(RDX, 0xffff_ffff_ffff_ffff);
        buf.cmov_rr64(0x45, RDI, RDX);  // cmovne
        el_store(buf, esize, vslot(rd) + off, RDI);
        proof {
            assert(buf@ =~= before + cmtst_lane_bytes(rd, rn, rm, esize, i as int));
            assert(buf@ =~= start + cmtst_bytes(rd, rn, rm, esize, (i + 1) as nat));
        }
        i = i + 1;
    }
}

/// One granule `g` of REV64/REV32/REV16: `bswap` of 8 or 4 bytes, or a
/// 16-bit rotate by 8 for any other granule.
pub open spec fn rev_granule_bytes(rd: u8, rn: u8, granule: u8, g: int) -> Seq<u8> {
    let o = g * granule;
    if granule == 8 {
        enc_mov_load64(RAX, RBX, lane_off(rn, o)) + enc_bswap(true, RAX) + enc_mov_store64(
            RBX,
            lane_off(rd, o),
            RAX,
        )
    } else if granule == 4 {
        enc_mov_load32(RAX, RBX, lane_off(rn, o)) + enc_bswap(false, RAX) + enc_mov_store32(
            RBX,
            lane_off(rd, o),
            RAX,
        )
    } else {
        enc_movzx_word_mem(RAX, RBX, lane_off(rn, o)) + enc_rol16_ri8(RAX, 8) + enc_mov_store16(
            RBX,
            lane_off(rd, o),
            RAX,
        )
    }
}

/// The first `n` granules of REV.
pub open spec fn rev_granules_bytes(rd: u8, rn: u8, granule: u8, n: nat) -> Seq<u8>
    decreases n,
{
    if n == 0 {
        Seq::empty()
    } else {
        rev_granules_bytes(rd, rn, granule, (n - 1) as nat) + rev_granule_bytes(rd, rn, granule, n - 1)
    }
}

/// REV64/REV32/REV16 Vd.T: the bytes reversed within each granule of the
/// 16 (`q`) or 8 low bytes.
pub open spec fn simd_rev_bytes(rd: u8, rn: u8, granule: u8, q: bool) -> Seq<u8> {
    rev_granules_bytes(rd, rn, granule, ((if q { 16int } else { 8int }) / granule as int) as nat)
}

#[verifier::spinoff_prover]
pub(crate) fn translate_simd_rev(buf: &mut CodeBuf, rd: u8, rn: u8, granule: u8, q: bool)
    requires
        granule != 0,
    ensures
        final(buf)@ == old(buf)@ + simd_rev_bytes(rd, rn, granule, q),
{
    let ghost start = buf@;
    let total: u8 = if q { 16 } else { 8 };
    let n: u8 = total / granule;
    let mut g: u8 = 0;
    while g < n
        invariant
            g <= n,
            n as int == (if q { 16int } else { 8int }) / granule as int,
            granule != 0,
            buf@ == start + rev_granules_bytes(rd, rn, granule, g as nat),
        decreases n - g,
    {
        let ghost before = buf@;
        let o = elem_off(g, granule);
        if granule == 8 {
            buf.mov_load64(RAX, RBX, vslot(rn) + o);
            buf.bswap_r64(RAX);
            buf.mov_store64(RBX, vslot(rd) + o, RAX);
        } else if granule == 4 {
            buf.mov_load32(RAX, RBX, vslot(rn) + o);
            buf.bswap_r32(RAX);
            buf.mov_store32(RBX, vslot(rd) + o, RAX);
        } else {
            // a halfword byte swap is a rotate by 8
            buf.mov_load16(RAX, RBX, vslot(rn) + o);
            buf.rol16_ri8(RAX, 8);
            buf.mov_store16(RBX, vslot(rd) + o, RAX);
        }
        proof {
            assert(buf@ =~= before + rev_granule_bytes(rd, rn, granule, g as int));
            assert(buf@ =~= start + rev_granules_bytes(rd, rn, granule, (g + 1) as nat));
        }
        g = g + 1;
    }
}

/// `op a, b` with the register-register opcode `op` (used for the compare,
/// 0x39).
#[verifier::spinoff_prover]
pub(crate) fn binop_rr(buf: &mut CodeBuf, op: u8, a: u8, b: u8)
    requires
        op == 0x39,
    ensures
        final(buf)@ == old(buf)@ + enc_binop(op, a, b),
{
    buf.cmp_rr64(a, b);
}

/// The element move of the permutes: `esize` bytes from `src` to `dst`
/// (8 and 4 as they are; 2 and 1 read as 4 and stored narrow).
pub open spec fn el_move_bytes(esize: u8, src: i32, dst: i32) -> Seq<u8> {
    if esize == 8 {
        enc_mov_load64(RAX, RBX, src) + enc_mov_store64(RBX, dst, RAX)
    } else {
        enc_mov_load32(RAX, RBX, src) + if esize == 4 {
            enc_mov_store32(RBX, dst, RAX)
        } else if esize == 2 {
            enc_mov_store16(RBX, dst, RAX)
        } else {
            enc_mov_store8(RBX, dst, RAX)
        }
    }
}

#[verifier::spinoff_prover]
fn el_move(buf: &mut CodeBuf, esize: u8, src: i32, dst: i32)
    ensures
        final(buf)@ == old(buf)@ + el_move_bytes(esize, src, dst),
{
    let ghost start = buf@;
    if esize == 8 {
        buf.mov_load64(RAX, RBX, src);
        buf.mov_store64(RBX, dst, RAX);
    } else {
        buf.mov_load32(RAX, RBX, src);
        if esize == 4 {
            buf.mov_store32(RBX, dst, RAX);
        } else if esize == 2 {
            buf.mov_store16(RBX, dst, RAX);
        } else {
            buf.mov_store8(RBX, dst, RAX);
        }
    }
    proof {
        assert(buf@ =~= start + el_move_bytes(esize, src, dst));
    }
}

/// The byte offsets of step `k` of a permute of `n`-byte vectors with
/// `es`-byte elements: the element read from the first source, where it
/// goes, the element read from the second, where it goes. `kind` 0 UZP1,
/// 1 UZP2, 2 ZIP1, 3 ZIP2, 4 TRN1, 5 TRN2.
pub open spec fn perm_offsets(kind: u8, k: int, es: int, n: int) -> (int, int, int, int) {
    let half = n / (2 * es);
    if kind == 0 {
        (2 * k * es, k * es, 2 * k * es, (half + k) * es)
    } else if kind == 1 {
        ((2 * k + 1) * es, k * es, (2 * k + 1) * es, (half + k) * es)
    } else if kind == 2 {
        (k * es, 2 * k * es, k * es, (2 * k + 1) * es)
    } else if kind == 3 {
        (n / 2 + k * es, 2 * k * es, n / 2 + k * es, (2 * k + 1) * es)
    } else if kind == 4 {
        (2 * k * es, 2 * k * es, 2 * k * es, (2 * k + 1) * es)
    } else {
        ((2 * k + 1) * es, 2 * k * es, (2 * k + 1) * es, (2 * k + 1) * es)
    }
}

/// Step `k`: the element of the first source, then that of the second.
pub open spec fn perm_step_bytes(rd: u8, a_src: i32, b_src: i32, kind: u8, esize: u8, n: int, k: int) -> Seq<u8> {
    let o = perm_offsets(kind, k, esize as int, n);
    el_move_bytes(esize, (a_src + o.0) as i32, lane_off(rd, o.1)) + el_move_bytes(
        esize,
        (b_src + o.2) as i32,
        lane_off(rd, o.3),
    )
}

/// The first `m` steps.
pub open spec fn perm_steps_bytes(rd: u8, a_src: i32, b_src: i32, kind: u8, esize: u8, n: int, m: nat) -> Seq<u8>
    decreases m,
{
    if m == 0 {
        Seq::empty()
    } else {
        perm_steps_bytes(rd, a_src, b_src, kind, esize, n, (m - 1) as nat) + perm_step_bytes(
            rd,
            a_src,
            b_src,
            kind,
            esize,
            n,
            m - 1,
        )
    }
}

/// UZP1/UZP2/ZIP1/ZIP2/TRN1/TRN2 of 16-byte (`q`) or 8-byte vectors: a
/// source that is also `rd` snapshotted first (`permute_source`), then
/// `n / (2 * esize)` steps of two element moves.
pub open spec fn permute_bytes(rd: u8, rn: u8, rm: u8, kind: u8, esize: u8, q: bool) -> Seq<u8> {
    let n: int = if q { 16 } else { 8 };
    prog_bytes(permute_prog(rd, rn, false)) + prog_bytes(permute_prog(rd, rm, true)) + perm_steps_bytes(
        rd,
        permute_off(rd, rn, false),
        permute_off(rd, rm, true),
        kind,
        esize,
        n,
        (n / (2 * esize as int)) as nat,
    )
}

#[verifier::spinoff_prover]
fn perm_step(buf: &mut CodeBuf, rd: u8, a_src: i32, b_src: i32, kind: u8, esize: u8, n: i32, k: i32)
    requires
        0 <= a_src <= 0x2000,
        0 <= b_src <= 0x2000,
        n == 8 || n == 16,
        esize >= 1,
        0 <= k,
        (2 * k + 2) * esize <= n,
    ensures
        final(buf)@ == old(buf)@ + perm_step_bytes(rd, a_src, b_src, kind, esize, n as int, k as int),
{
    let ghost start = buf@;
    let es = esize as i32;
    proof {
        assert(k <= 8 && k * es <= 8 && (2 * k + 1) * es <= 16 && 2 * k * es <= 16) by (nonlinear_arith)
            requires
                (2 * k + 2) * es <= n,
                n <= 16,
                es >= 1,
                k >= 0,
        ;
        assert((n as int) / (2 * (es as int)) <= 8 && ((n as int) / (2 * (es as int)) + k) * es <= 16) by (nonlinear_arith)
            requires
                (2 * k + 2) * es <= n,
                n <= 16,
                es >= 1,
                k >= 0,
        ;
    }
    let half = n / (2 * es);
    let (a, b, c, d) = if kind == 0 {
        (2 * k * es, k * es, 2 * k * es, (half + k) * es)
    } else if kind == 1 {
        ((2 * k + 1) * es, k * es, (2 * k + 1) * es, (half + k) * es)
    } else if kind == 2 {
        (k * es, 2 * k * es, k * es, (2 * k + 1) * es)
    } else if kind == 3 {
        (n / 2 + k * es, 2 * k * es, n / 2 + k * es, (2 * k + 1) * es)
    } else if kind == 4 {
        (2 * k * es, 2 * k * es, 2 * k * es, (2 * k + 1) * es)
    } else {
        ((2 * k + 1) * es, 2 * k * es, (2 * k + 1) * es, (2 * k + 1) * es)
    };
    el_move(buf, esize, a_src + a, vslot(rd) + b);
    el_move(buf, esize, b_src + c, vslot(rd) + d);
    proof {
        assert(buf@ =~= start + perm_step_bytes(rd, a_src, b_src, kind, esize, n as int, k as int));
    }
}

#[verifier::spinoff_prover]
pub(crate) fn translate_permute(buf: &mut CodeBuf, rd: u8, rn: u8, rm: u8, kind: u8, esize: u8, q: bool)
    requires
        esize != 0,
    ensures
        final(buf)@ == old(buf)@ + permute_bytes(rd, rn, rm, kind, esize, q),
{
    let ghost start = buf@;
    let a_src = permute_source(buf, rd, rn, false);
    let b_src = permute_source(buf, rd, rm, true);
    let ghost p1 = buf@;
    let n: i32 = if q { 16 } else { 8 };
    let es = esize as i32;
    let cnt = n / (2 * es);
    proof {
        assert(cnt * 2 * es <= n) by (nonlinear_arith)
            requires
                cnt == (n as int) / (2 * (es as int)),
                es >= 1,
                n >= 0,
        ;
    }
    let mut k: i32 = 0;
    while k < cnt
        invariant
            0 <= k <= cnt,
            cnt == (n as int) / (2 * (es as int)),
            cnt * 2 * es <= n,
            n == 8 || n == 16,
            es == esize,
            es >= 1,
            a_src == permute_off(rd, rn, false),
            b_src == permute_off(rd, rm, true),
            buf@ == p1 + perm_steps_bytes(rd, a_src, b_src, kind, esize, n as int, k as nat),
        decreases cnt - k,
    {
        proof {
            assert((2 * k + 2) * es <= n) by (nonlinear_arith)
                requires
                    k < cnt,
                    cnt * 2 * es <= n,
                    es >= 1,
            ;
        }
        perm_step(buf, rd, a_src, b_src, kind, esize, n, k);
        proof {
            assert(buf@ =~= p1 + perm_steps_bytes(rd, a_src, b_src, kind, esize, n as int, (k + 1) as nat));
        }
        k = k + 1;
    }
    proof {
        assert(buf@ =~= start + permute_bytes(rd, rn, rm, kind, esize, q));
    }
}

/// The element counts ADDV handles: bytes of 8B/16B, halves of 4H/8H,
/// words of 4S.
pub open spec fn addv_lanes(size: u8, q: bool) -> Option<u32> {
    if size == 1 {
        Some(if q { 16u32 } else { 8u32 })
    } else if size == 2 {
        Some(if q { 8u32 } else { 4u32 })
    } else if size == 4 && q {
        Some(4u32)
    } else {
        None
    }
}

/// Element `i` of ADDV sign-extended into RAX and added into RDI.
pub open spec fn addv_lane_bytes(rn: u8, size: u8, i: int) -> Seq<u8> {
    let off = lane_off(rn, i * size);
    (if size == 1 {
        enc_movsx_byte_mem(RAX, RBX, off)
    } else if size == 2 {
        enc_movsx_word_mem(RAX, RBX, off)
    } else {
        enc_mov_load32(RAX, RBX, off) + seq![rex_w(RAX, RAX), 0x63u8, modrm_byte(3, RAX & 7, RAX & 7)]
    }) + enc_binop(0x01, RDI, RAX)
}

/// The first `n` elements of ADDV.
pub open spec fn addv_lanes_bytes(rn: u8, size: u8, n: nat) -> Seq<u8>
    decreases n,
{
    if n == 0 {
        Seq::empty()
    } else {
        addv_lanes_bytes(rn, size, (n - 1) as nat) + addv_lane_bytes(rn, size, n - 1)
    }
}

/// ADDV: the sum in RDI of the sign-extended elements, truncated to the
/// element size and stored as the low 8 bytes of `rd` (the bytes above the
/// element cleared); nothing for an unsupported `size`/`q`.
pub open spec fn addv_bytes(rd: u8, rn: u8, size: u8, q: bool) -> Seq<u8> {
    match addv_lanes(size, q) {
        Some(lanes) => enc_binop(0x31, RDI, RDI) + addv_lanes_bytes(rn, size, lanes as nat) + (if size
            == 1 {
            enc_ari_imm(4, RDI, 0xff)
        } else if size == 2 {
            enc_ari_imm(4, RDI, 0xffff)
        } else {
            enc_zero_ext_r32(RDI)
        }) + enc_mov_store64(RBX, vslot_of(rd), RDI),
        None => Seq::empty(),
    }
}

#[verifier::spinoff_prover]
pub(crate) fn translate_addv(buf: &mut CodeBuf, rd: u8, rn: u8, size: u8, q: bool) -> (ok: bool)
    ensures
        ok == (addv_lanes(size, q) is Some),
        final(buf)@ == old(buf)@ + addv_bytes(rd, rn, size, q),
{
    let ghost start = buf@;
    let lanes: u32 = if size == 1 {
        if q { 16 } else { 8 }
    } else if size == 2 {
        if q { 8 } else { 4 }
    } else if size == 4 && q {
        4
    } else {
        proof {
            assert(buf@ =~= start + addv_bytes(rd, rn, size, q));
        }
        return false;
    };
    buf.xor_rr64(RDI, RDI);  // the sum
    let ghost p1 = buf@;
    let mut i: u32 = 0;
    while i < lanes
        invariant
            i <= lanes,
            lanes <= 16,
            size == 1 || size == 2 || size == 4,
            buf@ == p1 + addv_lanes_bytes(rn, size, i as nat),
        decreases lanes - i,
    {
        let ghost before = buf@;
        let off = vslot(rn) + (i as i32) * (size as i32);
        if size == 1 {
            buf.movsx_byte_mem(RAX, RBX, off);
        } else if size == 2 {
            buf.movsx_word_mem(RAX, RBX, off);
        } else {
            buf.mov_load32(RAX, RBX, off);
            buf.movsxd_r64_r32(RAX, RAX);
        }
        buf.add_rr64(RDI, RAX);
        proof {
            assert(buf@ =~= before + addv_lane_bytes(rn, size, i as int));
            assert(buf@ =~= p1 + addv_lanes_bytes(rn, size, (i + 1) as nat));
        }
        i = i + 1;
    }
    let ghost p2 = buf@;
    // the scalar result clears the rest of the low 8 bytes
    if size == 1 {
        buf.and_ri64(RDI, 0xff);
    } else if size == 2 {
        buf.and_ri64(RDI, 0xffff);
    } else {
        buf.zero_ext_r32(RDI);
    }
    buf.mov_store64(RBX, vslot(rd), RDI);
    proof {
        assert(buf@ =~= start + addv_bytes(rd, rn, size, q));
    }
    true
}

/// Lane `i` of SMIN/SMAX/UMIN/UMAX (`max`, `unsigned`): both elements
/// extended into RAX and RCX (32-bit lanes for `esize` 4, else bytes),
/// `cmp rcx, rax`, `cmov` of RCX into RAX on above/greater (max) or
/// below/less, the result stored.
pub open spec fn minmax_lane_bytes(rd: u8, rn: u8, rm: u8, max: bool, unsigned: bool, esize: u8, i: int) -> Seq<u8> {
    let so = lane_off(rn, i * esize);
    let mo = lane_off(rm, i * esize);
    let sx = seq![rex_w(RAX, RAX), 0x63u8, modrm_byte(3, RAX & 7, RAX & 7)];
    let sxc = seq![rex_w(RCX, RCX), 0x63u8, modrm_byte(3, RCX & 7, RCX & 7)];
    (if esize == 4 {
        enc_mov_load32(RAX, RBX, so) + (if unsigned { Seq::empty() } else { sx }) + enc_mov_load32(
            RCX,
            RBX,
            mo,
        ) + (if unsigned { Seq::empty() } else { sxc })
    } else if unsigned {
        enc_movzx_byte_mem(RAX, RBX, so) + enc_movzx_byte_mem(RCX, RBX, mo)
    } else {
        enc_movsx_byte_mem(RAX, RBX, so) + enc_movsx_byte_mem(RCX, RBX, mo)
    }) + enc_binop(0x39, RCX, RAX) + enc_cmov_rr64(
        if max {
            if unsigned { 0x47 } else { 0x4F }
        } else {
            if unsigned { 0x42 } else { 0x4C }
        },
        RAX,
        RCX,
    ) + if esize == 4 {
        enc_mov_store32(RBX, lane_off(rd, i * esize), RAX)
    } else {
        enc_mov_store8(RBX, lane_off(rd, i * esize), RAX)
    }
}

/// The first `n` lanes.
pub open spec fn minmax_bytes(rd: u8, rn: u8, rm: u8, max: bool, unsigned: bool, esize: u8, n: nat) -> Seq<u8>
    decreases n,
{
    if n == 0 {
        Seq::empty()
    } else {
        minmax_bytes(rd, rn, rm, max, unsigned, esize, (n - 1) as nat) + minmax_lane_bytes(
            rd,
            rn,
            rm,
            max,
            unsigned,
            esize,
            n - 1,
        )
    }
}

/// SMIN/SMAX/UMIN/UMAX: 4 or 2 (`q` clear) 32-bit lanes for `esize` 4,
/// else 16 or 8 lanes.
pub open spec fn smin_max_bytes(rd: u8, rn: u8, rm: u8, max: bool, unsigned: bool, esize: u8, q: bool) -> Seq<u8> {
    let lanes: nat = if esize == 4 {
        if q { 4 } else { 2 }
    } else {
        if q { 16 } else { 8 }
    };
    minmax_bytes(rd, rn, rm, max, unsigned, esize, lanes)
}

#[verifier::spinoff_prover]
fn minmax_lane(buf: &mut CodeBuf, rd: u8, rn: u8, rm: u8, max: bool, unsigned: bool, esize: u8, i: u8)
    requires
        i < 16,
    ensures
        final(buf)@ == old(buf)@ + minmax_lane_bytes(rd, rn, rm, max, unsigned, esize, i as int),
{
    let ghost start = buf@;
    let e = elem_off(i, esize);
    let so = vslot(rn) + e;
    let mo = vslot(rm) + e;
    if esize == 4 {
        buf.mov_load32(RAX, RBX, so);
        if !unsigned {
            buf.movsxd_r64_r32(RAX, RAX);
        }
        let ghost m1 = buf@;
        buf.mov_load32(RCX, RBX, mo);
        if !unsigned {
            buf.movsxd_r64_r32(RCX, RCX);
        }
        proof {
            let sx = seq![rex_w(RAX, RAX), 0x63u8, modrm_byte(3, RAX & 7, RAX & 7)];
            let sxc = seq![rex_w(RCX, RCX), 0x63u8, modrm_byte(3, RCX & 7, RCX & 7)];
            assert(m1 =~= start + enc_mov_load32(RAX, RBX, so) + (if unsigned { Seq::empty() } else { sx }));
            assert(buf@ =~= m1 + enc_mov_load32(RCX, RBX, mo) + (if unsigned { Seq::empty() } else { sxc }));
        }
    } else if unsigned {
        buf.movzx_byte_mem(RAX, RBX, so);
        buf.movzx_byte_mem(RCX, RBX, mo);
    } else {
        buf.movsx_byte_mem(RAX, RBX, so);
        buf.movsx_byte_mem(RCX, RBX, mo);
    }
    binop_rr(buf, 0x39, RCX, RAX);  // flags of rm - rn
    let cc: u8 = if max {
        if unsigned { 0x47 } else { 0x4F }
    } else {
        if unsigned { 0x42 } else { 0x4C }
    };
    buf.cmov_rr64(cc, RAX, RCX);
    if esize == 4 {
        buf.mov_store32(RBX, vslot(rd) + e, RAX);
    } else {
        buf.mov_store8(RBX, vslot(rd) + e, RAX);
    }
    proof {
        assert(buf@ =~= start + minmax_lane_bytes(rd, rn, rm, max, unsigned, esize, i as int));
    }
}

#[verifier::spinoff_prover]
pub(crate) fn translate_smin_max(buf: &mut CodeBuf, rd: u8, rn: u8, rm: u8, max: bool, unsigned: bool, esize: u8, q: bool)
    ensures
        final(buf)@ == old(buf)@ + smin_max_bytes(rd, rn, rm, max, unsigned, esize, q),
{
    let ghost start = buf@;
    let lanes: u8 = if esize == 4 {
        if q { 4 } else { 2 }
    } else {
        if q { 16 } else { 8 }
    };
    let mut i: u8 = 0;
    while i < lanes
        invariant
            i <= lanes,
            lanes <= 16,
            lanes as nat == (if esize == 4 {
                if q { 4nat } else { 2nat }
            } else {
                if q { 16nat } else { 8nat }
            }),
            buf@ == start + minmax_bytes(rd, rn, rm, max, unsigned, esize, i as nat),
        decreases lanes - i,
    {
        minmax_lane(buf, rd, rn, rm, max, unsigned, esize, i);
        proof {
            assert(buf@ =~= start + minmax_bytes(rd, rn, rm, max, unsigned, esize, (i + 1) as nat));
        }
        i = i + 1;
    }
}

/// Byte `i` of TBL/TBX (`tbx`): the index from `rm`, the table byte at
/// `RBX + slot(rn) + index` (read through R10), the default 0 or the old
/// byte of `rd` (TBX) in RDX, the table byte chosen when the index is
/// below `16 * n_tables`.
pub open spec fn tbl_lane_bytes(rd: u8, rn: u8, rm: u8, tbx: bool, n_tables: u8, i: int) -> Seq<u8> {
    tbl_fetch_bytes(rn, rm, i) + tbl_select_bytes(rd, tbx, n_tables, i)
}

/// The index from `rm` into RAX and the table byte at `RBX + slot(rn) +
/// index` into RCX (through R10).
pub open spec fn tbl_fetch_bytes(rn: u8, rm: u8, i: int) -> Seq<u8> {
    enc_movzx_byte_mem(RAX, RBX, lane_off(rm, i)) + enc_mov_ri64(R10, vslot_of(rn) as u64) + enc_binop(
        0x01,
        R10,
        RBX,
    ) + enc_binop(0x01, R10, RAX) + enc_movzx_byte_mem(RCX, R10, 0)
}

/// The default (0, or the old byte for TBX) in RDX, the table byte chosen
/// when the index is below `16 * n_tables`, the byte stored.
pub open spec fn tbl_select_bytes(rd: u8, tbx: bool, n_tables: u8, i: int) -> Seq<u8> {
    enc_mov_ri64(RDX, 0) + (if tbx {
        enc_movzx_byte_mem(RDX, RBX, lane_off(rd, i))
    } else {
        Seq::empty()
    }) + enc_mov_ri64(RDI, (16 * n_tables) as u64) + enc_binop(0x39, RAX, RDI) + enc_cmov_rr64(
        0x42,
        RDX,
        RCX,
    ) + enc_mov_store8(RBX, lane_off(rd, i), RDX)
}

/// The first `n` bytes of TBL/TBX.
pub open spec fn tbl_bytes(rd: u8, rn: u8, rm: u8, tbx: bool, n_tables: u8, n: nat) -> Seq<u8>
    decreases n,
{
    if n == 0 {
        Seq::empty()
    } else {
        tbl_bytes(rd, rn, rm, tbx, n_tables, (n - 1) as nat) + tbl_lane_bytes(rd, rn, rm, tbx, n_tables, n - 1)
    }
}

#[verifier::spinoff_prover]
fn tbl_fetch(buf: &mut CodeBuf, rn: u8, rm: u8, i: i32)
    requires
        0 <= i < 16,
    ensures
        final(buf)@ == old(buf)@ + tbl_fetch_bytes(rn, rm, i as int),
{
    let ghost start = buf@;
    buf.movzx_byte_mem(RAX, RBX, vslot(rm) + i);  // the index
    buf.mov_ri64(R10, vslot(rn) as u64);
    buf.add_rr64(R10, RBX);
    buf.add_rr64(R10, RAX);
    buf.movzx_byte_mem(RCX, R10, 0);  // the table byte
    proof {
        assert(buf@ =~= start + tbl_fetch_bytes(rn, rm, i as int));
    }
}

#[verifier::spinoff_prover]
fn tbl_select(buf: &mut CodeBuf, rd: u8, tbx: bool, n_tables: u8, i: i32)
    requires
        0 <= i < 16,
    ensures
        final(buf)@ == old(buf)@ + tbl_select_bytes(rd, tbx, n_tables, i as int),
{
    let ghost start = buf@;
    buf.mov_ri64(RDX, 0);
    let ghost m1 = buf@;
    if tbx {
        buf.movzx_byte_mem(RDX, RBX, vslot(rd) + i);  // TBX keeps the old byte
    }
    let ghost m2 = buf@;
    buf.mov_ri64(RDI, (16 * (n_tables as u32)) as u64);
    binop_rr(buf, 0x39, RAX, RDI);
    buf.cmov_rr64(0x42, RDX, RCX);  // cmovb: an index inside the tables
    buf.mov_store8(RBX, vslot(rd) + i, RDX);
    proof {
        assert(m2 =~= m1 + (if tbx {
            enc_movzx_byte_mem(RDX, RBX, lane_off(rd, i as int))
        } else {
            Seq::empty()
        }));
        assert(buf@ =~= start + tbl_select_bytes(rd, tbx, n_tables, i as int));
    }
}

#[verifier::spinoff_prover]
fn tbl_lane(buf: &mut CodeBuf, rd: u8, rn: u8, rm: u8, tbx: bool, n_tables: u8, i: i32)
    requires
        0 <= i < 16,
    ensures
        final(buf)@ == old(buf)@ + tbl_lane_bytes(rd, rn, rm, tbx, n_tables, i as int),
{
    let ghost start = buf@;
    tbl_fetch(buf, rn, rm, i);
    tbl_select(buf, rd, tbx, n_tables, i);
    proof {
        assert(buf@ =~= start + tbl_lane_bytes(rd, rn, rm, tbx, n_tables, i as int));
    }
}

#[verifier::spinoff_prover]
pub(crate) fn translate_tbl(buf: &mut CodeBuf, rd: u8, rn: u8, rm: u8, tbx: bool, n_tables: u8)
    ensures
        final(buf)@ == old(buf)@ + tbl_bytes(rd, rn, rm, tbx, n_tables, 16),
{
    let ghost start = buf@;
    let mut i: i32 = 0;
    while i < 16
        invariant
            0 <= i <= 16,
            buf@ == start + tbl_bytes(rd, rn, rm, tbx, n_tables, i as nat),
        decreases 16 - i,
    {
        tbl_lane(buf, rd, rn, rm, tbx, n_tables, i);
        proof {
            assert(buf@ =~= start + tbl_bytes(rd, rn, rm, tbx, n_tables, (i + 1) as nat));
        }
        i = i + 1;
    }
}

/// Lane `i` of XTN: the low `dst_esize` bytes of source element `i`
/// (read as 4 bytes, masked to 2 or 1), stored narrow.
pub open spec fn xtn_lane_bytes(rd: u8, rn: u8, dst_esize: u8, i: int) -> Seq<u8> {
    enc_mov_load32(RAX, RBX, lane_off(rn, i * 2 * dst_esize)) + (if dst_esize == 4 {
        Seq::empty()
    } else if dst_esize == 2 {
        enc_ari_imm(4, RAX, 0xffff)
    } else {
        enc_ari_imm(4, RAX, 0xff)
    }) + if dst_esize == 4 {
        enc_mov_store32(RBX, lane_off(rd, i * dst_esize), RAX)
    } else if dst_esize == 2 {
        enc_mov_store16(RBX, lane_off(rd, i * dst_esize), RAX)
    } else {
        enc_mov_store8(RBX, lane_off(rd, i * dst_esize), RAX)
    }
}

/// The first `n` lanes of XTN.
pub open spec fn xtn_lanes_bytes(rd: u8, rn: u8, dst_esize: u8, n: nat) -> Seq<u8>
    decreases n,
{
    if n == 0 {
        Seq::empty()
    } else {
        xtn_lanes_bytes(rd, rn, dst_esize, (n - 1) as nat) + xtn_lane_bytes(rd, rn, dst_esize, n - 1)
    }
}

/// XTN Vd.8B/4H/2S: the `8 / dst_esize` narrowed lanes into the low half of
/// `rd`, its high half cleared.
pub open spec fn simd_xtn_bytes(rd: u8, rn: u8, dst_esize: u8) -> Seq<u8> {
    xtn_lanes_bytes(rd, rn, dst_esize, (8int / dst_esize as int) as nat) + enc_mov_ri64(RAX, 0)
        + enc_mov_store64(RBX, lane_off(rd, 8), RAX)
}

#[verifier::spinoff_prover]
fn xtn_lane(buf: &mut CodeBuf, rd: u8, rn: u8, dst_esize: u8, i: u8)
    requires
        i < 8,
        dst_esize >= 1,
        i * dst_esize < 8,
    ensures
        final(buf)@ == old(buf)@ + xtn_lane_bytes(rd, rn, dst_esize, i as int),
{
    let ghost start = buf@;
    let d = (i as i32) * (dst_esize as i32);
    let src = vslot(rn) + 2 * d;
    buf.mov_load32(RAX, RBX, src);
    let ghost m1 = buf@;
    if dst_esize == 2 {
        buf.and_ri64(RAX, 0xffff);
    } else if dst_esize != 4 {
        buf.and_ri64(RAX, 0xff);
    }
    let ghost m2 = buf@;
    if dst_esize == 4 {
        buf.mov_store32(RBX, vslot(rd) + d, RAX);
    } else if dst_esize == 2 {
        buf.mov_store16(RBX, vslot(rd) + d, RAX);
    } else {
        buf.mov_store8(RBX, vslot(rd) + d, RAX);
    }
    proof {
        assert(i * 2 * dst_esize == 2 * (i * dst_esize)) by (nonlinear_arith);
        assert(m2 =~= m1 + (if dst_esize == 4 {
            Seq::empty()
        } else if dst_esize == 2 {
            enc_ari_imm(4, RAX, 0xffff)
        } else {
            enc_ari_imm(4, RAX, 0xff)
        }));
        assert(buf@ =~= start + xtn_lane_bytes(rd, rn, dst_esize, i as int));
    }
}

#[verifier::spinoff_prover]
pub(crate) fn translate_simd_xtn(buf: &mut CodeBuf, rd: u8, rn: u8, dst_esize: u8)
    requires
        dst_esize != 0,
    ensures
        final(buf)@ == old(buf)@ + simd_xtn_bytes(rd, rn, dst_esize),
{
    let ghost start = buf@;
    let lanes: u8 = 8 / dst_esize;
    let mut i: u8 = 0;
    while i < lanes
        invariant
            i <= lanes,
            lanes == 8u8 / dst_esize,
            dst_esize >= 1,
            buf@ == start + xtn_lanes_bytes(rd, rn, dst_esize, i as nat),
        decreases lanes - i,
    {
        proof {
            assert(i * dst_esize < 8) by (nonlinear_arith)
                requires
                    i < 8u8 / dst_esize,
                    dst_esize >= 1,
            ;
        }
        xtn_lane(buf, rd, rn, dst_esize, i);
        proof {
            assert(buf@ =~= start + xtn_lanes_bytes(rd, rn, dst_esize, (i + 1) as nat));
        }
        i = i + 1;
    }
    buf.mov_ri64(RAX, 0);
    buf.mov_store64(RBX, vslot(rd) + 8, RAX);  // the high half cleared
    proof {
        assert(buf@ =~= start + simd_xtn_bytes(rd, rn, dst_esize));
    }
}

} // verus!
