//! Element-wise vector compares, halving adds and subtracts, absolute
//! differences and element moves to general registers, lowered lane by lane
//! through RAX and RCX.
use vstd::prelude::*;
use crate::fp_ops::{jcc_d, jcc_to, vslot};
use crate::machine::prog_bytes;
use crate::simd_ops::{imul_bytes, binop_rr, el_store, el_store_bytes, elem_off, lane_off};
use crate::translate::{permute_off, permute_prog, permute_source, stg, stg_prog, vslot_of};
use crate::x86::{
    enc_ari_imm, enc_binop, enc_grp3, enc_setcc_rm8, enc_movzx_r32_r8, enc_cmov_rr64, enc_mov_load32, enc_mov_load64, enc_mov_ri64, enc_mov_rr64,
    enc_mov_store16, enc_mov_store32, enc_mov_store64, enc_mov_store8, enc_movsx_byte_mem, enc_movsx_word_mem,
    enc_movzx_byte_mem, enc_movzx_word_mem, enc_shift_ri8, enc_movq_load, enc_movq_store, enc_sse_rr, enc_sse_rex_rr, enc_mov_ri32, rex_byte, enc_pclmulq, enc_movdqu_store, modrm_byte, rex_w, CodeBuf, RAX, RBX, RCX,
    RDI, RDX, R10,
};

verus! {

/// `movsxd r, r32` on `r` itself.
pub open spec fn sxd(r: u8) -> Seq<u8> {
    seq![rex_w(r, r), 0x63u8, modrm_byte(3, r & 7, r & 7)]
}

/// The mask that keeps an `esize`-byte element of a 32-bit load: 4 and 2
/// bytes as they are, 1 byte for any other size.
pub open spec fn cmeq_mask(esize: u8) -> u32 {
    if esize == 4 {
        0xffff_ffff
    } else if esize == 2 {
        0xffff
    } else {
        0xff
    }
}

/// Lane `i` of CMEQ: both elements loaded (8 bytes, or 4 masked to the
/// element), compared, all ones where equal (`cmove`) and zero elsewhere.
pub open spec fn cmeq_lane_bytes(rd: u8, rn: u8, rm: u8, esize: u8, i: int) -> Seq<u8> {
    let so = lane_off(rn, i * esize);
    let mo = lane_off(rm, i * esize);
    (if esize == 8 {
        enc_mov_load64(RAX, RBX, so) + enc_mov_load64(RCX, RBX, mo)
    } else {
        enc_mov_load32(RAX, RBX, so) + enc_mov_load32(RCX, RBX, mo) + enc_ari_imm(4, RAX, cmeq_mask(esize))
            + enc_ari_imm(4, RCX, cmeq_mask(esize))
    }) + enc_binop(0x39, RAX, RCX) + enc_mov_ri64(RDI, 0) + enc_mov_ri64(RDX, 0xffff_ffff_ffff_ffff)
        + enc_cmov_rr64(0x44, RDI, RDX) + el_store_bytes(esize, lane_off(rd, i * esize), RDI)
}

/// CMEQ on the first `n` lanes.
pub open spec fn cmeq_bytes(rd: u8, rn: u8, rm: u8, esize: u8, n: nat) -> Seq<u8>
    decreases n,
{
    if n == 0 {
        Seq::empty()
    } else {
        cmeq_bytes(rd, rn, rm, esize, (n - 1) as nat) + cmeq_lane_bytes(rd, rn, rm, esize, n - 1)
    }
}

#[verifier::spinoff_prover]
pub(crate) fn translate_cmeq(buf: &mut CodeBuf, rd: u8, rn: u8, rm: u8, lanes: u8, esize: u8)
    ensures
        final(buf)@ == old(buf)@ + cmeq_bytes(rd, rn, rm, esize, lanes as nat),
{
    let ghost start = buf@;
    let mut i: u8 = 0;
    while i < lanes
        invariant
            i <= lanes,
            buf@ == start + cmeq_bytes(rd, rn, rm, esize, i as nat),
        decreases lanes - i,
    {
        let ghost before = buf@;
        let off = elem_off(i, esize);
        if esize == 8 {
            buf.mov_load64(RAX, RBX, vslot(rn) + off);
            buf.mov_load64(RCX, RBX, vslot(rm) + off);
        } else {
            buf.mov_load32(RAX, RBX, vslot(rn) + off);
            buf.mov_load32(RCX, RBX, vslot(rm) + off);
            let imm: u32 = if esize == 4 {
                0xffff_ffff
            } else if esize == 2 {
                0xffff
            } else {
                0xff
            };
            buf.and_ri64(RAX, imm);
            buf.and_ri64(RCX, imm);
        }
        binop_rr(buf, 0x39, RAX, RCX);
        buf.mov_ri64(RDI, 0);
        buf.mov_ri64(RDX, 0xffff_ffff_ffff_ffff);
        buf.cmov_rr64(0x44, RDI, RDX);  // cmove
        el_store(buf, esize, vslot(rd) + off, RDI);
        proof {
            assert(buf@ =~= before + cmeq_lane_bytes(rd, rn, rm, esize, i as int));
            assert(buf@ =~= start + cmeq_bytes(rd, rn, rm, esize, (i + 1) as nat));
        }
        i = i + 1;
    }
}

/// Both elements sign-extended into RAX (`rn`) and RCX (`rm`): 8, 4 or 2
/// bytes, 1 byte for any other size.
pub open spec fn sx_pair_bytes(so: i32, mo: i32, esize: u8) -> Seq<u8> {
    if esize == 8 {
        enc_mov_load64(RAX, RBX, so) + enc_mov_load64(RCX, RBX, mo)
    } else if esize == 4 {
        enc_mov_load32(RAX, RBX, so) + sxd(RAX) + enc_mov_load32(RCX, RBX, mo) + sxd(RCX)
    } else if esize == 2 {
        enc_movsx_word_mem(RAX, RBX, so) + enc_movsx_word_mem(RCX, RBX, mo)
    } else {
        enc_movsx_byte_mem(RAX, RBX, so) + enc_movsx_byte_mem(RCX, RBX, mo)
    }
}

#[verifier::spinoff_prover]
fn sx_pair(buf: &mut CodeBuf, so: i32, mo: i32, esize: u8)
    ensures
        final(buf)@ == old(buf)@ + sx_pair_bytes(so, mo, esize),
{
    let ghost start = buf@;
    if esize == 8 {
        buf.mov_load64(RAX, RBX, so);
        buf.mov_load64(RCX, RBX, mo);
    } else if esize == 4 {
        buf.mov_load32(RAX, RBX, so);
        buf.movsxd_r64_r32(RAX, RAX);
        buf.mov_load32(RCX, RBX, mo);
        buf.movsxd_r64_r32(RCX, RCX);
    } else if esize == 2 {
        buf.movsx_word_mem(RAX, RBX, so);
        buf.movsx_word_mem(RCX, RBX, mo);
    } else {
        buf.movsx_byte_mem(RAX, RBX, so);
        buf.movsx_byte_mem(RCX, RBX, mo);
    }
    proof {
        assert(buf@ =~= start + sx_pair_bytes(so, mo, esize));
    }
}

/// Lane `i` of CMGT, or CMGE with `ge`: signed compare of the extended
/// elements, all ones unless `rn <= rm` (`cmovle`, CMGT) or `rn < rm`
/// (`cmovl`, CMGE).
pub open spec fn cmgt_lane_bytes(rd: u8, rn: u8, rm: u8, esize: u8, ge: bool, i: int) -> Seq<u8> {
    sx_pair_bytes(lane_off(rn, i * esize), lane_off(rm, i * esize), esize) + enc_binop(0x39, RAX, RCX)
        + enc_mov_ri64(RDI, 0xffff_ffff_ffff_ffff) + enc_mov_ri64(RDX, 0) + enc_cmov_rr64(
        if ge { 0x4c } else { 0x4e },
        RDI,
        RDX,
    ) + el_store_bytes(esize, lane_off(rd, i * esize), RDI)
}

/// CMGT/CMGE on the first `n` lanes.
pub open spec fn cmgt_bytes(rd: u8, rn: u8, rm: u8, esize: u8, ge: bool, n: nat) -> Seq<u8>
    decreases n,
{
    if n == 0 {
        Seq::empty()
    } else {
        cmgt_bytes(rd, rn, rm, esize, ge, (n - 1) as nat) + cmgt_lane_bytes(rd, rn, rm, esize, ge, n - 1)
    }
}

#[verifier::spinoff_prover]
pub(crate) fn translate_cmgt(buf: &mut CodeBuf, rd: u8, rn: u8, rm: u8, lanes: u8, esize: u8, ge: bool)
    ensures
        final(buf)@ == old(buf)@ + cmgt_bytes(rd, rn, rm, esize, ge, lanes as nat),
{
    let ghost start = buf@;
    let mut i: u8 = 0;
    while i < lanes
        invariant
            i <= lanes,
            buf@ == start + cmgt_bytes(rd, rn, rm, esize, ge, i as nat),
        decreases lanes - i,
    {
        let ghost before = buf@;
        let off = elem_off(i, esize);
        sx_pair(buf, vslot(rn) + off, vslot(rm) + off, esize);
        binop_rr(buf, 0x39, RAX, RCX);
        buf.mov_ri64(RDI, 0xffff_ffff_ffff_ffff);
        buf.mov_ri64(RDX, 0);
        buf.cmov_rr64(if ge { 0x4c } else { 0x4e }, RDI, RDX);
        el_store(buf, esize, vslot(rd) + off, RDI);
        proof {
            assert(buf@ =~= before + cmgt_lane_bytes(rd, rn, rm, esize, ge, i as int));
            assert(buf@ =~= start + cmgt_bytes(rd, rn, rm, esize, ge, (i + 1) as nat));
        }
        i = i + 1;
    }
}

/// Both elements into RAX and RCX for the halving forms: zero-extended
/// (`unsigned`) or sign-extended from 1, 2, or 4 bytes for any other size.
pub open spec fn half_pair_bytes(so: i32, mo: i32, esize: u8, unsigned: bool) -> Seq<u8> {
    if unsigned {
        if esize == 1 {
            enc_movzx_byte_mem(RAX, RBX, so) + enc_movzx_byte_mem(RCX, RBX, mo)
        } else if esize == 2 {
            enc_movzx_word_mem(RAX, RBX, so) + enc_movzx_word_mem(RCX, RBX, mo)
        } else {
            enc_mov_load32(RAX, RBX, so) + enc_mov_load32(RCX, RBX, mo)
        }
    } else {
        if esize == 1 {
            enc_movsx_byte_mem(RAX, RBX, so) + enc_movsx_byte_mem(RCX, RBX, mo)
        } else if esize == 2 {
            enc_movsx_word_mem(RAX, RBX, so) + enc_movsx_word_mem(RCX, RBX, mo)
        } else {
            enc_mov_load32(RAX, RBX, so) + sxd(RAX) + enc_mov_load32(RCX, RBX, mo) + sxd(RCX)
        }
    }
}

#[verifier::spinoff_prover]
fn half_pair(buf: &mut CodeBuf, so: i32, mo: i32, esize: u8, unsigned: bool)
    ensures
        final(buf)@ == old(buf)@ + half_pair_bytes(so, mo, esize, unsigned),
{
    let ghost start = buf@;
    if unsigned {
        if esize == 1 {
            buf.movzx_byte_mem(RAX, RBX, so);
            buf.movzx_byte_mem(RCX, RBX, mo);
        } else if esize == 2 {
            buf.mov_load16(RAX, RBX, so);
            buf.mov_load16(RCX, RBX, mo);
        } else {
            buf.mov_load32(RAX, RBX, so);
            buf.mov_load32(RCX, RBX, mo);
        }
    } else {
        if esize == 1 {
            buf.movsx_byte_mem(RAX, RBX, so);
            buf.movsx_byte_mem(RCX, RBX, mo);
        } else if esize == 2 {
            buf.movsx_word_mem(RAX, RBX, so);
            buf.movsx_word_mem(RCX, RBX, mo);
        } else {
            buf.mov_load32(RAX, RBX, so);
            buf.movsxd_r64_r32(RAX, RAX);
            buf.mov_load32(RCX, RBX, mo);
            buf.movsxd_r64_r32(RCX, RCX);
        }
    }
    proof {
        assert(buf@ =~= start + half_pair_bytes(so, mo, esize, unsigned));
    }
}

/// The low 1, 2, or 4 (any other size) bytes of RAX to `off`.
pub open spec fn store124_bytes(esize: u8, off: i32) -> Seq<u8> {
    if esize == 1 {
        enc_mov_store8(RBX, off, RAX)
    } else if esize == 2 {
        enc_mov_store16(RBX, off, RAX)
    } else {
        enc_mov_store32(RBX, off, RAX)
    }
}

#[verifier::spinoff_prover]
fn store124(buf: &mut CodeBuf, esize: u8, off: i32)
    ensures
        final(buf)@ == old(buf)@ + store124_bytes(esize, off),
{
    if esize == 1 {
        buf.mov_store8(RBX, off, RAX);
    } else if esize == 2 {
        buf.mov_store16(RBX, off, RAX);
    } else {
        buf.mov_store32(RBX, off, RAX);
    }
}

/// The lane count of a 16-byte (`q`) or 8-byte vector of `esize`-byte
/// elements.
pub open spec fn lane_count(esize: u8, q: bool) -> nat {
    if q {
        16nat / (esize as nat)
    } else {
        8nat / (esize as nat)
    }
}

pub(crate) fn lanes_of(esize: u8, q: bool) -> (n: u8)
    requires
        esize != 0,
    ensures
        n as nat == lane_count(esize, q),
        n <= 16,
{
    if q {
        16 / esize
    } else {
        8 / esize
    }
}

/// The right shift by one of RAX: logical (`unsigned`) or arithmetic.
pub open spec fn halve_bytes(r: u8, unsigned: bool) -> Seq<u8> {
    enc_shift_ri8(if unsigned { 5 } else { 7 }, r, 1)
}

/// Lane `i` of SHSUB/UHSUB: `(a - b) >> 1` on the extended elements.
pub open spec fn hsub_lane_bytes(rd: u8, rn: u8, rm: u8, unsigned: bool, esize: u8, i: int) -> Seq<u8> {
    half_pair_bytes(lane_off(rn, i * esize), lane_off(rm, i * esize), esize, unsigned) + enc_binop(
        0x29,
        RAX,
        RCX,
    ) + halve_bytes(RAX, unsigned) + store124_bytes(esize, lane_off(rd, i * esize))
}

/// SHSUB/UHSUB on the first `n` lanes.
pub open spec fn hsub_bytes(rd: u8, rn: u8, rm: u8, unsigned: bool, esize: u8, n: nat) -> Seq<u8>
    decreases n,
{
    if n == 0 {
        Seq::empty()
    } else {
        hsub_bytes(rd, rn, rm, unsigned, esize, (n - 1) as nat) + hsub_lane_bytes(
            rd,
            rn,
            rm,
            unsigned,
            esize,
            n - 1,
        )
    }
}

#[verifier::spinoff_prover]
pub(crate) fn translate_hsub(buf: &mut CodeBuf, rd: u8, rn: u8, rm: u8, unsigned: bool, esize: u8, q: bool)
    requires
        esize != 0,
    ensures
        final(buf)@ == old(buf)@ + hsub_bytes(rd, rn, rm, unsigned, esize, lane_count(esize, q)),
{
    let ghost start = buf@;
    let lanes = lanes_of(esize, q);
    let mut i: u8 = 0;
    while i < lanes
        invariant
            i <= lanes,
            buf@ == start + hsub_bytes(rd, rn, rm, unsigned, esize, i as nat),
        decreases lanes - i,
    {
        let ghost before = buf@;
        let off = elem_off(i, esize);
        half_pair(buf, vslot(rn) + off, vslot(rm) + off, esize, unsigned);
        buf.sub_rr64(RAX, RCX);
        if unsigned {
            buf.shr_ri8(RAX, 1);
        } else {
            buf.sar_ri8(RAX, 1);
        }
        store124(buf, esize, vslot(rd) + off);
        proof {
            assert(buf@ =~= before + hsub_lane_bytes(rd, rn, rm, unsigned, esize, i as int));
            assert(buf@ =~= start + hsub_bytes(rd, rn, rm, unsigned, esize, (i + 1) as nat));
        }
        i = i + 1;
    }
}

/// Lane `i` of SHADD/UHADD: `(a >> 1) + (b >> 1) + (a & b & 1)`, with `b`
/// reloaded as 16 bits for its low bit.
pub open spec fn hadd_lane_bytes(rd: u8, rn: u8, rm: u8, unsigned: bool, esize: u8, i: int) -> Seq<u8> {
    let mo = lane_off(rm, i * esize);
    half_pair_bytes(lane_off(rn, i * esize), mo, esize, unsigned) + enc_mov_rr64(RDX, RAX) + halve_bytes(
        RAX,
        unsigned,
    ) + halve_bytes(RCX, unsigned) + enc_binop(0x01, RAX, RCX) + enc_movzx_word_mem(RCX, RBX, mo)
        + enc_binop(0x21, RDX, RCX) + enc_ari_imm(4, RDX, 1) + enc_binop(0x01, RAX, RDX) + store124_bytes(
        esize,
        lane_off(rd, i * esize),
    )
}

/// SHADD/UHADD on the first `n` lanes.
pub open spec fn hadd_bytes(rd: u8, rn: u8, rm: u8, unsigned: bool, esize: u8, n: nat) -> Seq<u8>
    decreases n,
{
    if n == 0 {
        Seq::empty()
    } else {
        hadd_bytes(rd, rn, rm, unsigned, esize, (n - 1) as nat) + hadd_lane_bytes(
            rd,
            rn,
            rm,
            unsigned,
            esize,
            n - 1,
        )
    }
}

#[verifier::spinoff_prover]
pub(crate) fn translate_hadd(buf: &mut CodeBuf, rd: u8, rn: u8, rm: u8, unsigned: bool, esize: u8, q: bool)
    requires
        esize != 0,
    ensures
        final(buf)@ == old(buf)@ + hadd_bytes(rd, rn, rm, unsigned, esize, lane_count(esize, q)),
{
    let ghost start = buf@;
    let lanes = lanes_of(esize, q);
    let mut i: u8 = 0;
    while i < lanes
        invariant
            i <= lanes,
            buf@ == start + hadd_bytes(rd, rn, rm, unsigned, esize, i as nat),
        decreases lanes - i,
    {
        let ghost before = buf@;
        let off = elem_off(i, esize);
        let mo = vslot(rm) + off;
        half_pair(buf, vslot(rn) + off, mo, esize, unsigned);
        buf.mov_rr64(RDX, RAX);
        if unsigned {
            buf.shr_ri8(RAX, 1);
            buf.shr_ri8(RCX, 1);
        } else {
            buf.sar_ri8(RAX, 1);
            buf.sar_ri8(RCX, 1);
        }
        buf.add_rr64(RAX, RCX);
        buf.mov_load16(RCX, RBX, mo);
        buf.and_rr64(RDX, RCX);
        buf.and_ri64(RDX, 1);
        buf.add_rr64(RAX, RDX);
        store124(buf, esize, vslot(rd) + off);
        proof {
            assert(buf@ =~= before + hadd_lane_bytes(rd, rn, rm, unsigned, esize, i as int));
            assert(buf@ =~= start + hadd_bytes(rd, rn, rm, unsigned, esize, (i + 1) as nat));
        }
        i = i + 1;
    }
}

/// The negation block of an absolute difference: `rcx = 0 - rax; rax = rcx`.
pub open spec fn abd_negate_bytes() -> Seq<u8> {
    enc_mov_ri64(RCX, 0) + enc_binop(0x29, RCX, RAX) + enc_mov_rr64(RAX, RCX)
}

/// Lane `i` of SABD/UABD: the difference of the zero-extended elements (16
/// bits for 1- and 2-byte lanes, 32 otherwise), `bt` of its element sign bit
/// `8 * esize - 1` (mod 256), the negation skipped by `jnb` when that bit is
/// clear, the low bytes stored.
pub open spec fn abd_lane_bytes(rd: u8, rn: u8, rm: u8, esize: u8, i: int) -> Seq<u8> {
    let so = lane_off(rn, i * esize);
    let mo = lane_off(rm, i * esize);
    (if esize == 1 || esize == 2 {
        enc_movzx_word_mem(RAX, RBX, so) + enc_movzx_word_mem(RCX, RBX, mo)
    } else {
        enc_mov_load32(RAX, RBX, so) + enc_mov_load32(RCX, RBX, mo)
    }) + enc_binop(0x29, RAX, RCX) + seq![0x48u8, 0x0F, 0xBA, 0xE0, (esize * 8 - 1) as u8] + jcc_d(
        0x83,
        abd_negate_bytes().len() as u32,
    ) + abd_negate_bytes() + store124_bytes(esize, lane_off(rd, i * esize))
}

/// SABD/UABD on the first `n` lanes.
pub open spec fn abd_bytes(rd: u8, rn: u8, rm: u8, esize: u8, n: nat) -> Seq<u8>
    decreases n,
{
    if n == 0 {
        Seq::empty()
    } else {
        abd_bytes(rd, rn, rm, esize, (n - 1) as nat) + abd_lane_bytes(rd, rn, rm, esize, n - 1)
    }
}

#[verifier::spinoff_prover]
pub(crate) fn translate_abd(buf: &mut CodeBuf, rd: u8, rn: u8, rm: u8, esize: u8, q: bool)
    requires
        esize != 0,
    ensures
        final(buf)@ == old(buf)@ + abd_bytes(rd, rn, rm, esize, lane_count(esize, q)),
{
    let ghost start = buf@;
    let lanes = lanes_of(esize, q);
    let mut i: u8 = 0;
    while i < lanes
        invariant
            i <= lanes,
            esize != 0,
            buf@ == start + abd_bytes(rd, rn, rm, esize, i as nat),
        decreases lanes - i,
    {
        let ghost before = buf@;
        let off = elem_off(i, esize);
        let so = vslot(rn) + off;
        let mo = vslot(rm) + off;
        if esize == 1 || esize == 2 {
            buf.mov_load16(RAX, RBX, so);
            buf.mov_load16(RCX, RBX, mo);
        } else {
            buf.mov_load32(RAX, RBX, so);
            buf.mov_load32(RCX, RBX, mo);
        }
        buf.sub_rr64(RAX, RCX);
        let sb: u8 = ((esize as u32) * 8 - 1) as u8;
        buf.b(0x48);
        buf.b(0x0F);
        buf.b(0xBA);
        buf.b(0xE0);
        buf.b(sb);
        jcc_to(buf, 0x83, 16);  // jnb over the negation
        let ghost mid = buf@;
        buf.mov_ri64(RCX, 0);
        buf.sub_rr64(RCX, RAX);
        buf.mov_rr64(RAX, RCX);
        proof {
            assert(buf@ =~= mid + abd_negate_bytes());
            assert(abd_negate_bytes().len() == 16);
        }
        store124(buf, esize, vslot(rd) + off);
        proof {
            assert(buf@ =~= before + abd_lane_bytes(rd, rn, rm, esize, i as int));
            assert(buf@ =~= start + abd_bytes(rd, rn, rm, esize, (i + 1) as nat));
        }
        i = i + 1;
    }
}

/// UMOV/SMOV/MOV to a general register (`sign`): element `index` of `rn`
/// loaded as 8 bytes, 4 (sign-extended with `sign`), 2 or 1 (sign- or
/// zero-extended), into guest register `rd`.
pub open spec fn lane_gp_bytes(rd: u8, rn: u8, esize: u8, index: u8, sign: bool) -> Seq<u8> {
    ext_load_bytes(lane_off(rn, index * esize), esize, sign) + prog_bytes(stg_prog(rd as u32, RAX))
}

/// An element at `off` into RAX.
pub open spec fn ext_load_bytes(off: i32, esize: u8, sign: bool) -> Seq<u8> {
    xload_bytes(RAX, off, esize, sign)
}

/// An element at `off` into `r`: 8 bytes, 4 (sign-extended with `sign`),
/// 2, or 1 for any other size (sign- or zero-extended).
pub open spec fn xload_bytes(r: u8, off: i32, esize: u8, sign: bool) -> Seq<u8> {
    if esize == 8 {
        enc_mov_load64(r, RBX, off)
    } else if esize == 4 {
        enc_mov_load32(r, RBX, off) + if sign { sxd(r) } else { Seq::empty() }
    } else if esize == 2 {
        if sign { enc_movsx_word_mem(r, RBX, off) } else { enc_movzx_word_mem(r, RBX, off) }
    } else {
        if sign { enc_movsx_byte_mem(r, RBX, off) } else { enc_movzx_byte_mem(r, RBX, off) }
    }
}

#[verifier::spinoff_prover]
fn ext_load(buf: &mut CodeBuf, off: i32, esize: u8, sign: bool)
    ensures
        final(buf)@ == old(buf)@ + ext_load_bytes(off, esize, sign),
{
    xload(buf, RAX, off, esize, sign);
}

#[verifier::spinoff_prover]
pub(crate) fn xload(buf: &mut CodeBuf, r: u8, off: i32, esize: u8, sign: bool)
    ensures
        final(buf)@ == old(buf)@ + xload_bytes(r, off, esize, sign),
{
    let ghost start = buf@;
    if esize == 8 {
        buf.mov_load64(r, RBX, off);
    } else if esize == 4 {
        buf.mov_load32(r, RBX, off);
        if sign {
            buf.movsxd_r64_r32(r, r);
        }
    } else if esize == 2 {
        if sign {
            buf.movsx_word_mem(r, RBX, off);
        } else {
            buf.movzx_word_mem(r, RBX, off);
        }
    } else {
        if sign {
            buf.movsx_byte_mem(r, RBX, off);
        } else {
            buf.movzx_byte_mem(r, RBX, off);
        }
    }
    proof {
        assert(buf@ =~= start + xload_bytes(r, off, esize, sign));
    }
}

#[verifier::spinoff_prover]
pub(crate) fn translate_lane_gp(buf: &mut CodeBuf, rd: u8, rn: u8, esize: u8, index: u8, sign: bool)
    ensures
        final(buf)@ == old(buf)@ + lane_gp_bytes(rd, rn, esize, index, sign),
{
    let ghost start = buf@;
    ext_load(buf, vslot(rn) + elem_off(index, esize), esize, sign);
    stg(buf, rd as u32, RAX);
    proof {
        assert(buf@ =~= start + lane_gp_bytes(rd, rn, esize, index, sign));
    }
}

/// Lane `i` of USHR/SSHR (`unsigned`): the extended element shifted right by
/// `shift`; a shift of the element width or more gives 0 (`xor`) or the sign
/// fill (`sar 63`).
pub open spec fn shr_lane_bytes(rd: u8, rn: u8, esize: u8, shift: u8, unsigned: bool, i: int) -> Seq<u8> {
    ext_load_bytes(lane_off(rn, i * esize), esize, !unsigned) + (if shift >= esize * 8 {
        if unsigned { enc_binop(0x31, RAX, RAX) } else { enc_shift_ri8(7, RAX, 63) }
    } else {
        enc_shift_ri8(if unsigned { 5 } else { 7 }, RAX, shift)
    }) + el_store_bytes(esize, lane_off(rd, i * esize), RAX)
}

/// USHR/SSHR on the first `n` lanes.
pub open spec fn shr_bytes(rd: u8, rn: u8, esize: u8, shift: u8, unsigned: bool, n: nat) -> Seq<u8>
    decreases n,
{
    if n == 0 {
        Seq::empty()
    } else {
        shr_bytes(rd, rn, esize, shift, unsigned, (n - 1) as nat) + shr_lane_bytes(
            rd,
            rn,
            esize,
            shift,
            unsigned,
            n - 1,
        )
    }
}

#[verifier::spinoff_prover]
pub(crate) fn translate_shr(buf: &mut CodeBuf, rd: u8, rn: u8, esize: u8, shift: u8, unsigned: bool)
    requires
        esize != 0,
    ensures
        final(buf)@ == old(buf)@ + shr_bytes(rd, rn, esize, shift, unsigned, lane_count(esize, true)),
{
    let ghost start = buf@;
    let lanes = lanes_of(esize, true);
    let bits: u32 = (esize as u32) * 8;
    let mut i: u8 = 0;
    while i < lanes
        invariant
            i <= lanes,
            bits == esize * 8,
            buf@ == start + shr_bytes(rd, rn, esize, shift, unsigned, i as nat),
        decreases lanes - i,
    {
        let ghost before = buf@;
        let off = elem_off(i, esize);
        ext_load(buf, vslot(rn) + off, esize, !unsigned);
        if (shift as u32) >= bits {
            if unsigned {
                buf.xor_rr64(RAX, RAX);
            } else {
                buf.sar_ri8(RAX, 63);
            }
        } else if unsigned {
            buf.shr_ri8(RAX, shift);
        } else {
            buf.sar_ri8(RAX, shift);
        }
        el_store(buf, esize, vslot(rd) + off, RAX);
        proof {
            assert(buf@ =~= before + shr_lane_bytes(rd, rn, esize, shift, unsigned, i as int));
            assert(buf@ =~= start + shr_bytes(rd, rn, esize, shift, unsigned, (i + 1) as nat));
        }
        i = i + 1;
    }
}

/// PMULL/PMULL2 (`hi`) of 64-bit elements: the selected halves of `rn` and
/// `rm` into XMM0 and XMM1, `pclmulqdq xmm0, xmm1, 0`, the 128-bit product
/// stored to `rd`.
pub open spec fn pmull1q_bytes(rd: u8, rn: u8, rm: u8, hi: bool) -> Seq<u8> {
    let h: int = if hi { 8 } else { 0 };
    enc_movq_load(0, RBX, lane_off(rn, h)) + enc_movq_load(1, RBX, lane_off(rm, h)) + enc_pclmulq(0, 1, 0)
        + enc_movdqu_store(RBX, vslot_of(rd), 0)
}

#[verifier::spinoff_prover]
pub(crate) fn translate_pmull1q(buf: &mut CodeBuf, rd: u8, rn: u8, rm: u8, hi: bool)
    ensures
        final(buf)@ == old(buf)@ + pmull1q_bytes(rd, rn, rm, hi),
{
    let ghost start = buf@;
    let h: i32 = if hi { 8 } else { 0 };
    buf.movq_load(0, RBX, vslot(rn) + h);
    buf.movq_load(1, RBX, vslot(rm) + h);
    buf.pclmulq(0, 1, 0x00);
    buf.movdqu_store(RBX, vslot(rd), 0);
    proof {
        assert(buf@ =~= start + pmull1q_bytes(rd, rn, rm, hi));
    }
}

/// Output lane `i` of ADDP: the adjacent pair `2j, 2j+1` of the first source
/// (lanes below `half`) or of the second (`j = i - half`), each read as
/// `esize` bytes zero-extended, added, stored as `esize` bytes.
pub open spec fn addp_lane_bytes(rd: u8, a_src: i32, b_src: i32, esize: u8, half: int, i: int) -> Seq<u8> {
    let base: int = if i < half { a_src as int } else { b_src as int };
    let pair: int = if i < half { 2 * i } else { 2 * (i - half) };
    ext_load_bytes((base + pair * esize) as i32, esize, false) + ext_load_rcx_bytes(
        (base + (pair + 1) * esize) as i32,
        esize,
    ) + enc_binop(0x01, RAX, RCX) + el_store_bytes(esize, lane_off(rd, i * esize), RAX)
}

/// An `esize`-byte element at `off` zero-extended into RCX (8, 4, 2 bytes,
/// or 1 for any other size).
pub open spec fn ext_load_rcx_bytes(off: i32, esize: u8) -> Seq<u8> {
    if esize == 8 {
        enc_mov_load64(RCX, RBX, off)
    } else if esize == 4 {
        enc_mov_load32(RCX, RBX, off)
    } else if esize == 2 {
        enc_movzx_word_mem(RCX, RBX, off)
    } else {
        enc_movzx_byte_mem(RCX, RBX, off)
    }
}

/// The first `n` output lanes of ADDP.
pub open spec fn addp_lanes_bytes(rd: u8, a_src: i32, b_src: i32, esize: u8, half: int, n: nat) -> Seq<u8>
    decreases n,
{
    if n == 0 {
        Seq::empty()
    } else {
        addp_lanes_bytes(rd, a_src, b_src, esize, half, (n - 1) as nat) + addp_lane_bytes(
            rd,
            a_src,
            b_src,
            esize,
            half,
            n - 1,
        )
    }
}

/// ADDP: a source that is `rd` itself copied to scratch first, then
/// `n / esize` output lanes (`n` = 16 or 8 bytes), half from each source.
pub open spec fn addp_bytes(rd: u8, rn: u8, rm: u8, esize: u8, q: bool) -> Seq<u8> {
    let out = lane_count(esize, q);
    prog_bytes(permute_prog(rd, rn, false)) + prog_bytes(permute_prog(rd, rm, true)) + addp_lanes_bytes(
        rd,
        permute_off(rd, rn, false),
        permute_off(rd, rm, true),
        esize,
        (out / 2) as int,
        out,
    )
}

#[verifier::spinoff_prover]
pub(crate) fn translate_addp(buf: &mut CodeBuf, rd: u8, rn: u8, rm: u8, esize: u8, q: bool)
    requires
        esize != 0,
    ensures
        final(buf)@ == old(buf)@ + addp_bytes(rd, rn, rm, esize, q),
{
    let ghost start = buf@;
    let a_src = permute_source(buf, rd, rn, false);
    let b_src = permute_source(buf, rd, rm, true);
    let ghost p1 = buf@;
    let out = lanes_of(esize, q);
    let half = out / 2;
    let mut i: u8 = 0;
    while i < out
        invariant
            i <= out,
            out <= 16,
            half == out / 2,
            a_src == permute_off(rd, rn, false),
            b_src == permute_off(rd, rm, true),
            buf@ == p1 + addp_lanes_bytes(rd, a_src, b_src, esize, half as int, i as nat),
        decreases out - i,
    {
        let ghost before = buf@;
        let base: i32 = if i < half { a_src } else { b_src };
        let pair: u8 = if i < half { 2 * i } else { 2 * (i - half) };
        ext_load(buf, base + elem_off(pair, esize), esize, false);
        let o2 = base + elem_off(pair + 1, esize);
        if esize == 8 {
            buf.mov_load64(RCX, RBX, o2);
        } else if esize == 4 {
            buf.mov_load32(RCX, RBX, o2);
        } else if esize == 2 {
            buf.movzx_word_mem(RCX, RBX, o2);
        } else {
            buf.movzx_byte_mem(RCX, RBX, o2);
        }
        buf.add_rr64(RAX, RCX);
        el_store(buf, esize, vslot(rd) + elem_off(i, esize), RAX);
        proof {
            assert(buf@ =~= before + addp_lane_bytes(rd, a_src, b_src, esize, half as int, i as int));
            assert(buf@ =~= p1 + addp_lanes_bytes(rd, a_src, b_src, esize, half as int, (i + 1) as nat));
        }
        i = i + 1;
    }
    proof {
        assert(buf@ =~= start + addp_bytes(rd, rn, rm, esize, q));
    }
}

/// Lane `i` of UXTL/SXTL (`sign`): the `esrc`-byte element at `src0 + i *
/// esrc` extended and stored as `2 * esrc` bytes.
pub open spec fn xtl_lane_bytes(rd: u8, src0: int, sign: bool, esrc: u8, i: int) -> Seq<u8> {
    ext_load_bytes((src0 + i * esrc) as i32, esrc, sign) + el_store_bytes(
        (2 * esrc) as u8,
        lane_off(rd, i * esrc * 2),
        RAX,
    )
}

/// The first `n` lanes of UXTL/SXTL.
pub open spec fn xtl_lanes_bytes(rd: u8, src0: int, sign: bool, esrc: u8, n: nat) -> Seq<u8>
    decreases n,
{
    if n == 0 {
        Seq::empty()
    } else {
        xtl_lanes_bytes(rd, src0, sign, esrc, (n - 1) as nat) + xtl_lane_bytes(rd, src0, sign, esrc, n - 1)
    }
}

/// The element sizes of the widening forms.
pub open spec fn widen_wf(esrc: u8) -> bool {
    esrc == 1 || esrc == 2 || esrc == 4
}

/// UXTL/SXTL (`upper`: from bytes 8..15): `rn` copied to scratch when it is
/// `rd`, then `8 / esrc` lanes widened.
pub open spec fn xtl_bytes(rd: u8, rn: u8, sign: bool, esrc: u8, upper: bool) -> Seq<u8> {
    prog_bytes(permute_prog(rd, rn, false)) + xtl_lanes_bytes(
        rd,
        permute_off(rd, rn, false) + if upper { 8int } else { 0int },
        sign,
        esrc,
        8nat / (esrc as nat),
    )
}

#[verifier::spinoff_prover]
pub(crate) fn translate_xtl(buf: &mut CodeBuf, rd: u8, rn: u8, sign: bool, esrc: u8, upper: bool)
    requires
        widen_wf(esrc),
    ensures
        final(buf)@ == old(buf)@ + xtl_bytes(rd, rn, sign, esrc, upper),
{
    let ghost start = buf@;
    let base = permute_source(buf, rd, rn, false);
    let src0 = base + if upper { 8i32 } else { 0i32 };
    let ghost p1 = buf@;
    let lanes: u8 = 8 / esrc;
    let de: u8 = 2 * esrc;
    let mut i: u8 = 0;
    while i < lanes
        invariant
            i <= lanes,
            lanes as nat == 8nat / (esrc as nat),
            widen_wf(esrc),
            de == 2 * esrc,
            base == permute_off(rd, rn, false),
            src0 == permute_off(rd, rn, false) + if upper { 8int } else { 0int },
            buf@ == p1 + xtl_lanes_bytes(rd, src0 as int, sign, esrc, i as nat),
        decreases lanes - i,
    {
        let ghost before = buf@;
        ext_load(buf, src0 + elem_off(i, esrc), esrc, sign);
        el_store(buf, de, vslot(rd) + elem_off(i, de), RAX);
        proof {
            assert(i * de == i * esrc * 2) by (nonlinear_arith)
                requires
                    de == 2 * esrc,
            ;
            assert(buf@ =~= before + xtl_lane_bytes(rd, src0 as int, sign, esrc, i as int));
            assert(buf@ =~= p1 + xtl_lanes_bytes(rd, src0 as int, sign, esrc, (i + 1) as nat));
        }
        i = i + 1;
    }
    proof {
        assert(buf@ =~= start + xtl_bytes(rd, rn, sign, esrc, upper));
    }
}

/// Lane `i` of NEG (`op` 0) or ABS: the element (sign-extended for ABS),
/// `neg`, or `(x ^ s) - s` with `s = x >> (8 * esize - 1)` arithmetic.
pub open spec fn arith_unary_lane_bytes(rd: u8, rn: u8, esize: u8, op: u8, i: int) -> Seq<u8> {
    ext_load_bytes(lane_off(rn, i * esize), esize, op == 1) + (if op == 0 {
        enc_grp3(3, RAX)
    } else {
        enc_mov_rr64(RCX, RAX) + enc_shift_ri8(7, RCX, (esize * 8 - 1) as u8) + enc_binop(0x31, RAX, RCX)
            + enc_binop(0x29, RAX, RCX)
    }) + el_store_bytes(esize, lane_off(rd, i * esize), RAX)
}

/// NEG/ABS on the first `n` lanes.
pub open spec fn arith_unary_bytes(rd: u8, rn: u8, esize: u8, op: u8, n: nat) -> Seq<u8>
    decreases n,
{
    if n == 0 {
        Seq::empty()
    } else {
        arith_unary_bytes(rd, rn, esize, op, (n - 1) as nat) + arith_unary_lane_bytes(rd, rn, esize, op, n - 1)
    }
}

/// The element sizes of NEG/ABS: nonzero, and below 32 for ABS (whose
/// shift count `8 * esize - 1` is computed in a byte).
pub open spec fn arith_unary_wf(esize: u8, op: u8) -> bool {
    esize != 0 && (op == 0 || esize < 32)
}

#[verifier::spinoff_prover]
pub(crate) fn translate_arith_unary(buf: &mut CodeBuf, rd: u8, rn: u8, esize: u8, q: bool, op: u8)
    requires
        arith_unary_wf(esize, op),
    ensures
        final(buf)@ == old(buf)@ + arith_unary_bytes(rd, rn, esize, op, lane_count(esize, q)),
{
    let ghost start = buf@;
    let lanes = lanes_of(esize, q);
    let mut i: u8 = 0;
    while i < lanes
        invariant
            i <= lanes,
            arith_unary_wf(esize, op),
            buf@ == start + arith_unary_bytes(rd, rn, esize, op, i as nat),
        decreases lanes - i,
    {
        let ghost before = buf@;
        let off = elem_off(i, esize);
        ext_load(buf, vslot(rn) + off, esize, op == 1);
        if op == 0 {
            buf.neg_r64(RAX);
        } else {
            let w: u8 = esize * 8;
            buf.mov_rr64(RCX, RAX);
            buf.sar_ri8(RCX, w - 1);
            buf.xor_rr64(RAX, RCX);
            buf.sub_rr64(RAX, RCX);
        }
        el_store(buf, esize, vslot(rd) + off, RAX);
        proof {
            assert(buf@ =~= before + arith_unary_lane_bytes(rd, rn, esize, op, i as int));
            assert(buf@ =~= start + arith_unary_bytes(rd, rn, esize, op, (i + 1) as nat));
        }
        i = i + 1;
    }
}

/// Lane `i` of SADDL/UADDL/SSUBL/USUBL (`sign`, `sub`): both `esrc`-byte
/// elements extended into RAX and RCX, added or subtracted, stored as `2 *
/// esrc` bytes.
pub open spec fn addl_lane_bytes(rd: u8, n0: int, m0: int, esrc: u8, sign: bool, sub: bool, i: int) -> Seq<u8> {
    xload_bytes(RAX, (n0 + i * esrc) as i32, esrc, sign) + xload_bytes(RCX, (m0 + i * esrc) as i32, esrc, sign)
        + enc_binop(if sub { 0x29 } else { 0x01 }, RAX, RCX) + el_store_bytes(
        (2 * esrc) as u8,
        lane_off(rd, i * esrc * 2),
        RAX,
    )
}

/// The first `n` lanes of the long add/subtract.
pub open spec fn addl_lanes_bytes(rd: u8, n0: int, m0: int, esrc: u8, sign: bool, sub: bool, n: nat) -> Seq<u8>
    decreases n,
{
    if n == 0 {
        Seq::empty()
    } else {
        addl_lanes_bytes(rd, n0, m0, esrc, sign, sub, (n - 1) as nat) + addl_lane_bytes(
            rd,
            n0,
            m0,
            esrc,
            sign,
            sub,
            n - 1,
        )
    }
}

/// SADDL/UADDL/SSUBL/USUBL (`upper`: from bytes 8..15): a source that is
/// `rd` copied to scratch, then `8 / esrc` widened lanes.
pub open spec fn addl_bytes(rd: u8, rn: u8, rm: u8, esrc: u8, sign: bool, sub: bool, upper: bool) -> Seq<u8> {
    let h: int = if upper { 8 } else { 0 };
    prog_bytes(permute_prog(rd, rn, false)) + prog_bytes(permute_prog(rd, rm, true)) + addl_lanes_bytes(
        rd,
        permute_off(rd, rn, false) + h,
        permute_off(rd, rm, true) + h,
        esrc,
        sign,
        sub,
        8nat / (esrc as nat),
    )
}

#[verifier::spinoff_prover]
#[verifier::rlimit(40)]
pub(crate) fn translate_addl(buf: &mut CodeBuf, rd: u8, rn: u8, rm: u8, esrc: u8, sign: bool, sub: bool, upper: bool)
    requires
        widen_wf(esrc),
    ensures
        final(buf)@ == old(buf)@ + addl_bytes(rd, rn, rm, esrc, sign, sub, upper),
{
    let ghost start = buf@;
    let nb = permute_source(buf, rd, rn, false);
    let mb = permute_source(buf, rd, rm, true);
    let h: i32 = if upper { 8 } else { 0 };
    let n0 = nb + h;
    let m0 = mb + h;
    let ghost p1 = buf@;
    let lanes: u8 = 8 / esrc;
    let de: u8 = 2 * esrc;
    let mut i: u8 = 0;
    while i < lanes
        invariant
            i <= lanes,
            lanes as nat == 8nat / (esrc as nat),
            widen_wf(esrc),
            de == 2 * esrc,
            nb == permute_off(rd, rn, false),
            mb == permute_off(rd, rm, true),
            n0 == nb + h,
            m0 == mb + h,
            h == 0 || h == 8,
            buf@ == p1 + addl_lanes_bytes(rd, n0 as int, m0 as int, esrc, sign, sub, i as nat),
        decreases lanes - i,
    {
        let ghost before = buf@;
        let e = elem_off(i, esrc);
        xload(buf, RAX, n0 + e, esrc, sign);
        xload(buf, RCX, m0 + e, esrc, sign);
        if sub {
            buf.sub_rr64(RAX, RCX);
        } else {
            buf.add_rr64(RAX, RCX);
        }
        el_store(buf, de, vslot(rd) + elem_off(i, de), RAX);
        proof {
            assert(i * de == i * esrc * 2) by (nonlinear_arith)
                requires
                    de == 2 * esrc,
            ;
            assert(buf@ =~= before + addl_lane_bytes(rd, n0 as int, m0 as int, esrc, sign, sub, i as int));
            assert(buf@ =~= p1 + addl_lanes_bytes(rd, n0 as int, m0 as int, esrc, sign, sub, (i + 1) as nat));
        }
        i = i + 1;
    }
    proof {
        assert(buf@ =~= start + addl_bytes(rd, rn, rm, esrc, sign, sub, upper));
    }
}

/// Lane `i` of SADDW/UADDW/SSUBW/USUBW: the wide element of `rn` (8 bytes
/// for `2 * esrc == 8`, else 4), the narrow one of `rm` extended into RCX,
/// added or subtracted, stored as `2 * esrc` bytes.
pub open spec fn addw_lane_bytes(rd: u8, n0: int, m0: int, esrc: u8, sign: bool, sub: bool, i: int) -> Seq<u8> {
    let de = 2 * esrc;
    (if de == 8 {
        enc_mov_load64(RAX, RBX, (n0 + i * de) as i32)
    } else {
        enc_mov_load32(RAX, RBX, (n0 + i * de) as i32)
    }) + xload_bytes(RCX, (m0 + i * esrc) as i32, esrc, sign) + enc_binop(if sub { 0x29 } else { 0x01 }, RAX, RCX)
        + el_store_bytes(de as u8, lane_off(rd, i * de), RAX)
}

/// The first `n` lanes of the wide add/subtract.
pub open spec fn addw_lanes_bytes(rd: u8, n0: int, m0: int, esrc: u8, sign: bool, sub: bool, n: nat) -> Seq<u8>
    decreases n,
{
    if n == 0 {
        Seq::empty()
    } else {
        addw_lanes_bytes(rd, n0, m0, esrc, sign, sub, (n - 1) as nat) + addw_lane_bytes(
            rd,
            n0,
            m0,
            esrc,
            sign,
            sub,
            n - 1,
        )
    }
}

/// SADDW/UADDW/SSUBW/USUBW (`upper`: the narrow lanes from bytes 8..15 of
/// `rm`): a source that is `rd` copied to scratch, then `8 / esrc` lanes.
pub open spec fn addw_bytes(rd: u8, rn: u8, rm: u8, esrc: u8, sign: bool, sub: bool, upper: bool) -> Seq<u8> {
    prog_bytes(permute_prog(rd, rn, false)) + prog_bytes(permute_prog(rd, rm, true)) + addw_lanes_bytes(
        rd,
        permute_off(rd, rn, false) as int,
        permute_off(rd, rm, true) + if upper { 8int } else { 0int },
        esrc,
        sign,
        sub,
        8nat / (esrc as nat),
    )
}

#[verifier::spinoff_prover]
#[verifier::rlimit(40)]
fn addw_lane(buf: &mut CodeBuf, rd: u8, nb: i32, m0: i32, esrc: u8, sign: bool, sub: bool, i: u8)
    requires
        widen_wf(esrc),
        i < 8,
        -0x1000_0000 <= nb <= 0x1000_0000,
        -0x1000_0000 <= m0 <= 0x1000_0000,
    ensures
        final(buf)@ == old(buf)@ + addw_lane_bytes(rd, nb as int, m0 as int, esrc, sign, sub, i as int),
{
    let ghost before = buf@;
    let de: u8 = 2 * esrc;
    let wo = nb + elem_off(i, de);
    if de == 8 {
        buf.mov_load64(RAX, RBX, wo);
    } else {
        buf.mov_load32(RAX, RBX, wo);
    }
    xload(buf, RCX, m0 + elem_off(i, esrc), esrc, sign);
    if sub {
        buf.sub_rr64(RAX, RCX);
    } else {
        buf.add_rr64(RAX, RCX);
    }
    el_store(buf, de, vslot(rd) + elem_off(i, de), RAX);
    proof {
        assert(buf@ =~= before + addw_lane_bytes(rd, nb as int, m0 as int, esrc, sign, sub, i as int));
    }
}

#[verifier::spinoff_prover]
pub(crate) fn translate_addw(buf: &mut CodeBuf, rd: u8, rn: u8, rm: u8, esrc: u8, sign: bool, sub: bool, upper: bool)
    requires
        widen_wf(esrc),
    ensures
        final(buf)@ == old(buf)@ + addw_bytes(rd, rn, rm, esrc, sign, sub, upper),
{
    let ghost start = buf@;
    let nb = permute_source(buf, rd, rn, false);
    let mb = permute_source(buf, rd, rm, true);
    let m0 = mb + if upper { 8i32 } else { 0i32 };
    let ghost p1 = buf@;
    let lanes: u8 = 8 / esrc;
    let de: u8 = 2 * esrc;
    let mut i: u8 = 0;
    while i < lanes
        invariant
            i <= lanes,
            lanes as nat == 8nat / (esrc as nat),
            widen_wf(esrc),
            de == 2 * esrc,
            nb == permute_off(rd, rn, false),
            mb == permute_off(rd, rm, true),
            m0 == mb + if upper { 8int } else { 0int },
            buf@ == p1 + addw_lanes_bytes(rd, nb as int, m0 as int, esrc, sign, sub, i as nat),
        decreases lanes - i,
    {
        addw_lane(buf, rd, nb, m0, esrc, sign, sub, i);
        proof {
            assert(buf@ =~= p1 + addw_lanes_bytes(rd, nb as int, m0 as int, esrc, sign, sub, (i + 1) as nat));
        }
        i = i + 1;
    }
    proof {
        assert(buf@ =~= start + addw_bytes(rd, rn, rm, esrc, sign, sub, upper));
    }
}

/// The right shift of the shift-right forms: by `shift`, or to 0 (`xor`,
/// `unsigned`) or the sign fill (`sar 63`) from the element width on.
pub open spec fn shr_step_bytes(esize: u8, shift: u8, unsigned: bool) -> Seq<u8> {
    if shift >= esize * 8 {
        if unsigned { enc_binop(0x31, RAX, RAX) } else { enc_shift_ri8(7, RAX, 63) }
    } else {
        enc_shift_ri8(if unsigned { 5 } else { 7 }, RAX, shift)
    }
}

/// Lane `i` of USRA/SSRA (`unsigned`): the shifted element of `rn` added to
/// the element of `rd` (read zero-extended into RCX), the sum stored.
pub open spec fn shr_acc_lane_bytes(rd: u8, rn: u8, esize: u8, shift: u8, unsigned: bool, i: int) -> Seq<u8> {
    let dst = lane_off(rd, i * esize);
    ext_load_bytes(lane_off(rn, i * esize), esize, !unsigned) + shr_step_bytes(esize, shift, unsigned)
        + ext_load_rcx_bytes(dst, esize) + enc_binop(0x01, RCX, RAX) + el_store_bytes(esize, dst, RCX)
}

/// USRA/SSRA on the first `n` lanes.
pub open spec fn shr_acc_bytes(rd: u8, rn: u8, esize: u8, shift: u8, unsigned: bool, n: nat) -> Seq<u8>
    decreases n,
{
    if n == 0 {
        Seq::empty()
    } else {
        shr_acc_bytes(rd, rn, esize, shift, unsigned, (n - 1) as nat) + shr_acc_lane_bytes(
            rd,
            rn,
            esize,
            shift,
            unsigned,
            n - 1,
        )
    }
}

#[verifier::spinoff_prover]
fn shr_step(buf: &mut CodeBuf, esize: u8, shift: u8, unsigned: bool)
    ensures
        final(buf)@ == old(buf)@ + shr_step_bytes(esize, shift, unsigned),
{
    let bits: u32 = (esize as u32) * 8;
    if (shift as u32) >= bits {
        if unsigned {
            buf.xor_rr64(RAX, RAX);
        } else {
            buf.sar_ri8(RAX, 63);
        }
    } else if unsigned {
        buf.shr_ri8(RAX, shift);
    } else {
        buf.sar_ri8(RAX, shift);
    }
}

#[verifier::spinoff_prover]
fn load_rcx(buf: &mut CodeBuf, off: i32, esize: u8)
    ensures
        final(buf)@ == old(buf)@ + ext_load_rcx_bytes(off, esize),
{
    if esize == 8 {
        buf.mov_load64(RCX, RBX, off);
    } else if esize == 4 {
        buf.mov_load32(RCX, RBX, off);
    } else if esize == 2 {
        buf.movzx_word_mem(RCX, RBX, off);
    } else {
        buf.movzx_byte_mem(RCX, RBX, off);
    }
}

#[verifier::spinoff_prover]
#[verifier::rlimit(30)]
pub(crate) fn translate_shr_acc(buf: &mut CodeBuf, rd: u8, rn: u8, esize: u8, shift: u8, unsigned: bool)
    requires
        esize != 0,
    ensures
        final(buf)@ == old(buf)@ + shr_acc_bytes(rd, rn, esize, shift, unsigned, lane_count(esize, true)),
{
    let ghost start = buf@;
    let lanes = lanes_of(esize, true);
    let mut i: u8 = 0;
    while i < lanes
        invariant
            i <= lanes,
            buf@ == start + shr_acc_bytes(rd, rn, esize, shift, unsigned, i as nat),
        decreases lanes - i,
    {
        let ghost before = buf@;
        let off = elem_off(i, esize);
        ext_load(buf, vslot(rn) + off, esize, !unsigned);
        shr_step(buf, esize, shift, unsigned);
        let dst = vslot(rd) + off;
        load_rcx(buf, dst, esize);
        buf.add_rr64(RCX, RAX);
        el_store(buf, esize, dst, RCX);
        proof {
            assert(buf@ =~= before + shr_acc_lane_bytes(rd, rn, esize, shift, unsigned, i as int));
            assert(buf@ =~= start + shr_acc_bytes(rd, rn, esize, shift, unsigned, (i + 1) as nat));
        }
        i = i + 1;
    }
}

/// The `setcc` condition of a compare against zero: EQ for `cond` 0, then
/// GT, GE, LT, and LE for any other.
pub open spec fn zero_cond_cc(cond: u8) -> u8 {
    if cond == 0 {
        4
    } else if cond == 1 {
        0xf
    } else if cond == 2 {
        0xd
    } else if cond == 3 {
        0xc
    } else {
        0xe
    }
}

/// Lane `i` of CMEQ/CMGT/CMGE/CMLT/CMLE against zero: the element
/// (sign-extended for every condition but EQ), `test`, `setcc`, widened
/// and negated to 0 or all ones, stored.
pub open spec fn vs_zero_lane_bytes(rd: u8, rn: u8, esize: u8, cond: u8, i: int) -> Seq<u8> {
    ext_load_bytes(lane_off(rn, i * esize), esize, cond != 0) + enc_binop(0x85, RAX, RAX) + enc_setcc_rm8(
        zero_cond_cc(cond),
        RAX,
    ) + enc_movzx_r32_r8(RAX, RAX) + enc_grp3(3, RAX) + el_store_bytes(esize, lane_off(rd, i * esize), RAX)
}

/// The compare against zero on the first `n` lanes.
pub open spec fn vs_zero_bytes(rd: u8, rn: u8, esize: u8, cond: u8, n: nat) -> Seq<u8>
    decreases n,
{
    if n == 0 {
        Seq::empty()
    } else {
        vs_zero_bytes(rd, rn, esize, cond, (n - 1) as nat) + vs_zero_lane_bytes(rd, rn, esize, cond, n - 1)
    }
}

#[verifier::spinoff_prover]
pub(crate) fn translate_vs_zero(buf: &mut CodeBuf, rd: u8, rn: u8, esize: u8, q: bool, cond: u8)
    requires
        esize != 0,
    ensures
        final(buf)@ == old(buf)@ + vs_zero_bytes(rd, rn, esize, cond, lane_count(esize, q)),
{
    let ghost start = buf@;
    let lanes = lanes_of(esize, q);
    let cc: u8 = if cond == 0 {
        4
    } else if cond == 1 {
        0xf
    } else if cond == 2 {
        0xd
    } else if cond == 3 {
        0xc
    } else {
        0xe
    };
    let mut i: u8 = 0;
    while i < lanes
        invariant
            i <= lanes,
            cc == zero_cond_cc(cond),
            buf@ == start + vs_zero_bytes(rd, rn, esize, cond, i as nat),
        decreases lanes - i,
    {
        let ghost before = buf@;
        let off = elem_off(i, esize);
        ext_load(buf, vslot(rn) + off, esize, cond != 0);
        buf.test_rr64(RAX, RAX);
        buf.setcc_rm8(cc, RAX);
        buf.movzx_r32_r8(RAX, RAX);
        buf.neg_r64(RAX);
        el_store(buf, esize, vslot(rd) + off, RAX);
        proof {
            assert(buf@ =~= before + vs_zero_lane_bytes(rd, rn, esize, cond, i as int));
            assert(buf@ =~= start + vs_zero_bytes(rd, rn, esize, cond, (i + 1) as nat));
        }
        i = i + 1;
    }
}

/// Output lane `d` of SMAXP/SMINP/UMAXP/UMINP (`min`, `unsigned`): the
/// adjacent pair `2i, 2i+1` of the first source (`d < half`, `i = d`) or of
/// the second (`i = d - half`), extended, compared, the smaller (`cmov` on
/// above/greater, `min`) or larger (`cmov` on below/less) kept and stored.
pub open spec fn maxminp_lane_bytes(rd: u8, a_src: i32, b_src: i32, min: bool, unsigned: bool, esize: u8, half: int, d: int) -> Seq<u8> {
    let base: int = if d < half { a_src as int } else { b_src as int };
    let i: int = if d < half { d } else { d - half };
    let lo = base + 2 * i * esize;
    half_pair_bytes(lo as i32, (lo + esize) as i32, esize, unsigned) + enc_binop(0x39, RAX, RCX) + enc_cmov_rr64(
        if min {
            if unsigned { 0x47 } else { 0x4f }
        } else {
            if unsigned { 0x42 } else { 0x4c }
        },
        RAX,
        RCX,
    ) + store124_bytes(esize, lane_off(rd, d * esize))
}

/// The first `n` output lanes of the pairwise maximum or minimum.
pub open spec fn maxminp_lanes_bytes(rd: u8, a_src: i32, b_src: i32, min: bool, unsigned: bool, esize: u8, half: int, n: nat) -> Seq<u8>
    decreases n,
{
    if n == 0 {
        Seq::empty()
    } else {
        maxminp_lanes_bytes(rd, a_src, b_src, min, unsigned, esize, half, (n - 1) as nat) + maxminp_lane_bytes(
            rd,
            a_src,
            b_src,
            min,
            unsigned,
            esize,
            half,
            n - 1,
        )
    }
}

/// SMAXP/SMINP/UMAXP/UMINP: each source that is `rd` copied to the first
/// scratch slot, then the pairs of `rn`, then those of `rm`.
pub open spec fn maxminp_bytes(rd: u8, rn: u8, rm: u8, min: bool, unsigned: bool, esize: u8, q: bool) -> Seq<u8> {
    let half = lane_count(esize, q) / 2;
    prog_bytes(permute_prog(rd, rn, false)) + prog_bytes(permute_prog(rd, rm, false)) + maxminp_lanes_bytes(
        rd,
        permute_off(rd, rn, false),
        permute_off(rd, rm, false),
        min,
        unsigned,
        esize,
        half as int,
        2 * half,
    )
}

#[verifier::spinoff_prover]
fn maxminp_lane(buf: &mut CodeBuf, rd: u8, a_src: i32, b_src: i32, min: bool, unsigned: bool, esize: u8, half: u8, d: u8)
    requires
        d < 2 * half,
        half <= 8,
        -0x1000_0000 <= a_src <= 0x1000_0000,
        -0x1000_0000 <= b_src <= 0x1000_0000,
    ensures
        final(buf)@ == old(buf)@ + maxminp_lane_bytes(rd, a_src, b_src, min, unsigned, esize, half as int, d as int),
{
    let ghost start = buf@;
    let base: i32 = if d < half { a_src } else { b_src };
    let i: u8 = if d < half { d } else { d - half };
    let lo = base + elem_off(2 * i, esize);
    half_pair(buf, lo, lo + (esize as i32), esize, unsigned);
    binop_rr(buf, 0x39, RAX, RCX);
    let cc: u8 = if min {
        if unsigned { 0x47 } else { 0x4f }
    } else {
        if unsigned { 0x42 } else { 0x4c }
    };
    buf.cmov_rr64(cc, RAX, RCX);
    store124(buf, esize, vslot(rd) + elem_off(d, esize));
    proof {
        assert(buf@ =~= start + maxminp_lane_bytes(rd, a_src, b_src, min, unsigned, esize, half as int, d as int));
    }
}

#[verifier::spinoff_prover]
pub(crate) fn translate_maxminp(buf: &mut CodeBuf, rd: u8, rn: u8, rm: u8, min: bool, unsigned: bool, esize: u8, q: bool)
    requires
        esize != 0,
    ensures
        final(buf)@ == old(buf)@ + maxminp_bytes(rd, rn, rm, min, unsigned, esize, q),
{
    let ghost start = buf@;
    let a_src = permute_source(buf, rd, rn, false);
    let b_src = permute_source(buf, rd, rm, false);
    let ghost p1 = buf@;
    let half = lanes_of(esize, q) / 2;
    let mut d: u8 = 0;
    while d < 2 * half
        invariant
            d <= 2 * half,
            half <= 8,
            half as nat == lane_count(esize, q) / 2,
            a_src == permute_off(rd, rn, false),
            b_src == permute_off(rd, rm, false),
            buf@ == p1 + maxminp_lanes_bytes(rd, a_src, b_src, min, unsigned, esize, half as int, d as nat),
        decreases 2 * half - d,
    {
        maxminp_lane(buf, rd, a_src, b_src, min, unsigned, esize, half, d);
        proof {
            assert(buf@ =~= p1 + maxminp_lanes_bytes(rd, a_src, b_src, min, unsigned, esize, half as int, (d + 1) as nat));
        }
        d = d + 1;
    }
    proof {
        assert(buf@ =~= start + maxminp_bytes(rd, rn, rm, min, unsigned, esize, q));
    }
}

/// The lane counts SMINV/SMAXV/UMINV/UMAXV handles: bytes of 8B/16B, halves
/// of 4H/8H, words of 4S.
pub open spec fn reduce_lanes(size: u8, q: bool) -> Option<u8> {
    if size == 1 {
        Some(if q { 16u8 } else { 8u8 })
    } else if size == 2 {
        Some(if q { 8u8 } else { 4u8 })
    } else if size == 4 && q {
        Some(4u8)
    } else {
        None
    }
}

/// The `cmov` that keeps the running extremum in RDX: on greater/above for
/// a minimum, on less/below for a maximum.
pub open spec fn reduce_cc(signed: bool, is_min: bool) -> u8 {
    if is_min {
        if signed { 0x4F } else { 0x47 }
    } else {
        if signed { 0x4C } else { 0x42 }
    }
}

/// Lane `i` folded into the extremum: loaded, `cmp rdx, rax`, `cmov`.
pub open spec fn reduce_step_bytes(rn: u8, size: u8, signed: bool, cc: u8, i: int) -> Seq<u8> {
    ext_load_bytes(lane_off(rn, i * size), size, signed) + enc_binop(0x39, RDX, RAX) + enc_cmov_rr64(cc, RDX, RAX)
}

/// Lanes `1 .. n` folded in.
pub open spec fn reduce_steps_bytes(rn: u8, size: u8, signed: bool, cc: u8, n: nat) -> Seq<u8>
    decreases n,
{
    if n <= 1 {
        Seq::empty()
    } else {
        reduce_steps_bytes(rn, size, signed, cc, (n - 1) as nat) + reduce_step_bytes(rn, size, signed, cc, n - 1)
    }
}

/// SMINV/SMAXV/UMINV/UMAXV: lane 0 into RDX, the others folded in, the
/// extremum stored as `size` bytes (nothing for a refused shape).
pub open spec fn reduce_bytes(rd: u8, rn: u8, size: u8, signed: bool, is_min: bool, q: bool) -> Seq<u8> {
    match reduce_lanes(size, q) {
        Some(n) => ext_load_bytes(lane_off(rn, 0), size, signed) + enc_mov_rr64(RDX, RAX) + reduce_steps_bytes(
            rn,
            size,
            signed,
            reduce_cc(signed, is_min),
            n as nat,
        ) + el_store_bytes(size, vslot_of(rd), RDX),
        None => Seq::empty(),
    }
}

#[verifier::spinoff_prover]
pub(crate) fn translate_reduce(buf: &mut CodeBuf, rd: u8, rn: u8, size: u8, signed: bool, is_min: bool, q: bool) -> (ok: bool)
    ensures
        ok == reduce_lanes(size, q) is Some,
        final(buf)@ == old(buf)@ + reduce_bytes(rd, rn, size, signed, is_min, q),
{
    let ghost start = buf@;
    let lanes: u8 = if size == 1 {
        if q { 16 } else { 8 }
    } else if size == 2 {
        if q { 8 } else { 4 }
    } else if size == 4 && q {
        4
    } else {
        return false;
    };
    let cc: u8 = if is_min {
        if signed { 0x4F } else { 0x47 }
    } else {
        if signed { 0x4C } else { 0x42 }
    };
    ext_load(buf, vslot(rn), size, signed);
    buf.mov_rr64(RDX, RAX);
    let ghost p1 = buf@;
    let mut i: u8 = 1;
    while i < lanes
        invariant
            1 <= i <= lanes,
            lanes <= 16,
            size == 1 || size == 2 || size == 4,
            cc == reduce_cc(signed, is_min),
            buf@ == p1 + reduce_steps_bytes(rn, size, signed, cc, i as nat),
        decreases lanes - i,
    {
        let ghost before = buf@;
        ext_load(buf, vslot(rn) + elem_off(i, size), size, signed);
        binop_rr(buf, 0x39, RDX, RAX);
        buf.cmov_rr64(cc, RDX, RAX);
        proof {
            assert(buf@ =~= before + reduce_step_bytes(rn, size, signed, cc, i as int));
            assert(buf@ =~= p1 + reduce_steps_bytes(rn, size, signed, cc, (i + 1) as nat));
        }
        i = i + 1;
    }
    el_store(buf, size, vslot(rd), RDX);
    proof {
        assert(lane_off(rn, 0 * size) == vslot_of(rn));
        assert(buf@ =~= start + reduce_bytes(rd, rn, size, signed, is_min, q));
    }
    true
}

/// The narrowed store of SHRN: 4 bytes, 2, or 1 for any other size.
pub open spec fn narrow_store_bytes(ds: u8, off: i32) -> Seq<u8> {
    if ds == 4 {
        enc_mov_store32(RBX, off, RAX)
    } else if ds == 2 {
        enc_mov_store16(RBX, off, RAX)
    } else {
        enc_mov_store8(RBX, off, RAX)
    }
}

#[verifier::spinoff_prover]
fn narrow_store(buf: &mut CodeBuf, ds: u8, off: i32)
    ensures
        final(buf)@ == old(buf)@ + narrow_store_bytes(ds, off),
{
    if ds == 4 {
        buf.mov_store32(RBX, off, RAX);
    } else if ds == 2 {
        buf.mov_store16(RBX, off, RAX);
    } else {
        buf.mov_store8(RBX, off, RAX);
    }
}

/// Lane `i` of SHRN/RSHRN (`round`): the `esrc`-byte element at `src0 + i *
/// esrc` zero-extended, `1 << (shift - 1)` added when rounding, shifted right
/// (to 0 from the element width on), stored as `esrc / 2` bytes at `dst0 + i
/// * (esrc / 2)`.
pub open spec fn shrn_lane_bytes(src0: int, dst0: int, esrc: u8, shift: u8, round: bool, i: int) -> Seq<u8> {
    xload_bytes(RAX, (src0 + i * esrc) as i32, esrc, false) + (if round && shift >= 1 {
        enc_ari_imm(0, RAX, 1u32 << ((shift - 1) as u32))
    } else {
        Seq::empty()
    }) + (if shift >= esrc * 8 {
        enc_binop(0x31, RAX, RAX)
    } else {
        enc_shift_ri8(5, RAX, shift)
    }) + narrow_store_bytes(esrc / 2, (dst0 + i * (esrc / 2)) as i32)
}

/// The first `n` lanes of SHRN/RSHRN.
pub open spec fn shrn_lanes_bytes(src0: int, dst0: int, esrc: u8, shift: u8, round: bool, n: nat) -> Seq<u8>
    decreases n,
{
    if n == 0 {
        Seq::empty()
    } else {
        shrn_lanes_bytes(src0, dst0, esrc, shift, round, (n - 1) as nat) + shrn_lane_bytes(
            src0,
            dst0,
            esrc,
            shift,
            round,
            n - 1,
        )
    }
}

/// The fields SHRN/RSHRN takes: a nonzero element size, and a rounding
/// shift of at most 32 (its rounding constant is a 32-bit shift).
pub open spec fn shrn_wf(esrc: u8, shift: u8, round: bool) -> bool {
    esrc != 0 && (!round || shift <= 32)
}

/// SHRN/RSHRN (`upper`: into bytes 8..15): `rn` copied to scratch when it is
/// `rd`, then `16 / esrc` lanes narrowed.
pub open spec fn shrn_bytes(rd: u8, rn: u8, esrc: u8, shift: u8, upper: bool, round: bool) -> Seq<u8> {
    prog_bytes(permute_prog(rd, rn, false)) + shrn_lanes_bytes(
        permute_off(rd, rn, false) as int,
        vslot_of(rd) + if upper { 8int } else { 0int },
        esrc,
        shift,
        round,
        lane_count(esrc, true),
    )
}

#[verifier::spinoff_prover]
#[verifier::rlimit(30)]
pub(crate) fn translate_shrn(buf: &mut CodeBuf, rd: u8, rn: u8, esrc: u8, shift: u8, upper: bool, round: bool)
    requires
        shrn_wf(esrc, shift, round),
    ensures
        final(buf)@ == old(buf)@ + shrn_bytes(rd, rn, esrc, shift, upper, round),
{
    let ghost start = buf@;
    let src = permute_source(buf, rd, rn, false);
    let ghost p1 = buf@;
    let ds: u8 = esrc / 2;
    let dst0: i32 = vslot(rd) + if upper { 8i32 } else { 0i32 };
    let lanes = lanes_of(esrc, true);
    let bits: u32 = (esrc as u32) * 8;
    let mut i: u8 = 0;
    while i < lanes
        invariant
            i <= lanes,
            shrn_wf(esrc, shift, round),
            ds == esrc / 2,
            bits == esrc * 8,
            src == permute_off(rd, rn, false),
            dst0 == vslot_of(rd) + if upper { 8int } else { 0int },
            buf@ == p1 + shrn_lanes_bytes(src as int, dst0 as int, esrc, shift, round, i as nat),
        decreases lanes - i,
    {
        let ghost before = buf@;
        xload(buf, RAX, src + elem_off(i, esrc), esrc, false);
        if round && shift >= 1 {
            buf.add_ri64(RAX, 1u32 << ((shift - 1) as u32));
        }
        if (shift as u32) >= bits {
            buf.xor_rr64(RAX, RAX);
        } else {
            buf.shr_ri8(RAX, shift);
        }
        narrow_store(buf, ds, dst0 + elem_off(i, ds));
        proof {
            assert(buf@ =~= before + shrn_lane_bytes(src as int, dst0 as int, esrc, shift, round, i as int));
            assert(buf@ =~= p1 + shrn_lanes_bytes(src as int, dst0 as int, esrc, shift, round, (i + 1) as nat));
        }
        i = i + 1;
    }
    proof {
        assert(buf@ =~= start + shrn_bytes(rd, rn, esrc, shift, upper, round));
    }
}

/// The 8 bytes at byte `start` of the 32-byte concatenation `rn:rm` into
/// `dst`: one load when `start` is a multiple of 8, else the two words it
/// straddles shifted together in RDX and RDI (bytes past the end read from
/// `rm`'s high word).
pub open spec fn ext_word_bytes(rn: u8, rm: u8, dst: u8, start: int) -> Seq<u8> {
    let wi = start / 8;
    let sh = (start % 8) * 8;
    let n0 = vslot_of(rn) as int;
    let m0 = vslot_of(rm) as int;
    if sh == 0 {
        enc_mov_load64(
            dst,
            RBX,
            (if wi == 0 {
                n0
            } else if wi == 1 {
                n0 + 8
            } else if wi == 2 {
                m0
            } else {
                m0 + 8
            }) as i32,
        )
    } else {
        let a: int = if wi == 0 {
            n0
        } else if wi == 1 {
            n0 + 8
        } else {
            m0
        };
        let b: int = if wi == 0 {
            n0 + 8
        } else if wi == 1 {
            m0
        } else {
            m0 + 8
        };
        enc_mov_load64(RDX, RBX, a as i32) + enc_shift_ri8(5, RDX, sh as u8) + enc_mov_load64(RDI, RBX, b as i32)
            + enc_shift_ri8(4, RDI, (64 - sh) as u8) + enc_binop(0x09, RDX, RDI) + enc_mov_rr64(dst, RDX)
    }
}

#[verifier::spinoff_prover]
fn ext_word(buf: &mut CodeBuf, rn: u8, rm: u8, dst: u8, start: u16)
    ensures
        final(buf)@ == old(buf)@ + ext_word_bytes(rn, rm, dst, start as int),
{
    let ghost begin = buf@;
    let wi = start / 8;
    let sh: u8 = ((start % 8) * 8) as u8;
    let n0 = vslot(rn);
    let m0 = vslot(rm);
    if sh == 0 {
        let off: i32 = if wi == 0 {
            n0
        } else if wi == 1 {
            n0 + 8
        } else if wi == 2 {
            m0
        } else {
            m0 + 8
        };
        buf.mov_load64(dst, RBX, off);
    } else {
        let a: i32 = if wi == 0 {
            n0
        } else if wi == 1 {
            n0 + 8
        } else {
            m0
        };
        let b: i32 = if wi == 0 {
            n0 + 8
        } else if wi == 1 {
            m0
        } else {
            m0 + 8
        };
        buf.mov_load64(RDX, RBX, a);
        buf.shr_ri8(RDX, sh);
        buf.mov_load64(RDI, RBX, b);
        buf.shl_ri8(RDI, 64 - sh);
        buf.or_rr64(RDX, RDI);
        buf.mov_rr64(dst, RDX);
    }
    proof {
        assert(buf@ =~= begin + ext_word_bytes(rn, rm, dst, start as int));
    }
}

/// EXT of byte `imm`: the low word into RAX (and the high into RCX for
/// `q`), both stored to `rd`; without `q` the high word of `rd` cleared.
pub open spec fn simd_ext_bytes(rd: u8, rn: u8, rm: u8, imm: u8, q: bool) -> Seq<u8> {
    let d = vslot_of(rd) as int;
    if q {
        ext_word_bytes(rn, rm, RAX, imm as int) + ext_word_bytes(rn, rm, RCX, imm + 8) + enc_mov_store64(
            RBX,
            d as i32,
            RAX,
        ) + enc_mov_store64(RBX, (d + 8) as i32, RCX)
    } else {
        ext_word_bytes(rn, rm, RAX, imm as int) + enc_mov_store64(RBX, d as i32, RAX) + enc_mov_ri64(RDI, 0)
            + enc_mov_store64(RBX, (d + 8) as i32, RDI)
    }
}

#[verifier::spinoff_prover]
pub(crate) fn translate_simd_ext(buf: &mut CodeBuf, rd: u8, rn: u8, rm: u8, imm: u8, q: bool)
    ensures
        final(buf)@ == old(buf)@ + simd_ext_bytes(rd, rn, rm, imm, q),
{
    let ghost start = buf@;
    let d = vslot(rd);
    if q {
        ext_word(buf, rn, rm, RAX, imm as u16);
        ext_word(buf, rn, rm, RCX, (imm as u16) + 8);
        buf.mov_store64(RBX, d, RAX);
        buf.mov_store64(RBX, d + 8, RCX);
    } else {
        ext_word(buf, rn, rm, RAX, imm as u16);
        buf.mov_store64(RBX, d, RAX);
        buf.mov_ri64(RDI, 0);
        buf.mov_store64(RBX, d + 8, RDI);
    }
    proof {
        assert(buf@ =~= start + simd_ext_bytes(rd, rn, rm, imm, q));
    }
}

/// Lane `i` of SHLL/SHLL2 (the widening by the element width) at
/// `dst_esize` bytes: the `dst_esize / 2`-byte element at `uh + i *
/// (dst_esize / 2)` of `rn` extended (`signed`) and stored; a 4-byte element
/// goes through RCX.
pub open spec fn widen_shl_lane_bytes(rd: u8, rn: u8, de: u8, signed: bool, uh: int, i: int) -> Seq<u8> {
    let so = (vslot_of(rn) + uh + i * (de / 2)) as i32;
    let doff = lane_off(rd, i * de);
    if de == 8 {
        enc_mov_load32(RCX, RBX, so) + (if signed {
            seq![rex_w(RAX, RCX), 0x63u8, modrm_byte(3, RAX & 7, RCX & 7)]
        } else {
            enc_mov_rr64(RAX, RCX)
        }) + enc_mov_store64(RBX, doff, RAX)
    } else if de == 4 {
        (if signed { enc_movsx_word_mem(RAX, RBX, so) } else { enc_movzx_word_mem(RAX, RBX, so) })
            + enc_mov_store32(RBX, doff, RAX)
    } else {
        (if signed { enc_movsx_byte_mem(RAX, RBX, so) } else { enc_movzx_byte_mem(RAX, RBX, so) })
            + enc_mov_store16(RBX, doff, RAX)
    }
}

/// The first `k` lanes of SHLL, taken from the last lane down.
pub open spec fn widen_shl_steps_bytes(rd: u8, rn: u8, de: u8, nl: int, signed: bool, uh: int, k: nat) -> Seq<u8>
    decreases k,
{
    if k == 0 {
        Seq::empty()
    } else {
        widen_shl_steps_bytes(rd, rn, de, nl, signed, uh, (k - 1) as nat) + widen_shl_lane_bytes(
            rd,
            rn,
            de,
            signed,
            uh,
            nl - k,
        )
    }
}

/// SHLL/SHLL2 (`upper`: from bytes 8..15) of `nlanes` lanes, last lane
/// first, so that a destination that is the source is read before written.
pub open spec fn widen_shl_bytes(rd: u8, rn: u8, dst_esize: u8, nlanes: u8, signed: bool, upper: bool) -> Seq<u8> {
    widen_shl_steps_bytes(rd, rn, dst_esize, nlanes as int, signed, if upper { 8 } else { 0 }, nlanes as nat)
}

#[verifier::spinoff_prover]
fn widen_shl_lane(buf: &mut CodeBuf, rd: u8, rn: u8, de: u8, signed: bool, uh: i32, i: u8)
    requires
        uh == 0 || uh == 8,
    ensures
        final(buf)@ == old(buf)@ + widen_shl_lane_bytes(rd, rn, de, signed, uh as int, i as int),
{
    let ghost start = buf@;
    let so = vslot(rn) + uh + elem_off(i, de / 2);
    let doff = vslot(rd) + elem_off(i, de);
    if de == 8 {
        buf.mov_load32(RCX, RBX, so);
        if signed {
            buf.movsxd_r64_r32(RAX, RCX);
        } else {
            buf.mov_rr64(RAX, RCX);
        }
        buf.mov_store64(RBX, doff, RAX);
    } else if de == 4 {
        if signed {
            buf.movsx_word_mem(RAX, RBX, so);
        } else {
            buf.movzx_word_mem(RAX, RBX, so);
        }
        buf.mov_store32(RBX, doff, RAX);
    } else {
        if signed {
            buf.movsx_byte_mem(RAX, RBX, so);
        } else {
            buf.movzx_byte_mem(RAX, RBX, so);
        }
        buf.mov_store16(RBX, doff, RAX);
    }
    proof {
        assert(buf@ =~= start + widen_shl_lane_bytes(rd, rn, de, signed, uh as int, i as int));
    }
}

#[verifier::spinoff_prover]
pub(crate) fn translate_widen_shl(buf: &mut CodeBuf, rd: u8, rn: u8, dst_esize: u8, nlanes: u8, signed: bool, upper: bool)
    ensures
        final(buf)@ == old(buf)@ + widen_shl_bytes(rd, rn, dst_esize, nlanes, signed, upper),
{
    let ghost start = buf@;
    let uh: i32 = if upper { 8 } else { 0 };
    let mut rev: u8 = 0;
    while rev < nlanes
        invariant
            rev <= nlanes,
            uh == (if upper { 8int } else { 0int }),
            buf@ == start + widen_shl_steps_bytes(rd, rn, dst_esize, nlanes as int, signed, uh as int, rev as nat),
        decreases nlanes - rev,
    {
        widen_shl_lane(buf, rd, rn, dst_esize, signed, uh, nlanes - 1 - rev);
        proof {
            assert(buf@ =~= start + widen_shl_steps_bytes(rd, rn, dst_esize, nlanes as int, signed, uh as int, (rev + 1) as nat));
        }
        rev = rev + 1;
    }
}

/// Pair `i` of SADDLP/UADDLP, or SADALP/UADALP with `acc`: the elements
/// `2i` and `2i+1` of `src_esize` bytes (4-byte ones zero-extended, others
/// extended by `signed`) added, the old `2 * src_esize`-byte element of `rd`
/// added in through R10 for `acc` (read as 8 bytes from a 4-byte lane on,
/// else 4), the sum stored as `2 * src_esize` bytes (2 for any size but 8
/// and 4).
pub open spec fn adalp_lane_bytes(rd: u8, n0: int, se: u8, signed: bool, acc: bool, i: int) -> Seq<u8> {
    let de = 2 * se;
    let ss = (n0 + 2 * i * se) as i32;
    let s2 = (n0 + 2 * i * se + se) as i32;
    let dd = lane_off(rd, i * de);
    (if se == 4 {
        enc_mov_load32(RAX, RBX, ss) + enc_mov_load32(RCX, RBX, s2)
    } else if se == 2 {
        if signed {
            enc_movsx_word_mem(RAX, RBX, ss) + enc_movsx_word_mem(RCX, RBX, s2)
        } else {
            enc_movzx_word_mem(RAX, RBX, ss) + enc_movzx_word_mem(RCX, RBX, s2)
        }
    } else {
        if signed {
            enc_movsx_byte_mem(RAX, RBX, ss) + enc_movsx_byte_mem(RCX, RBX, s2)
        } else {
            enc_movzx_byte_mem(RAX, RBX, ss) + enc_movzx_byte_mem(RCX, RBX, s2)
        }
    }) + enc_binop(0x01, RAX, RCX) + (if acc {
        (if de >= 4 { enc_mov_load64(R10, RBX, dd) } else { enc_mov_load32(R10, RBX, dd) }) + enc_binop(
            0x01,
            RAX,
            R10,
        )
    } else {
        Seq::empty()
    }) + if de == 8 {
        enc_mov_store64(RBX, dd, RAX)
    } else if de == 4 {
        enc_mov_store32(RBX, dd, RAX)
    } else {
        enc_mov_store16(RBX, dd, RAX)
    }
}

/// The first `n` pairs.
pub open spec fn adalp_lanes_bytes(rd: u8, n0: int, se: u8, signed: bool, acc: bool, n: nat) -> Seq<u8>
    decreases n,
{
    if n == 0 {
        Seq::empty()
    } else {
        adalp_lanes_bytes(rd, n0, se, signed, acc, (n - 1) as nat) + adalp_lane_bytes(rd, n0, se, signed, acc, n - 1)
    }
}

/// SADDLP/UADDLP/SADALP/UADALP over `n_pairs` pairs of `rn` (from byte 8
/// with `upper`).
pub open spec fn adalp_bytes(rd: u8, rn: u8, src_esize: u8, n_pairs: u8, signed: bool, upper: bool, acc: bool) -> Seq<u8> {
    adalp_lanes_bytes(rd, vslot_of(rn) + if upper { 8int } else { 0int }, src_esize, signed, acc, n_pairs as nat)
}

#[verifier::spinoff_prover]
#[verifier::rlimit(30)]
fn adalp_lane(buf: &mut CodeBuf, rd: u8, n0: i32, se: u8, signed: bool, acc: bool, i: u8)
    requires
        -0x1000_0000 <= n0 <= 0x1000_0000,
    ensures
        final(buf)@ == old(buf)@ + adalp_lane_bytes(rd, n0 as int, se, signed, acc, i as int),
{
    let ghost start = buf@;
    let de: u32 = 2 * (se as u32);
    let ss = n0 + 2 * elem_off(i, se);
    let s2 = ss + (se as i32);
    let dd = vslot(rd) + 2 * elem_off(i, se);
    if se == 4 {
        buf.mov_load32(RAX, RBX, ss);
        buf.mov_load32(RCX, RBX, s2);
    } else if se == 2 {
        if signed {
            buf.movsx_word_mem(RAX, RBX, ss);
            buf.movsx_word_mem(RCX, RBX, s2);
        } else {
            buf.movzx_word_mem(RAX, RBX, ss);
            buf.movzx_word_mem(RCX, RBX, s2);
        }
    } else {
        if signed {
            buf.movsx_byte_mem(RAX, RBX, ss);
            buf.movsx_byte_mem(RCX, RBX, s2);
        } else {
            buf.movzx_byte_mem(RAX, RBX, ss);
            buf.movzx_byte_mem(RCX, RBX, s2);
        }
    }
    buf.add_rr64(RAX, RCX);
    if acc {
        if de >= 4 {
            buf.mov_load64(R10, RBX, dd);
        } else {
            buf.mov_load32(R10, RBX, dd);
        }
        buf.add_rr64(RAX, R10);
    }
    if de == 8 {
        buf.mov_store64(RBX, dd, RAX);
    } else if de == 4 {
        buf.mov_store32(RBX, dd, RAX);
    } else {
        buf.mov_store16(RBX, dd, RAX);
    }
    proof {
        assert(2 * (i * se) == 2 * i * se && 2 * (i * se) == i * (2 * se)) by (nonlinear_arith);
        assert(buf@ =~= start + adalp_lane_bytes(rd, n0 as int, se, signed, acc, i as int));
    }
}

#[verifier::spinoff_prover]
pub(crate) fn translate_adalp(buf: &mut CodeBuf, rd: u8, rn: u8, src_esize: u8, n_pairs: u8, signed: bool, upper: bool, acc: bool)
    ensures
        final(buf)@ == old(buf)@ + adalp_bytes(rd, rn, src_esize, n_pairs, signed, upper, acc),
{
    let ghost start = buf@;
    let n0: i32 = vslot(rn) + if upper { 8i32 } else { 0i32 };
    let mut i: u8 = 0;
    while i < n_pairs
        invariant
            i <= n_pairs,
            n0 == vslot_of(rn) + if upper { 8int } else { 0int },
            buf@ == start + adalp_lanes_bytes(rd, n0 as int, src_esize, signed, acc, i as nat),
        decreases n_pairs - i,
    {
        adalp_lane(buf, rd, n0, src_esize, signed, acc, i);
        proof {
            assert(buf@ =~= start + adalp_lanes_bytes(rd, n0 as int, src_esize, signed, acc, (i + 1) as nat));
        }
        i = i + 1;
    }
}

/// The shift that sign-extends the low `8 * se` bits of a register through
/// `shl` then `sar`.
pub open spec fn mull_sx_shift(se: int) -> u8 {
    ((64 - 8 * se) % 64) as u8
}

/// Lane `i` of SMULL/UMULL, or SMLAL/UMLAL (`acc`) and SMLSL/UMLSL (`sub`):
/// the `res / 2`-byte elements at `n0 + i * (res / 2)` and `m0 + ...` read
/// zero-extended (4, 2, or 1 byte for any other size) and sign-extended by a
/// shift pair unless `unsigned`, multiplied, then added to or subtracted
/// from the `res`-byte element of `rd` in RDX (`acc`), and stored as 8, 4,
/// or 2 (any other size) bytes.
pub open spec fn mull_lane_bytes(rd: u8, n0: int, m0: int, res: u8, unsigned: bool, acc: bool, sub: bool, i: int) -> Seq<u8> {
    let se = res / 2;
    mull_load_bytes((n0 + i * se) as i32, (m0 + i * se) as i32, se, unsigned) + imul_bytes() + mull_finish_bytes(
        lane_off(rd, i * res),
        res,
        acc,
        sub,
    )
}

/// The two source elements of a long multiply into RAX and RCX.
pub open spec fn mull_load_bytes(a: i32, b: i32, se: u8, unsigned: bool) -> Seq<u8> {
    let sh = mull_sx_shift(se as int);
    (if se == 4 {
        enc_mov_load32(RAX, RBX, a) + enc_mov_load32(RCX, RBX, b)
    } else if se == 2 {
        enc_movzx_word_mem(RAX, RBX, a) + enc_movzx_word_mem(RCX, RBX, b)
    } else {
        enc_movzx_byte_mem(RAX, RBX, a) + enc_movzx_byte_mem(RCX, RBX, b)
    }) + (if unsigned {
        Seq::empty()
    } else {
        enc_shift_ri8(4, RAX, sh) + enc_shift_ri8(7, RAX, sh) + enc_shift_ri8(4, RCX, sh) + enc_shift_ri8(7, RCX, sh)
    })
}

/// The product in RAX stored, or first added to or subtracted from the
/// element of the destination in RDX (`acc`).
pub open spec fn mull_finish_bytes(dd: i32, res: u8, acc: bool, sub: bool) -> Seq<u8> {
    if acc {
        (if res == 8 {
            enc_mov_load64(RDX, RBX, dd)
        } else if res == 4 {
            enc_mov_load32(RDX, RBX, dd)
        } else {
            enc_movzx_word_mem(RDX, RBX, dd)
        }) + enc_binop(if sub { 0x29 } else { 0x01 }, RDX, RAX) + mull_store_bytes(res, dd, RDX)
    } else {
        mull_store_bytes(res, dd, RAX)
    }
}

#[verifier::spinoff_prover]
pub(crate) fn mull_load(buf: &mut CodeBuf, a: i32, b: i32, se: u8, unsigned: bool)
    requires
        unsigned || se <= 8,
    ensures
        final(buf)@ == old(buf)@ + mull_load_bytes(a, b, se, unsigned),
{
    let ghost start = buf@;
    if se == 4 {
        buf.mov_load32(RAX, RBX, a);
        buf.mov_load32(RCX, RBX, b);
    } else if se == 2 {
        buf.movzx_word_mem(RAX, RBX, a);
        buf.movzx_word_mem(RCX, RBX, b);
    } else {
        buf.movzx_byte_mem(RAX, RBX, a);
        buf.movzx_byte_mem(RCX, RBX, b);
    }
    if !unsigned {
        let s16: u16 = 64 - 8 * (se as u16);
        let sh: u8 = (s16 % 64) as u8;
        buf.shl_ri8(RAX, sh);
        buf.sar_ri8(RAX, sh);
        buf.shl_ri8(RCX, sh);
        buf.sar_ri8(RCX, sh);
    }
    proof {
        assert(buf@ =~= start + mull_load_bytes(a, b, se, unsigned));
    }
}

#[verifier::spinoff_prover]
pub(crate) fn mull_finish(buf: &mut CodeBuf, dd: i32, res: u8, acc: bool, sub: bool)
    ensures
        final(buf)@ == old(buf)@ + mull_finish_bytes(dd, res, acc, sub),
{
    let ghost start = buf@;
    if acc {
        if res == 8 {
            buf.mov_load64(RDX, RBX, dd);
        } else if res == 4 {
            buf.mov_load32(RDX, RBX, dd);
        } else {
            buf.movzx_word_mem(RDX, RBX, dd);
        }
        if sub {
            buf.sub_rr64(RDX, RAX);
        } else {
            buf.add_rr64(RDX, RAX);
        }
        mull_store(buf, res, dd, RDX);
    } else {
        mull_store(buf, res, dd, RAX);
    }
    proof {
        assert(buf@ =~= start + mull_finish_bytes(dd, res, acc, sub));
    }
}

/// The product's store: 8, 4, or 2 bytes for any other size.
pub open spec fn mull_store_bytes(res: u8, dd: i32, src: u8) -> Seq<u8> {
    if res == 8 {
        enc_mov_store64(RBX, dd, src)
    } else if res == 4 {
        enc_mov_store32(RBX, dd, src)
    } else {
        enc_mov_store16(RBX, dd, src)
    }
}

/// The first `n` lanes of the long multiply.
pub open spec fn mull_lanes_bytes(rd: u8, n0: int, m0: int, res: u8, unsigned: bool, acc: bool, sub: bool, n: nat) -> Seq<u8>
    decreases n,
{
    if n == 0 {
        Seq::empty()
    } else {
        mull_lanes_bytes(rd, n0, m0, res, unsigned, acc, sub, (n - 1) as nat) + mull_lane_bytes(
            rd,
            n0,
            m0,
            res,
            unsigned,
            acc,
            sub,
            n - 1,
        )
    }
}

/// The fields of the long multiply: a nonzero result size, and a source
/// element of at most 8 bytes for the signed forms (whose sign-extending
/// shift `64 - 8 * (res_esize / 2)` is computed in 16 bits).
pub open spec fn mull_wf(res_esize: u8, unsigned: bool) -> bool {
    res_esize != 0 && (unsigned || res_esize / 2 <= 8)
}

/// SMULL/UMULL and the accumulating forms (`q`: from bytes 8..15): a source
/// that is `rd` copied to scratch, then `16 / res_esize` lanes.
pub open spec fn mull_bytes(rd: u8, rn: u8, rm: u8, res_esize: u8, unsigned: bool, q: bool, acc: bool, sub: bool) -> Seq<u8> {
    let h: int = if q { 8 } else { 0 };
    prog_bytes(permute_prog(rd, rn, false)) + prog_bytes(permute_prog(rd, rm, true)) + mull_lanes_bytes(
        rd,
        permute_off(rd, rn, false) + h,
        permute_off(rd, rm, true) + h,
        res_esize,
        unsigned,
        acc,
        sub,
        lane_count(res_esize, true),
    )
}

#[verifier::spinoff_prover]
#[verifier::rlimit(40)]
fn mull_lane(buf: &mut CodeBuf, rd: u8, n0: i32, m0: i32, res: u8, unsigned: bool, acc: bool, sub: bool, i: u8)
    requires
        mull_wf(res, unsigned),
        -0x1000_0000 <= n0 <= 0x1000_0000,
        -0x1000_0000 <= m0 <= 0x1000_0000,
    ensures
        final(buf)@ == old(buf)@ + mull_lane_bytes(rd, n0 as int, m0 as int, res, unsigned, acc, sub, i as int),
{
    let ghost start = buf@;
    let se: u8 = res / 2;
    mull_load(buf, n0 + elem_off(i, se), m0 + elem_off(i, se), se, unsigned);
    buf.imul_rr64(RAX, RCX);
    mull_finish(buf, vslot(rd) + elem_off(i, res), res, acc, sub);
    proof {
        assert(buf@ =~= start + mull_lane_bytes(rd, n0 as int, m0 as int, res, unsigned, acc, sub, i as int));
    }
}

#[verifier::spinoff_prover]
fn mull_store(buf: &mut CodeBuf, res: u8, dd: i32, src: u8)
    ensures
        final(buf)@ == old(buf)@ + mull_store_bytes(res, dd, src),
{
    if res == 8 {
        buf.mov_store64(RBX, dd, src);
    } else if res == 4 {
        buf.mov_store32(RBX, dd, src);
    } else {
        buf.mov_store16(RBX, dd, src);
    }
}

#[verifier::spinoff_prover]
pub(crate) fn translate_mull(buf: &mut CodeBuf, rd: u8, rn: u8, rm: u8, res_esize: u8, unsigned: bool, q: bool, acc: bool, sub: bool)
    requires
        mull_wf(res_esize, unsigned),
    ensures
        final(buf)@ == old(buf)@ + mull_bytes(rd, rn, rm, res_esize, unsigned, q, acc, sub),
{
    let ghost start = buf@;
    let nb = permute_source(buf, rd, rn, false);
    let mb = permute_source(buf, rd, rm, true);
    let h: i32 = if q { 8 } else { 0 };
    let n0 = nb + h;
    let m0 = mb + h;
    let ghost p1 = buf@;
    let lanes = lanes_of(res_esize, true);
    let mut i: u8 = 0;
    while i < lanes
        invariant
            i <= lanes,
            mull_wf(res_esize, unsigned),
            nb == permute_off(rd, rn, false),
            mb == permute_off(rd, rm, true),
            h == 0 || h == 8,
            n0 == nb + h,
            m0 == mb + h,
            buf@ == p1 + mull_lanes_bytes(rd, n0 as int, m0 as int, res_esize, unsigned, acc, sub, i as nat),
        decreases lanes - i,
    {
        mull_lane(buf, rd, n0, m0, res_esize, unsigned, acc, sub, i);
        proof {
            assert(buf@ =~= p1 + mull_lanes_bytes(rd, n0 as int, m0 as int, res_esize, unsigned, acc, sub, (i + 1) as nat));
        }
        i = i + 1;
    }
    proof {
        assert(buf@ =~= start + mull_bytes(rd, rn, rm, res_esize, unsigned, q, acc, sub));
    }
}

/// The lower clamp of a saturating narrow to `dst_esize` bytes (2, or 1 for
/// any other size), as the 64-bit pattern loaded into RCX.
pub open spec fn sat_min(dst_esize: u8, dst_signed: bool) -> u64 {
    if dst_signed {
        if dst_esize == 2 { 0xffff_ffff_ffff_8000 } else { 0xffff_ffff_ffff_ff80 }
    } else {
        0
    }
}

/// The upper clamp of a saturating narrow.
pub open spec fn sat_max(dst_esize: u8, dst_signed: bool) -> u64 {
    if dst_signed {
        if dst_esize == 2 { 0x7fff } else { 0x7f }
    } else {
        if dst_esize == 2 { 0xffff } else { 0xff }
    }
}

/// Lane `i` of SQXTN/UQXTN/SQXTUN: the `2 * dst_esize`-byte element (2
/// bytes for a 1-byte result, else 4, extended by `src_signed`), clamped
/// from below (`cmovl`) and above (`cmovg`) by signed compares, stored as 2
/// bytes or 1.
pub open spec fn sat_narrow_lane_bytes(rd: u8, rn: u8, de: u8, src_signed: bool, dst_signed: bool, i: int) -> Seq<u8> {
    let so = lane_off(rn, i * (2 * de));
    let dd = lane_off(rd, i * de);
    (if 2 * de == 2 {
        if src_signed { enc_movsx_word_mem(RAX, RBX, so) } else { enc_movzx_word_mem(RAX, RBX, so) }
    } else {
        enc_mov_load32(RAX, RBX, so) + if src_signed {
            enc_shift_ri8(4, RAX, 32) + enc_shift_ri8(7, RAX, 32)
        } else {
            Seq::empty()
        }
    }) + enc_mov_ri64(RCX, sat_min(de, dst_signed)) + enc_binop(0x39, RAX, RCX) + enc_cmov_rr64(0x4c, RAX, RCX)
        + enc_mov_ri64(RCX, sat_max(de, dst_signed)) + enc_binop(0x39, RAX, RCX) + enc_cmov_rr64(0x4f, RAX, RCX)
        + if de == 2 {
        enc_mov_store16(RBX, dd, RAX)
    } else {
        enc_mov_store8(RBX, dd, RAX)
    }
}

/// The first `n` lanes of the saturating narrow.
pub open spec fn sat_narrow_lanes_bytes(rd: u8, rn: u8, de: u8, src_signed: bool, dst_signed: bool, n: nat) -> Seq<u8>
    decreases n,
{
    if n == 0 {
        Seq::empty()
    } else {
        sat_narrow_lanes_bytes(rd, rn, de, src_signed, dst_signed, (n - 1) as nat) + sat_narrow_lane_bytes(
            rd,
            rn,
            de,
            src_signed,
            dst_signed,
            n - 1,
        )
    }
}

/// SQXTN/UQXTN/SQXTUN to `dst_esize`-byte lanes (16 or 8 bytes of result
/// with `q`); without `q` the high half of `rd` cleared.
pub open spec fn sat_narrow_bytes(rd: u8, rn: u8, dst_esize: u8, src_signed: bool, dst_signed: bool, q: bool) -> Seq<u8> {
    sat_narrow_lanes_bytes(rd, rn, dst_esize, src_signed, dst_signed, lane_count(dst_esize, q)) + if q {
        Seq::empty()
    } else {
        enc_mov_ri64(RAX, 0) + enc_mov_store64(RBX, lane_off(rd, 8), RAX)
    }
}

#[verifier::spinoff_prover]
#[verifier::rlimit(30)]
fn sat_narrow_lane(buf: &mut CodeBuf, rd: u8, rn: u8, de: u8, src_signed: bool, dst_signed: bool, i: u8)
    ensures
        final(buf)@ == old(buf)@ + sat_narrow_lane_bytes(rd, rn, de, src_signed, dst_signed, i as int),
{
    let ghost start = buf@;
    let so = vslot(rn) + 2 * elem_off(i, de);
    proof {
        assert(2 * (i * de) == i * (2 * de)) by (nonlinear_arith);
    }
    let dd = vslot(rd) + elem_off(i, de);
    if de == 1 {
        if src_signed {
            buf.movsx_word_mem(RAX, RBX, so);
        } else {
            buf.movzx_word_mem(RAX, RBX, so);
        }
    } else {
        buf.mov_load32(RAX, RBX, so);
        if src_signed {
            buf.shl_ri8(RAX, 32);
            buf.sar_ri8(RAX, 32);
        }
    }
    let minv: u64 = if dst_signed {
        if de == 2 { 0xffff_ffff_ffff_8000 } else { 0xffff_ffff_ffff_ff80 }
    } else {
        0
    };
    let maxv: u64 = if dst_signed {
        if de == 2 { 0x7fff } else { 0x7f }
    } else {
        if de == 2 { 0xffff } else { 0xff }
    };
    buf.mov_ri64(RCX, minv);
    binop_rr(buf, 0x39, RAX, RCX);
    buf.cmov_rr64(0x4c, RAX, RCX);
    buf.mov_ri64(RCX, maxv);
    binop_rr(buf, 0x39, RAX, RCX);
    buf.cmov_rr64(0x4f, RAX, RCX);
    if de == 2 {
        buf.mov_store16(RBX, dd, RAX);
    } else {
        buf.mov_store8(RBX, dd, RAX);
    }
    proof {
        assert(buf@ =~= start + sat_narrow_lane_bytes(rd, rn, de, src_signed, dst_signed, i as int));
    }
}

/// The element sizes of the saturating narrow: nonzero.
pub open spec fn sat_narrow_wf(dst_esize: u8) -> bool {
    dst_esize != 0
}

#[verifier::spinoff_prover]
pub(crate) fn translate_sat_narrow(buf: &mut CodeBuf, rd: u8, rn: u8, dst_esize: u8, src_signed: bool, dst_signed: bool, q: bool)
    requires
        sat_narrow_wf(dst_esize),
    ensures
        final(buf)@ == old(buf)@ + sat_narrow_bytes(rd, rn, dst_esize, src_signed, dst_signed, q),
{
    let ghost start = buf@;
    let lanes = lanes_of(dst_esize, q);
    let mut i: u8 = 0;
    while i < lanes
        invariant
            i <= lanes,
            sat_narrow_wf(dst_esize),
            buf@ == start + sat_narrow_lanes_bytes(rd, rn, dst_esize, src_signed, dst_signed, i as nat),
        decreases lanes - i,
    {
        sat_narrow_lane(buf, rd, rn, dst_esize, src_signed, dst_signed, i);
        proof {
            assert(buf@ =~= start + sat_narrow_lanes_bytes(rd, rn, dst_esize, src_signed, dst_signed, (i + 1) as nat));
        }
        i = i + 1;
    }
    let ghost p1 = buf@;
    if !q {
        buf.mov_ri64(RAX, 0);
        buf.mov_store64(RBX, vslot(rd) + 8, RAX);
    }
    proof {
        assert(buf@ =~= start + sat_narrow_bytes(rd, rn, dst_esize, src_signed, dst_signed, q));
    }
}

/// The result width in bits of a high-half narrow, computed in a byte.
pub open spec fn hn_bits(dst_esize: u8) -> u8 {
    (8 * dst_esize) as u8
}

/// Lane `i` of ADDHN/SUBHN/RADDHN/RSUBHN: the `2 * dst_esize`-byte elements
/// read as 8 bytes (from 4-byte elements on) or 4, added or subtracted,
/// `1 << (bits - 1)` added through R10 when rounding, shifted right by the
/// result width `bits`, stored as 4, 2, or 1 byte at `dst0 + i *
/// dst_esize`.
pub open spec fn hn_lane_bytes(rd: u8, rn: u8, rm: u8, de: u8, sub: bool, round: bool, dst0: int, i: int) -> Seq<u8> {
    hn_compute_bytes(rn, rm, de, sub, round, i * (2 * de)) + hn_store_bytes(de, (vslot_of(rd) + dst0 + i * de) as i32)
}

/// The sum or difference of the elements at byte `so`, rounded and shifted.
pub open spec fn hn_compute_bytes(rn: u8, rm: u8, de: u8, sub: bool, round: bool, so: int) -> Seq<u8> {
    let bits = hn_bits(de);
    (if 2 * de >= 4 {
        enc_mov_load64(RAX, RBX, lane_off(rn, so)) + enc_mov_load64(RCX, RBX, lane_off(rm, so))
    } else {
        enc_mov_load32(RAX, RBX, lane_off(rn, so)) + enc_mov_load32(RCX, RBX, lane_off(rm, so))
    }) + enc_binop(if sub { 0x29 } else { 0x01 }, RAX, RCX) + (if round {
        enc_mov_ri64(R10, 1u64 << ((bits - 1) as u64)) + enc_binop(0x01, RAX, R10)
    } else {
        Seq::empty()
    }) + enc_shift_ri8(5, RAX, bits)
}

/// The narrowed result stored as 4, 2, or 1 byte.
pub open spec fn hn_store_bytes(de: u8, dd: i32) -> Seq<u8> {
    if de == 4 {
        enc_mov_store32(RBX, dd, RAX)
    } else if de == 2 {
        enc_mov_store16(RBX, dd, RAX)
    } else {
        enc_mov_store8(RBX, dd, RAX)
    }
}

#[verifier::spinoff_prover]
#[verifier::rlimit(30)]
fn hn_compute(buf: &mut CodeBuf, rn: u8, rm: u8, de: u8, sub: bool, round: bool, so: i32)
    requires
        hn_wf(de, round),
        0 <= so <= 0x2_0000,
    ensures
        final(buf)@ == old(buf)@ + hn_compute_bytes(rn, rm, de, sub, round, so as int),
{
    let ghost start = buf@;
    let bits: u8 = (8 * (de as u32)) as u8;
    if de >= 2 {
        buf.mov_load64(RAX, RBX, vslot(rn) + so);
        buf.mov_load64(RCX, RBX, vslot(rm) + so);
    } else {
        buf.mov_load32(RAX, RBX, vslot(rn) + so);
        buf.mov_load32(RCX, RBX, vslot(rm) + so);
    }
    if sub {
        buf.sub_rr64(RAX, RCX);
    } else {
        buf.add_rr64(RAX, RCX);
    }
    if round {
        buf.mov_ri64(R10, 1u64 << ((bits - 1) as u64));
        buf.add_rr64(RAX, R10);
    }
    buf.shr_ri8(RAX, bits);
    proof {
        assert(buf@ =~= start + hn_compute_bytes(rn, rm, de, sub, round, so as int));
    }
}

/// The first `n` lanes of the high-half narrow.
pub open spec fn hn_lanes_bytes(rd: u8, rn: u8, rm: u8, de: u8, sub: bool, round: bool, dst0: int, n: nat) -> Seq<u8>
    decreases n,
{
    if n == 0 {
        Seq::empty()
    } else {
        hn_lanes_bytes(rd, rn, rm, de, sub, round, dst0, (n - 1) as nat) + hn_lane_bytes(
            rd,
            rn,
            rm,
            de,
            sub,
            round,
            dst0,
            n - 1,
        )
    }
}

/// The fields of the high-half narrow: a nonzero result size, and for the
/// rounding forms a result width `bits` (in a byte) from 1 to 64.
pub open spec fn hn_wf(dst_esize: u8, round: bool) -> bool {
    dst_esize != 0 && (!round || 1 <= hn_bits(dst_esize) <= 64)
}

/// ADDHN/SUBHN (`sub`), rounding with `round`: `8 / dst_esize` lanes into
/// the low half of `rd` (its high half cleared) or, with `q`, the high half.
pub open spec fn high_narrow_bytes(rd: u8, rn: u8, rm: u8, dst_esize: u8, sub: bool, round: bool, q: bool) -> Seq<u8> {
    hn_lanes_bytes(rd, rn, rm, dst_esize, sub, round, if q { 8 } else { 0 }, lane_count(dst_esize, false)) + if q {
        Seq::empty()
    } else {
        enc_mov_ri64(RAX, 0) + enc_mov_store64(RBX, lane_off(rd, 8), RAX)
    }
}

#[verifier::spinoff_prover]
#[verifier::rlimit(30)]
fn hn_lane(buf: &mut CodeBuf, rd: u8, rn: u8, rm: u8, de: u8, sub: bool, round: bool, dst0: i32, i: u8)
    requires
        hn_wf(de, round),
        dst0 == 0 || dst0 == 8,
    ensures
        final(buf)@ == old(buf)@ + hn_lane_bytes(rd, rn, rm, de, sub, round, dst0 as int, i as int),
{
    let ghost start = buf@;
    let so = 2 * elem_off(i, de);
    proof {
        assert(2 * (i * de) == i * (2 * de)) by (nonlinear_arith);
    }
    hn_compute(buf, rn, rm, de, sub, round, so);
    let dd = vslot(rd) + dst0 + elem_off(i, de);
    if de == 4 {
        buf.mov_store32(RBX, dd, RAX);
    } else if de == 2 {
        buf.mov_store16(RBX, dd, RAX);
    } else {
        buf.mov_store8(RBX, dd, RAX);
    }
    proof {
        assert(buf@ =~= start + hn_lane_bytes(rd, rn, rm, de, sub, round, dst0 as int, i as int));
    }
}

#[verifier::spinoff_prover]
pub(crate) fn translate_high_narrow(buf: &mut CodeBuf, rd: u8, rn: u8, rm: u8, dst_esize: u8, sub: bool, round: bool, q: bool)
    requires
        hn_wf(dst_esize, round),
    ensures
        final(buf)@ == old(buf)@ + high_narrow_bytes(rd, rn, rm, dst_esize, sub, round, q),
{
    let ghost start = buf@;
    let dst0: i32 = if q { 8 } else { 0 };
    let lanes = lanes_of(dst_esize, false);
    let mut i: u8 = 0;
    while i < lanes
        invariant
            i <= lanes,
            hn_wf(dst_esize, round),
            dst0 == (if q { 8int } else { 0int }),
            buf@ == start + hn_lanes_bytes(rd, rn, rm, dst_esize, sub, round, dst0 as int, i as nat),
        decreases lanes - i,
    {
        hn_lane(buf, rd, rn, rm, dst_esize, sub, round, dst0, i);
        proof {
            assert(buf@ =~= start + hn_lanes_bytes(rd, rn, rm, dst_esize, sub, round, dst0 as int, (i + 1) as nat));
        }
        i = i + 1;
    }
    if !q {
        buf.mov_ri64(RAX, 0);
        buf.mov_store64(RBX, vslot(rd) + 8, RAX);
    }
    proof {
        assert(buf@ =~= start + high_narrow_bytes(rd, rn, rm, dst_esize, sub, round, q));
    }
}

/// The sign bit of an `esize`-byte FP element: bit 63, 15 (half), or 31.
pub open spec fn fp_sign_bit(esize: u8) -> u64 {
    if esize == 8 {
        0x8000_0000_0000_0000
    } else if esize == 2 {
        0x8000
    } else {
        0x8000_0000
    }
}

/// `movq r, xmm` and `movq xmm, r` of RAX and XMM0.
pub open spec fn movq_rax_xmm0(to_gp: bool) -> Seq<u8> {
    seq![0x66u8, rex_byte(true, 0, 0, RAX), 0x0Fu8, if to_gp { 0x7Eu8 } else { 0x6Eu8 }, modrm_byte(3, 0u8 & 7, RAX & 7)]
}

/// Lane `i` of FNEG (`op` 0), FABS (1) or FSQRT (2) on `esize`-byte
/// elements: the element's 8 bytes into XMM0, `sqrtsd` on them, or their
/// sign bit flipped or cleared through RAX, RCX and RDX; the result stored
/// as 8, 2, or 4 bytes (any other size).
pub open spec fn fp_unary_vec_lane_bytes(rd: u8, rn: u8, op: u8, esize: u8, i: int) -> Seq<u8> {
    let sign = fp_sign_bit(esize);
    let dd = lane_off(rd, i * esize);
    enc_movq_load(0, RBX, lane_off(rn, i * esize)) + (if op == 2 {
        enc_sse_rr(0xF2, 0x51, 0, 0)
    } else {
        movq_rax_xmm0(true) + enc_mov_ri64(RCX, sign) + (if op == 0 {
            enc_binop(0x31, RAX, RCX)
        } else {
            enc_mov_ri64(RDX, sign) + enc_grp3(2, RDX) + enc_binop(0x21, RAX, RDX)
        }) + movq_rax_xmm0(false)
    }) + if esize == 8 {
        enc_movq_store(RBX, dd, 0)
    } else if esize == 2 {
        enc_sse_rr(0x66, 0x7E, 0, RAX) + enc_mov_store16(RBX, dd, RAX)
    } else {
        enc_sse_rr(0x66, 0x7E, 0, RAX) + enc_mov_store32(RBX, dd, RAX)
    }
}

/// The first `n` lanes of the vector FNEG/FABS/FSQRT.
pub open spec fn fp_unary_vec_bytes(rd: u8, rn: u8, op: u8, esize: u8, n: nat) -> Seq<u8>
    decreases n,
{
    if n == 0 {
        Seq::empty()
    } else {
        fp_unary_vec_bytes(rd, rn, op, esize, (n - 1) as nat) + fp_unary_vec_lane_bytes(rd, rn, op, esize, n - 1)
    }
}

#[verifier::spinoff_prover]
#[verifier::rlimit(30)]
fn fp_unary_vec_lane(buf: &mut CodeBuf, rd: u8, rn: u8, op: u8, esize: u8, i: u8)
    ensures
        final(buf)@ == old(buf)@ + fp_unary_vec_lane_bytes(rd, rn, op, esize, i as int),
{
    let ghost start = buf@;
    let off = elem_off(i, esize);
    let sign: u64 = if esize == 8 {
        0x8000_0000_0000_0000
    } else if esize == 2 {
        0x8000
    } else {
        0x8000_0000
    };
    buf.movq_load(0, RBX, vslot(rn) + off);
    if op == 2 {
        buf.sqrtsd(0, 0);
    } else {
        buf.movq_r64_xmm(RAX, 0);
        buf.mov_ri64(RCX, sign);
        if op == 0 {
            buf.xor_rr64(RAX, RCX);
        } else {
            buf.mov_ri64(RDX, sign);
            buf.not_r64(RDX);
            buf.and_rr64(RAX, RDX);
        }
        buf.movq_xmm_r64(0, RAX);
    }
    let dd = vslot(rd) + off;
    if esize == 8 {
        buf.movq_store(RBX, dd, 0);
    } else if esize == 2 {
        buf.movd_r32_xmm(RAX, 0);
        buf.mov_store16(RBX, dd, RAX);
    } else {
        buf.movd_r32_xmm(RAX, 0);
        buf.mov_store32(RBX, dd, RAX);
    }
    proof {
        assert(buf@ =~= start + fp_unary_vec_lane_bytes(rd, rn, op, esize, i as int));
    }
}

#[verifier::spinoff_prover]
pub(crate) fn translate_fp_unary_vec(buf: &mut CodeBuf, rd: u8, rn: u8, op: u8, esize: u8, q: bool)
    requires
        esize != 0,
    ensures
        final(buf)@ == old(buf)@ + fp_unary_vec_bytes(rd, rn, op, esize, lane_count(esize, q)),
{
    let ghost start = buf@;
    let lanes = lanes_of(esize, q);
    let mut i: u8 = 0;
    while i < lanes
        invariant
            i <= lanes,
            buf@ == start + fp_unary_vec_bytes(rd, rn, op, esize, i as nat),
        decreases lanes - i,
    {
        fp_unary_vec_lane(buf, rd, rn, op, esize, i);
        proof {
            assert(buf@ =~= start + fp_unary_vec_bytes(rd, rn, op, esize, (i + 1) as nat));
        }
        i = i + 1;
    }
}

/// The scalar single-precision operation of lane arithmetic `op`: FADD (0),
/// FSUB, FMUL, FDIV, FMAX (4 and 6), FMIN (any other but 8 and 9).
pub open spec fn vec_fp_op_bytes(op: u8) -> Seq<u8> {
    if op == 0 {
        enc_sse_rr(0xF3, 0x58, 0, 1)
    } else if op == 1 {
        enc_sse_rr(0xF3, 0x5C, 0, 1)
    } else if op == 2 {
        enc_sse_rr(0xF3, 0x59, 0, 1)
    } else if op == 3 {
        enc_sse_rr(0xF3, 0x5E, 0, 1)
    } else if op == 4 || op == 6 {
        enc_sse_rex_rr(0xF3, 0x5F, 0, 1)
    } else {
        enc_sse_rex_rr(0xF3, 0x5D, 0, 1)
    }
}

/// Lane `i` of the 32-bit vector FP arithmetic `op`: both elements into
/// XMM0 and XMM1 through EAX; FRECPS (8) and FRSQRTS (9) compute `2 - n *
/// m` (halved for 9) in XMM1, the others the operation in XMM0; the result
/// stored as 4 bytes.
pub open spec fn vec_fp_lane_bytes(rd: u8, rn: u8, rm: u8, op: u8, i: int) -> Seq<u8> {
    let o = 4 * i;
    enc_mov_load32(RAX, RBX, lane_off(rn, o)) + enc_sse_rr(0x66, 0x6E, 0, RAX) + enc_mov_load32(RAX, RBX, lane_off(rm, o))
        + enc_sse_rr(0x66, 0x6E, 1, RAX) + if op == 8 || op == 9 {
        enc_sse_rr(0xF3, 0x59, 0, 1) + enc_mov_ri32(RAX, 0x4000_0000) + enc_sse_rr(0x66, 0x6E, 1, RAX) + enc_sse_rr(
            0xF3,
            0x5C,
            1,
            0,
        ) + (if op == 9 {
            enc_mov_ri32(RAX, 0x3f00_0000) + enc_sse_rr(0x66, 0x6E, 3, RAX) + enc_sse_rr(0xF3, 0x59, 1, 3)
        } else {
            Seq::empty()
        }) + enc_sse_rr(0x66, 0x7E, 1, RAX) + enc_mov_store32(RBX, lane_off(rd, o), RAX)
    } else {
        vec_fp_op_bytes(op) + enc_sse_rr(0x66, 0x7E, 0, RAX) + enc_mov_store32(RBX, lane_off(rd, o), RAX)
    }
}

/// The first `n` lanes of the vector FP arithmetic.
pub open spec fn vec_fp_bytes(rd: u8, rn: u8, rm: u8, op: u8, n: nat) -> Seq<u8>
    decreases n,
{
    if n == 0 {
        Seq::empty()
    } else {
        vec_fp_bytes(rd, rn, rm, op, (n - 1) as nat) + vec_fp_lane_bytes(rd, rn, rm, op, n - 1)
    }
}

#[verifier::spinoff_prover]
fn vec_fp_op(buf: &mut CodeBuf, op: u8)
    ensures
        final(buf)@ == old(buf)@ + vec_fp_op_bytes(op),
{
    if op == 0 {
        buf.addss(0, 1);
    } else if op == 1 {
        buf.subss(0, 1);
    } else if op == 2 {
        buf.mulss(0, 1);
    } else if op == 3 {
        buf.divss(0, 1);
    } else if op == 4 || op == 6 {
        buf.maxss(0, 1);
    } else {
        buf.minss(0, 1);
    }
}

#[verifier::spinoff_prover]
#[verifier::rlimit(30)]
fn vec_fp_lane(buf: &mut CodeBuf, rd: u8, rn: u8, rm: u8, op: u8, i: u8)
    requires
        i < 4,
    ensures
        final(buf)@ == old(buf)@ + vec_fp_lane_bytes(rd, rn, rm, op, i as int),
{
    let ghost start = buf@;
    let o: i32 = 4 * (i as i32);
    buf.mov_load32(RAX, RBX, vslot(rn) + o);
    buf.movd_xmm_r32(0, RAX);
    buf.mov_load32(RAX, RBX, vslot(rm) + o);
    buf.movd_xmm_r32(1, RAX);
    if op == 8 || op == 9 {
        buf.mulss(0, 1);
        buf.mov_ri32(RAX, 0x4000_0000u32);
        buf.movd_xmm_r32(1, RAX);
        buf.subss(1, 0);
        if op == 9 {
            buf.mov_ri32(RAX, 0x3f00_0000u32);
            buf.movd_xmm_r32(3, RAX);
            buf.mulss(1, 3);
        }
        buf.movd_r32_xmm(RAX, 1);
        buf.mov_store32(RBX, vslot(rd) + o, RAX);
    } else {
        vec_fp_op(buf, op);
        buf.movd_r32_xmm(RAX, 0);
        buf.mov_store32(RBX, vslot(rd) + o, RAX);
    }
    proof {
        assert(buf@ =~= start + vec_fp_lane_bytes(rd, rn, rm, op, i as int));
    }
}

#[verifier::spinoff_prover]
pub(crate) fn translate_vec_fp_arith(buf: &mut CodeBuf, rd: u8, rn: u8, rm: u8, op: u8, q: bool)
    ensures
        final(buf)@ == old(buf)@ + vec_fp_bytes(rd, rn, rm, op, if q { 4 } else { 2 }),
{
    let ghost start = buf@;
    let lanes: u8 = if q { 4 } else { 2 };
    let mut i: u8 = 0;
    while i < lanes
        invariant
            i <= lanes,
            lanes == (if q { 4u8 } else { 2u8 }),
            buf@ == start + vec_fp_bytes(rd, rn, rm, op, i as nat),
        decreases lanes - i,
    {
        vec_fp_lane(buf, rd, rn, rm, op, i);
        proof {
            assert(buf@ =~= start + vec_fp_bytes(rd, rn, rm, op, (i + 1) as nat));
        }
        i = i + 1;
    }
}

} // verus!
