//! Saturating vector forms, the long multiply by element, variable
//! vector shifts, the multi-register table lookup and the replicating
//! structure load, lowered lane by lane through general registers.
use vstd::prelude::*;
use crate::fp_ops::{jcc_d, jcc_to, jmp_d, jmp_to, vslot};
use crate::machine::prog_bytes;
use crate::simd_lanes::{
    lane_count, lanes_of, mull_finish, mull_finish_bytes, mull_load, mull_load_bytes, mull_wf, sat_max, sat_min, sxd,
    xload, xload_bytes,
};
use crate::simd_ops::{binop_rr, el_store, el_store_bytes, elem_off, imul_bytes, lane_off, splat, splat_bytes};
use crate::translate::{ldg, ldg_bytes, permute_off, permute_prog, permute_source, vslot_of};
use crate::x86::{
    enc_ari_imm, enc_binop, enc_cmov_rr64, enc_grp3, enc_mov_load32, enc_mov_load64, enc_mov_ri64, enc_mov_store16,
    enc_mov_store64, enc_mov_store8, enc_movsx_byte_mem, enc_movsx_word_mem, enc_movzx_byte_mem,
    enc_movzx_byte_mem_idxd, enc_movzx_word_mem, enc_shift_cl, enc_shift_ri8, CodeBuf, RAX, RBX, RCX, RDX, R10,
};

verus! {

/// `cmp r, imm32` (REX.W 81 /7).
fn compare_imm(buf: &mut CodeBuf, r: u8, imm: u32)
    ensures
        final(buf)@ == old(buf)@ + enc_ari_imm(7, r, imm),
{
    buf.cmp_ri64(r, imm);
}

/// The bytes of `tmp` appended to `buf`.
fn append(buf: &mut CodeBuf, tmp: &CodeBuf)
    ensures
        final(buf)@ == old(buf)@ + tmp@,
{
    let ghost start = buf@;
    let s = tmp.as_slice();
    let mut k: usize = 0;
    while k < s.len()
        invariant
            k <= s@.len(),
            s@ == tmp@,
            buf@ == start + s@.subrange(0, k as int),
        decreases s@.len() - k,
    {
        buf.b(s[k]);
        proof {
            assert(s@.subrange(0, k + 1) =~= s@.subrange(0, k as int).push(s@[k as int]));
        }
        k = k + 1;
    }
    proof {
        assert(s@.subrange(0, s@.len() as int) =~= s@);
    }
}

/// The clamp of a result in RAX to `minv..=maxv` through `r`: `cmovl` to
/// the lower bound, then `cmovg` to the upper, by signed compares.
pub open spec fn clamp_bytes(r: u8, minv: u64, maxv: u64) -> Seq<u8> {
    enc_mov_ri64(r, minv) + enc_binop(0x39, RAX, r) + enc_cmov_rr64(0x4c, RAX, r) + enc_mov_ri64(r, maxv) + enc_binop(
        0x39,
        RAX,
        r,
    ) + enc_cmov_rr64(0x4f, RAX, r)
}

#[verifier::spinoff_prover]
fn clamp(buf: &mut CodeBuf, r: u8, minv: u64, maxv: u64)
    ensures
        final(buf)@ == old(buf)@ + clamp_bytes(r, minv, maxv),
{
    buf.mov_ri64(r, minv);
    binop_rr(buf, 0x39, RAX, r);
    buf.cmov_rr64(0x4c, RAX, r);
    buf.mov_ri64(r, maxv);
    binop_rr(buf, 0x39, RAX, r);
    buf.cmov_rr64(0x4f, RAX, r);
}

/// The all-ones value of an `esize`-byte element (1 to 8).
pub open spec fn sat_full(esize: u8) -> u64 {
    if esize == 1 {
        0xff
    } else if esize == 2 {
        0xffff
    } else if esize == 3 {
        0xff_ffff
    } else if esize == 4 {
        0xffff_ffff
    } else if esize == 5 {
        0xff_ffff_ffff
    } else if esize == 6 {
        0xffff_ffff_ffff
    } else if esize == 7 {
        0xff_ffff_ffff_ffff
    } else {
        0xffff_ffff_ffff_ffff
    }
}

/// The largest signed `esize`-byte element.
pub open spec fn sat_smax(esize: u8) -> u64 {
    if esize == 1 {
        0x7f
    } else if esize == 2 {
        0x7fff
    } else if esize == 3 {
        0x7f_ffff
    } else if esize == 4 {
        0x7fff_ffff
    } else if esize == 5 {
        0x7f_ffff_ffff
    } else if esize == 6 {
        0x7fff_ffff_ffff
    } else if esize == 7 {
        0x7f_ffff_ffff_ffff
    } else {
        0x7fff_ffff_ffff_ffff
    }
}

/// The smallest signed `esize`-byte element, as a 64-bit pattern.
pub open spec fn sat_smin(esize: u8) -> u64 {
    if esize == 1 {
        0xffff_ffff_ffff_ff80
    } else if esize == 2 {
        0xffff_ffff_ffff_8000
    } else if esize == 3 {
        0xffff_ffff_ff80_0000
    } else if esize == 4 {
        0xffff_ffff_8000_0000
    } else if esize == 5 {
        0xffff_ff80_0000_0000
    } else if esize == 6 {
        0xffff_8000_0000_0000
    } else if esize == 7 {
        0xff80_0000_0000_0000
    } else {
        0x8000_0000_0000_0000
    }
}

fn sat_bounds(esize: u8) -> (r: (u64, u64, u64))
    ensures
        r == (sat_full(esize), sat_smax(esize), sat_smin(esize)),
{
    if esize == 1 {
        (0xff, 0x7f, 0xffff_ffff_ffff_ff80)
    } else if esize == 2 {
        (0xffff, 0x7fff, 0xffff_ffff_ffff_8000)
    } else if esize == 3 {
        (0xff_ffff, 0x7f_ffff, 0xffff_ffff_ff80_0000)
    } else if esize == 4 {
        (0xffff_ffff, 0x7fff_ffff, 0xffff_ffff_8000_0000)
    } else if esize == 5 {
        (0xff_ffff_ffff, 0x7f_ffff_ffff, 0xffff_ff80_0000_0000)
    } else if esize == 6 {
        (0xffff_ffff_ffff, 0x7fff_ffff_ffff, 0xffff_8000_0000_0000)
    } else if esize == 7 {
        (0xff_ffff_ffff_ffff, 0x7f_ffff_ffff_ffff, 0xff80_0000_0000_0000)
    } else {
        (0xffff_ffff_ffff_ffff, 0x7fff_ffff_ffff_ffff, 0x8000_0000_0000_0000)
    }
}

/// A signed element at `off` into `r`: 1 byte, 2, 4 (sign-extended), or 8
/// for any other size.
pub open spec fn sload_bytes(r: u8, off: i32, esize: u8) -> Seq<u8> {
    if esize == 1 {
        enc_movsx_byte_mem(r, RBX, off)
    } else if esize == 2 {
        enc_movsx_word_mem(r, RBX, off)
    } else if esize == 4 {
        enc_mov_load32(r, RBX, off) + sxd(r)
    } else {
        enc_mov_load64(r, RBX, off)
    }
}

#[verifier::spinoff_prover]
fn sload(buf: &mut CodeBuf, r: u8, off: i32, esize: u8)
    ensures
        final(buf)@ == old(buf)@ + sload_bytes(r, off, esize),
{
    let ghost start = buf@;
    if esize == 1 {
        buf.movsx_byte_mem(r, RBX, off);
    } else if esize == 2 {
        buf.movsx_word_mem(r, RBX, off);
    } else if esize == 4 {
        buf.mov_load32(r, RBX, off);
        buf.movsxd_r64_r32(r, r);
    } else {
        buf.mov_load64(r, RBX, off);
    }
    proof {
        assert(buf@ =~= start + sload_bytes(r, off, esize));
    }
}

/// The saturating step of SQADD/UQADD/SQSUB/UQSUB on RAX and RCX.
pub open spec fn sat_op_bytes(esize: u8, sub: bool, unsigned: bool) -> Seq<u8> {
    if unsigned {
        if sub {
            enc_mov_ri64(R10, 0) + enc_binop(0x39, RCX, RAX) + enc_binop(0x29, RAX, RCX) + enc_cmov_rr64(0x42, RAX, R10)
        } else {
            enc_mov_ri64(R10, sat_full(esize)) + enc_binop(0x01, RAX, RCX) + enc_cmov_rr64(0x42, RAX, R10)
        }
    } else {
        enc_binop(if sub { 0x29 } else { 0x01 }, RAX, RCX) + enc_mov_ri64(R10, sat_smax(esize)) + enc_binop(0x39, RAX, R10)
            + enc_cmov_rr64(0x4f, RAX, R10) + enc_mov_ri64(R10, sat_smin(esize)) + enc_binop(0x39, RAX, R10)
            + enc_cmov_rr64(0x4c, RAX, R10)
    }
}

#[verifier::spinoff_prover]
fn sat_op(buf: &mut CodeBuf, esize: u8, sub: bool, unsigned: bool)
    ensures
        final(buf)@ == old(buf)@ + sat_op_bytes(esize, sub, unsigned),
{
    let ghost start = buf@;
    let (full, smax, smin) = sat_bounds(esize);
    if unsigned {
        if sub {
            buf.mov_ri64(R10, 0);
            binop_rr(buf, 0x39, RCX, RAX);
            buf.sub_rr64(RAX, RCX);
            buf.cmov_rr64(0x42, RAX, R10);
        } else {
            buf.mov_ri64(R10, full);
            buf.add_rr64(RAX, RCX);
            buf.cmov_rr64(0x42, RAX, R10);
        }
    } else {
        if sub {
            buf.sub_rr64(RAX, RCX);
        } else {
            buf.add_rr64(RAX, RCX);
        }
        buf.mov_ri64(R10, smax);
        binop_rr(buf, 0x39, RAX, R10);
        buf.cmov_rr64(0x4f, RAX, R10);
        buf.mov_ri64(R10, smin);
        binop_rr(buf, 0x39, RAX, R10);
        buf.cmov_rr64(0x4c, RAX, R10);
    }
    proof {
        assert(buf@ =~= start + sat_op_bytes(esize, sub, unsigned));
    }
}

/// Lane `i` of SQADD/UQADD/SQSUB/UQSUB: both elements extended (zero-extended for `unsigned`), added or subtracted with saturation, stored.
pub open spec fn sat_add_lane_bytes(rd: u8, rn: u8, rm: u8, esize: u8, sub: bool, unsigned: bool, i: int) -> Seq<u8> {
    let so = lane_off(rn, i * esize);
    let mo = lane_off(rm, i * esize);
    (if unsigned {
        xload_bytes(RAX, so, esize, false) + xload_bytes(RCX, mo, esize, false)
    } else {
        sload_bytes(RAX, so, esize) + sload_bytes(RCX, mo, esize)
    }) + sat_op_bytes(esize, sub, unsigned) + el_store_bytes(esize, lane_off(rd, i * esize), RAX)
}

/// The first `n` lanes of `sat_add_lane_bytes`.
pub open spec fn sat_add_lanes_bytes(rd: u8, rn: u8, rm: u8, esize: u8, sub: bool, unsigned: bool, n: nat) -> Seq<u8>
    decreases n,
{
    if n == 0 {
        Seq::empty()
    } else {
        sat_add_lanes_bytes(rd, rn, rm, esize, sub, unsigned, (n - 1) as nat) + sat_add_lane_bytes(rd, rn, rm, esize, sub, unsigned, n - 1)
    }
}

#[verifier::spinoff_prover]
#[verifier::rlimit(30)]
fn sat_add_lane(buf: &mut CodeBuf, rd: u8, rn: u8, rm: u8, esize: u8, sub: bool, unsigned: bool, i: u8)
    requires
        i < 16,
    ensures
        final(buf)@ == old(buf)@ + sat_add_lane_bytes(rd, rn, rm, esize, sub, unsigned, i as int),
{
    let ghost start = buf@;
    let e = elem_off(i, esize);
    if unsigned {
        xload(buf, RAX, vslot(rn) + e, esize, false);
        xload(buf, RCX, vslot(rm) + e, esize, false);
    } else {
        sload(buf, RAX, vslot(rn) + e, esize);
        sload(buf, RCX, vslot(rm) + e, esize);
    }
    sat_op(buf, esize, sub, unsigned);
    el_store(buf, esize, vslot(rd) + e, RAX);
    proof {
        assert(buf@ =~= start + sat_add_lane_bytes(rd, rn, rm, esize, sub, unsigned, i as int));
    }
}

#[verifier::spinoff_prover]
fn sat_add_lanes(buf: &mut CodeBuf, rd: u8, rn: u8, rm: u8, esize: u8, sub: bool, unsigned: bool, lanes: u8)
    requires
        lanes <= 16,
    ensures
        final(buf)@ == old(buf)@ + sat_add_lanes_bytes(rd, rn, rm, esize, sub, unsigned, lanes as nat),
{
    let ghost start = buf@;
    let mut i: u8 = 0;
    while i < lanes
        invariant
            i <= lanes,
            lanes <= 16,
            buf@ == start + sat_add_lanes_bytes(rd, rn, rm, esize, sub, unsigned, i as nat),
        decreases lanes - i,
    {
        sat_add_lane(buf, rd, rn, rm, esize, sub, unsigned, i);
        proof {
            assert(buf@ =~= start + sat_add_lanes_bytes(rd, rn, rm, esize, sub, unsigned, (i + 1) as nat));
        }
        i = i + 1;
    }
}

/// SQADD/UQADD/SQSUB/UQSUB of `esize`-byte lanes (1 to 8 bytes).
pub open spec fn sat_add_bytes(rd: u8, rn: u8, rm: u8, esize: u8, sub: bool, unsigned: bool, q: bool) -> Seq<u8> {
    sat_add_lanes_bytes(rd, rn, rm, esize, sub, unsigned, lane_count(esize, q))
}

/// The element sizes of the saturating adds, whose bounds are computed as
/// shifts by the element width: 1 to 8 bytes.
pub open spec fn sat_add_wf(esize: u8) -> bool {
    1 <= esize <= 8
}

pub(crate) fn translate_sat_add(buf: &mut CodeBuf, rd: u8, rn: u8, rm: u8, esize: u8, sub: bool, unsigned: bool, q: bool)
    requires
        sat_add_wf(esize),
    ensures
        final(buf)@ == old(buf)@ + sat_add_bytes(rd, rn, rm, esize, sub, unsigned, q),
{
    let lanes = lanes_of(esize, q);
    sat_add_lanes(buf, rd, rn, rm, esize, sub, unsigned, lanes);
}

/// The upper clamp of SQSHL (`sat` 0), UQSHL (1) or SQSHLU (2) by element
/// size, 255 for any other pair.
pub open spec fn shl_sat_max(sat: u8, esize: u8) -> u64 {
    if sat == 0 && esize == 8 {
        0x7fff_ffff_ffff_ffff
    } else if sat == 0 && esize == 4 {
        0x7fff_ffff
    } else if sat == 0 && esize == 2 {
        0x7fff
    } else if sat == 0 && esize == 1 {
        0x7f
    } else if (sat == 1 || sat == 2) && esize == 8 {
        0x7fff_ffff_ffff_ffff
    } else if (sat == 1 || sat == 2) && esize == 4 {
        0xffff_ffff
    } else if (sat == 1 || sat == 2) && esize == 2 {
        0xffff
    } else {
        0xff
    }
}

/// The lower clamp of the saturating shifts: the signed minimum for SQSHL,
/// else 0.
pub open spec fn shl_sat_min(sat: u8, esize: u8) -> u64 {
    if sat == 0 && esize == 8 {
        0x8000_0000_0000_0000
    } else if sat == 0 && esize == 4 {
        0xffff_ffff_8000_0000
    } else if sat == 0 && esize == 2 {
        0xffff_ffff_ffff_8000
    } else if sat == 0 && esize == 1 {
        0xffff_ffff_ffff_ff80
    } else {
        0
    }
}

fn shl_sat_bounds(sat: u8, esize: u8) -> (r: (u64, u64))
    ensures
        r == (shl_sat_max(sat, esize), shl_sat_min(sat, esize)),
{
    if sat == 0 && esize == 8 {
        (0x7fff_ffff_ffff_ffff, 0x8000_0000_0000_0000)
    } else if sat == 0 && esize == 4 {
        (0x7fff_ffff, 0xffff_ffff_8000_0000)
    } else if sat == 0 && esize == 2 {
        (0x7fff, 0xffff_ffff_ffff_8000)
    } else if sat == 0 && esize == 1 {
        (0x7f, 0xffff_ffff_ffff_ff80)
    } else if (sat == 1 || sat == 2) && esize == 8 {
        (0x7fff_ffff_ffff_ffff, 0)
    } else if (sat == 1 || sat == 2) && esize == 4 {
        (0xffff_ffff, 0)
    } else if (sat == 1 || sat == 2) && esize == 2 {
        (0xffff, 0)
    } else {
        (0xff, 0)
    }
}

/// Lane `i` of SQSHL/UQSHL/SQSHLU (immediate): the element extended (signed unless `sat` is 1), shifted left by `shift`, clamped through RCX to `minv..=maxv`, stored.
pub open spec fn sat_shl_lane_bytes(rd: u8, rn: u8, esize: u8, shift: u8, sat: u8, minv: u64, maxv: u64, i: int) -> Seq<u8> {
    xload_bytes(RAX, lane_off(rn, i * esize), esize, sat != 1) + enc_shift_ri8(4, RAX, shift) + clamp_bytes(RCX, minv, maxv)
        + el_store_bytes(esize, lane_off(rd, i * esize), RAX)
}

/// The first `n` lanes of `sat_shl_lane_bytes`.
pub open spec fn sat_shl_lanes_bytes(rd: u8, rn: u8, esize: u8, shift: u8, sat: u8, minv: u64, maxv: u64, n: nat) -> Seq<u8>
    decreases n,
{
    if n == 0 {
        Seq::empty()
    } else {
        sat_shl_lanes_bytes(rd, rn, esize, shift, sat, minv, maxv, (n - 1) as nat) + sat_shl_lane_bytes(rd, rn, esize, shift, sat, minv, maxv, n - 1)
    }
}

#[verifier::spinoff_prover]
#[verifier::rlimit(30)]
fn sat_shl_lane(buf: &mut CodeBuf, rd: u8, rn: u8, esize: u8, shift: u8, sat: u8, minv: u64, maxv: u64, i: u8)
    requires
        i < 16,
    ensures
        final(buf)@ == old(buf)@ + sat_shl_lane_bytes(rd, rn, esize, shift, sat, minv, maxv, i as int),
{
    let ghost start = buf@;
    let e = elem_off(i, esize);
    xload(buf, RAX, vslot(rn) + e, esize, sat != 1);
    buf.shl_ri8(RAX, shift);
    clamp(buf, RCX, minv, maxv);
    el_store(buf, esize, vslot(rd) + e, RAX);
    proof {
        assert(buf@ =~= start + sat_shl_lane_bytes(rd, rn, esize, shift, sat, minv, maxv, i as int));
    }
}

#[verifier::spinoff_prover]
fn sat_shl_lanes(buf: &mut CodeBuf, rd: u8, rn: u8, esize: u8, shift: u8, sat: u8, minv: u64, maxv: u64, lanes: u8)
    requires
        lanes <= 16,
    ensures
        final(buf)@ == old(buf)@ + sat_shl_lanes_bytes(rd, rn, esize, shift, sat, minv, maxv, lanes as nat),
{
    let ghost start = buf@;
    let mut i: u8 = 0;
    while i < lanes
        invariant
            i <= lanes,
            lanes <= 16,
            buf@ == start + sat_shl_lanes_bytes(rd, rn, esize, shift, sat, minv, maxv, i as nat),
        decreases lanes - i,
    {
        sat_shl_lane(buf, rd, rn, esize, shift, sat, minv, maxv, i);
        proof {
            assert(buf@ =~= start + sat_shl_lanes_bytes(rd, rn, esize, shift, sat, minv, maxv, (i + 1) as nat));
        }
        i = i + 1;
    }
}

/// SQSHL/UQSHL/SQSHLU (immediate) on 16 bytes of `esize`-byte lanes.
pub open spec fn sat_shl_bytes(rd: u8, rn: u8, esize: u8, shift: u8, sat: u8) -> Seq<u8> {
    sat_shl_lanes_bytes(rd, rn, esize, shift, sat, shl_sat_min(sat, esize), shl_sat_max(sat, esize), lane_count(esize, true))
}

pub(crate) fn translate_sat_shl(buf: &mut CodeBuf, rd: u8, rn: u8, esize: u8, shift: u8, sat: u8)
    requires
        esize != 0,
    ensures
        final(buf)@ == old(buf)@ + sat_shl_bytes(rd, rn, esize, shift, sat),
{
    let (maxv, minv) = shl_sat_bounds(sat, esize);
    let lanes = lanes_of(esize, true);
    sat_shl_lanes(buf, rd, rn, esize, shift, sat, minv, maxv, lanes);
}

/// Lane `i` of SQSHRN/UQSHRN/SQSHRUN: the `se`-byte element at `src + i * se` (2 bytes, else 4; extended by `src_signed`), shifted right arithmetically or logically, clamped to the result range, stored as 2 bytes or 1.
pub open spec fn sat_nshift_lane_bytes(rd: u8, src: i32, se: u8, de: u8, shift: u8, src_signed: bool, dst_signed: bool, i: int) -> Seq<u8> {
    let so = (src + i * se) as i32;
    (if se == 2 {
        if src_signed { enc_movsx_word_mem(RAX, RBX, so) } else { enc_movzx_word_mem(RAX, RBX, so) }
    } else {
        enc_mov_load32(RAX, RBX, so) + if src_signed {
            enc_shift_ri8(4, RAX, 32) + enc_shift_ri8(7, RAX, 32)
        } else {
            Seq::empty()
        }
    }) + enc_shift_ri8(if src_signed { 7 } else { 5 }, RAX, shift) + clamp_bytes(RCX, sat_min(de, dst_signed), sat_max(de, dst_signed))
        + if de == 2 {
        enc_mov_store16(RBX, lane_off(rd, i * de), RAX)
    } else {
        enc_mov_store8(RBX, lane_off(rd, i * de), RAX)
    }
}

/// The first `n` lanes of `sat_nshift_lane_bytes`.
pub open spec fn sat_nshift_lanes_bytes(rd: u8, src: i32, se: u8, de: u8, shift: u8, src_signed: bool, dst_signed: bool, n: nat) -> Seq<u8>
    decreases n,
{
    if n == 0 {
        Seq::empty()
    } else {
        sat_nshift_lanes_bytes(rd, src, se, de, shift, src_signed, dst_signed, (n - 1) as nat) + sat_nshift_lane_bytes(rd, src, se, de, shift, src_signed, dst_signed, n - 1)
    }
}

#[verifier::spinoff_prover]
#[verifier::rlimit(40)]
fn sat_nshift_lane(buf: &mut CodeBuf, rd: u8, src: i32, se: u8, de: u8, shift: u8, src_signed: bool, dst_signed: bool, i: u8)
    requires
        i < 16,
        -0x1000_0000 <= src <= 0x1000_0000,
    ensures
        final(buf)@ == old(buf)@ + sat_nshift_lane_bytes(rd, src, se, de, shift, src_signed, dst_signed, i as int),
{
    let ghost start = buf@;
    let so = src + elem_off(i, se);
    if se == 2 {
        if src_signed {
            buf.movsx_word_mem(RAX, RBX, so);
        } else {
            buf.movzx_word_mem(RAX, RBX, so);
        }
    } else {
        buf.mov_load32(RAX, RBX, so);
        if src_signed {
            buf.shl_ri8(RAX, 32);
            buf.sar_ri8(RAX, 32);
        }
    }
    if src_signed {
        buf.sar_ri8(RAX, shift);
    } else {
        buf.shr_ri8(RAX, shift);
    }
    let minv: u64 = if dst_signed {
        if de == 2 { 0xffff_ffff_ffff_8000 } else { 0xffff_ffff_ffff_ff80 }
    } else {
        0
    };
    let maxv: u64 = if dst_signed {
        if de == 2 { 0x7fff } else { 0x7f }
    } else {
        if de == 2 { 0xffff } else { 0xff }
    };
    clamp(buf, RCX, minv, maxv);
    let dd = vslot(rd) + elem_off(i, de);
    if de == 2 {
        buf.mov_store16(RBX, dd, RAX);
    } else {
        buf.mov_store8(RBX, dd, RAX);
    }
    proof {
        assert(buf@ =~= start + sat_nshift_lane_bytes(rd, src, se, de, shift, src_signed, dst_signed, i as int));
    }
}

#[verifier::spinoff_prover]
fn sat_nshift_lanes(buf: &mut CodeBuf, rd: u8, src: i32, se: u8, de: u8, shift: u8, src_signed: bool, dst_signed: bool, lanes: u8)
    requires
        lanes <= 16,
        -0x1000_0000 <= src <= 0x1000_0000,
    ensures
        final(buf)@ == old(buf)@ + sat_nshift_lanes_bytes(rd, src, se, de, shift, src_signed, dst_signed, lanes as nat),
{
    let ghost start = buf@;
    let mut i: u8 = 0;
    while i < lanes
        invariant
            i <= lanes,
            lanes <= 16,
        -0x1000_0000 <= src <= 0x1000_0000,
            buf@ == start + sat_nshift_lanes_bytes(rd, src, se, de, shift, src_signed, dst_signed, i as nat),
        decreases lanes - i,
    {
        sat_nshift_lane(buf, rd, src, se, de, shift, src_signed, dst_signed, i);
        proof {
            assert(buf@ =~= start + sat_nshift_lanes_bytes(rd, src, se, de, shift, src_signed, dst_signed, (i + 1) as nat));
        }
        i = i + 1;
    }
}

/// SQSHRN/UQSHRN/SQSHRUN to `dst_esize`-byte lanes (16 or 8 bytes of result
/// with `q`): `rn` copied to scratch when it is `rd`; without `q` the high
/// half of `rd` cleared.
pub open spec fn sat_nshift_bytes(rd: u8, rn: u8, src_esize: u8, dst_esize: u8, shift: u8, src_signed: bool, dst_signed: bool, q: bool) -> Seq<u8> {
    prog_bytes(permute_prog(rd, rn, false)) + sat_nshift_lanes_bytes(
        rd,
        permute_off(rd, rn, false),
        src_esize,
        dst_esize,
        shift,
        src_signed,
        dst_signed,
        lane_count(dst_esize, q),
    ) + if q {
        Seq::empty()
    } else {
        enc_mov_ri64(RAX, 0) + enc_mov_store64(RBX, lane_off(rd, 8), RAX)
    }
}

pub(crate) fn translate_sat_nshift(buf: &mut CodeBuf, rd: u8, rn: u8, src_esize: u8, dst_esize: u8, shift: u8, src_signed: bool, dst_signed: bool, q: bool)
    requires
        dst_esize != 0,
    ensures
        final(buf)@ == old(buf)@ + sat_nshift_bytes(rd, rn, src_esize, dst_esize, shift, src_signed, dst_signed, q),
{
    let ghost start = buf@;
    let src = permute_source(buf, rd, rn, false);
    let lanes = lanes_of(dst_esize, q);
    sat_nshift_lanes(buf, rd, src, src_esize, dst_esize, shift, src_signed, dst_signed, lanes);
    if !q {
        buf.mov_ri64(RAX, 0);
        buf.mov_store64(RBX, vslot(rd) + 8, RAX);
    }
    proof {
        assert(buf@ =~= start + sat_nshift_bytes(rd, rn, src_esize, dst_esize, shift, src_signed, dst_signed, q));
    }
}

/// Lane `i` of SMULL/UMULL by element and the accumulating forms: the element at `n0 + i * (res / 2)` times the one at `m0`, then stored or accumulated.
pub open spec fn mull_el_lane_bytes(rd: u8, n0: i32, m0: i32, res: u8, unsigned: bool, acc: bool, sub: bool, i: int) -> Seq<u8> {
    let se = res / 2;
    mull_load_bytes((n0 + i * se) as i32, m0, se, unsigned) + imul_bytes() + mull_finish_bytes(lane_off(rd, i * res), res, acc, sub)
}

/// The first `n` lanes of `mull_el_lane_bytes`.
pub open spec fn mull_el_lanes_bytes(rd: u8, n0: i32, m0: i32, res: u8, unsigned: bool, acc: bool, sub: bool, n: nat) -> Seq<u8>
    decreases n,
{
    if n == 0 {
        Seq::empty()
    } else {
        mull_el_lanes_bytes(rd, n0, m0, res, unsigned, acc, sub, (n - 1) as nat) + mull_el_lane_bytes(rd, n0, m0, res, unsigned, acc, sub, n - 1)
    }
}

#[verifier::spinoff_prover]
#[verifier::rlimit(30)]
fn mull_el_lane(buf: &mut CodeBuf, rd: u8, n0: i32, m0: i32, res: u8, unsigned: bool, acc: bool, sub: bool, i: u8)
    requires
        i < 16,
        mull_wf(res, unsigned),
        -0x1000_0000 <= n0 <= 0x1000_0000,
    ensures
        final(buf)@ == old(buf)@ + mull_el_lane_bytes(rd, n0, m0, res, unsigned, acc, sub, i as int),
{
    let ghost start = buf@;
    let se: u8 = res / 2;
    mull_load(buf, n0 + elem_off(i, se), m0, se, unsigned);
    buf.imul_rr64(RAX, RCX);
    mull_finish(buf, vslot(rd) + elem_off(i, res), res, acc, sub);
    proof {
        assert(buf@ =~= start + mull_el_lane_bytes(rd, n0, m0, res, unsigned, acc, sub, i as int));
    }
}

#[verifier::spinoff_prover]
fn mull_el_lanes(buf: &mut CodeBuf, rd: u8, n0: i32, m0: i32, res: u8, unsigned: bool, acc: bool, sub: bool, lanes: u8)
    requires
        lanes <= 16,
        mull_wf(res, unsigned),
        -0x1000_0000 <= n0 <= 0x1000_0000,
    ensures
        final(buf)@ == old(buf)@ + mull_el_lanes_bytes(rd, n0, m0, res, unsigned, acc, sub, lanes as nat),
{
    let ghost start = buf@;
    let mut i: u8 = 0;
    while i < lanes
        invariant
            i <= lanes,
            lanes <= 16,
        mull_wf(res, unsigned),
        -0x1000_0000 <= n0 <= 0x1000_0000,
            buf@ == start + mull_el_lanes_bytes(rd, n0, m0, res, unsigned, acc, sub, i as nat),
        decreases lanes - i,
    {
        mull_el_lane(buf, rd, n0, m0, res, unsigned, acc, sub, i);
        proof {
            assert(buf@ =~= start + mull_el_lanes_bytes(rd, n0, m0, res, unsigned, acc, sub, (i + 1) as nat));
        }
        i = i + 1;
    }
}

/// SMULL/UMULL by element `index` of `rm` (`q`: from bytes 8..15 of `rn`),
/// `rn` copied to scratch when it is `rd`, `16 / res_esize` lanes.
pub open spec fn mull_el_bytes(rd: u8, rn: u8, rm: u8, index: u8, res_esize: u8, unsigned: bool, q: bool, acc: bool, sub: bool) -> Seq<u8> {
    prog_bytes(permute_prog(rd, rn, false)) + mull_el_lanes_bytes(
        rd,
        (permute_off(rd, rn, false) + if q { 8int } else { 0int }) as i32,
        lane_off(rm, index * (res_esize / 2)),
        res_esize,
        unsigned,
        acc,
        sub,
        lane_count(res_esize, true),
    )
}

pub(crate) fn translate_mull_el(buf: &mut CodeBuf, rd: u8, rn: u8, rm: u8, index: u8, res_esize: u8, unsigned: bool, q: bool, acc: bool, sub: bool)
    requires
        mull_wf(res_esize, unsigned),
    ensures
        final(buf)@ == old(buf)@ + mull_el_bytes(rd, rn, rm, index, res_esize, unsigned, q, acc, sub),
{
    let ghost start = buf@;
    let mbase = vslot(rm) + elem_off(index, res_esize / 2);
    let nb = permute_source(buf, rd, rn, false);
    let n0 = nb + if q { 8i32 } else { 0i32 };
    let lanes = lanes_of(res_esize, true);
    mull_el_lanes(buf, rd, n0, mbase, res_esize, unsigned, acc, sub, lanes);
    proof {
        assert(buf@ =~= start + mull_el_bytes(rd, rn, rm, index, res_esize, unsigned, q, acc, sub));
    }
}

/// The table hit of TBL/TBX byte `i`: the table byte at `RBX + slot(rn) +
/// index` stored to `rd`.
pub open spec fn tbl2_hit_bytes(rd: u8, rn: u8, i: int) -> Seq<u8> {
    enc_movzx_byte_mem_idxd(RAX, RBX, RAX, vslot_of(rn)) + enc_mov_store8(RBX, lane_off(rd, i), RAX)
}

/// The miss of TBL byte `i`: 0 stored (nothing for TBX, `tbx`).
pub open spec fn tbl2_miss_bytes(rd: u8, tbx: bool, i: int) -> Seq<u8> {
    if tbx {
        Seq::empty()
    } else {
        enc_mov_ri64(RAX, 0) + enc_mov_store8(RBX, lane_off(rd, i), RAX)
    }
}

/// Byte `i` of TBL/TBX over `len2 + 1` registers: the index from `rm`, compared with `16 * (len2 + 1)` (`tb`); below it the table byte is stored and a `jmp` skips the miss; from it on, `jae` goes to the miss.
pub open spec fn tbl2_lane_bytes(rd: u8, rn: u8, rm: u8, tb: u32, tbx: bool, i: int) -> Seq<u8> {
    let hit = tbl2_hit_bytes(rd, rn, i);
    let miss = tbl2_miss_bytes(rd, tbx, i);
    enc_movzx_byte_mem(RAX, RBX, lane_off(rm, i)) + enc_ari_imm(7, RAX, tb) + jcc_d(0x83, ((hit + jmp_d(0)).len()) as u32)
        + hit + jmp_d(miss.len() as u32) + miss
}

/// The first `n` lanes of `tbl2_lane_bytes`.
pub open spec fn tbl2_lanes_bytes(rd: u8, rn: u8, rm: u8, tb: u32, tbx: bool, n: nat) -> Seq<u8>
    decreases n,
{
    if n == 0 {
        Seq::empty()
    } else {
        tbl2_lanes_bytes(rd, rn, rm, tb, tbx, (n - 1) as nat) + tbl2_lane_bytes(rd, rn, rm, tb, tbx, n - 1)
    }
}

#[verifier::spinoff_prover]
#[verifier::rlimit(30)]
fn tbl2_lane(buf: &mut CodeBuf, rd: u8, rn: u8, rm: u8, tb: u32, tbx: bool, i: u8)
    requires
        i < 16,
    ensures
        final(buf)@ == old(buf)@ + tbl2_lane_bytes(rd, rn, rm, tb, tbx, i as int),
{
    let ghost start = buf@;
    let o: i32 = i as i32;
    let mut hit = CodeBuf::new();
    hit.movzx_byte_mem_idxd(RAX, RBX, RAX, vslot(rn));
    hit.mov_store8(RBX, vslot(rd) + o, RAX);
    let mut miss = CodeBuf::new();
    if !tbx {
        miss.mov_ri64(RAX, 0);
        miss.mov_store8(RBX, vslot(rd) + o, RAX);
    }
    proof {
        assert(hit@ =~= tbl2_hit_bytes(rd, rn, i as int));
        assert(miss@ =~= tbl2_miss_bytes(rd, tbx, i as int));
        assert((hit@ + jmp_d(0)).len() == hit@.len() + 5);
        assert(hit@.len() <= 20);
    }
    buf.movzx_byte_mem(RAX, RBX, vslot(rm) + o);
    compare_imm(buf, RAX, tb);
    jcc_to(buf, 0x83, (hit.len() + 5) as u32);
    append(buf, &hit);
    jmp_to(buf, miss.len() as u32);
    append(buf, &miss);
    proof {
        assert(buf@ =~= start + tbl2_lane_bytes(rd, rn, rm, tb, tbx, i as int));
    }
}

#[verifier::spinoff_prover]
fn tbl2_lanes(buf: &mut CodeBuf, rd: u8, rn: u8, rm: u8, tb: u32, tbx: bool, lanes: u8)
    requires
        lanes <= 16,
    ensures
        final(buf)@ == old(buf)@ + tbl2_lanes_bytes(rd, rn, rm, tb, tbx, lanes as nat),
{
    let ghost start = buf@;
    let mut i: u8 = 0;
    while i < lanes
        invariant
            i <= lanes,
            lanes <= 16,
            buf@ == start + tbl2_lanes_bytes(rd, rn, rm, tb, tbx, i as nat),
        decreases lanes - i,
    {
        tbl2_lane(buf, rd, rn, rm, tb, tbx, i);
        proof {
            assert(buf@ =~= start + tbl2_lanes_bytes(rd, rn, rm, tb, tbx, (i + 1) as nat));
        }
        i = i + 1;
    }
}

/// TBL/TBX over `len2 + 1` table registers, 16 (`q`) or 8 bytes.
pub open spec fn tbl2_bytes(rd: u8, rn: u8, rm: u8, len2: u8, tbx: bool, q: bool) -> Seq<u8> {
    tbl2_lanes_bytes(rd, rn, rm, (16 * (len2 + 1)) as u32, tbx, if q { 16 } else { 8 })
}

pub(crate) fn translate_tbl2(buf: &mut CodeBuf, rd: u8, rn: u8, rm: u8, len2: u8, tbx: bool, q: bool)
    ensures
        final(buf)@ == old(buf)@ + tbl2_bytes(rd, rn, rm, len2, tbx, q),
{
    let tb: u32 = 16 * (len2 as u32 + 1);
    tbl2_lanes(buf, rd, rn, rm, tb, tbx, if q { 16 } else { 8 });
}

/// An `esize`-byte element at `[RDX]` into RAX: 8, 4, 2, or 1 byte for any
/// other size.
pub open spec fn ld_rdx_bytes(esize: u8) -> Seq<u8> {
    if esize == 8 {
        enc_mov_load64(RAX, RDX, 0)
    } else if esize == 4 {
        enc_mov_load32(RAX, RDX, 0)
    } else if esize == 2 {
        enc_movzx_word_mem(RAX, RDX, 0)
    } else {
        enc_movzx_byte_mem(RAX, RDX, 0)
    }
}

/// LD1R: the element at `x[rn]` replicated over 16 (`q`) or 8 bytes of
/// `rd`; without `q` the high half cleared.
pub open spec fn ld1r_bytes(rd: u8, rn: u8, esize: u8, q: bool) -> Seq<u8> {
    ldg_bytes(RDX, rn) + ld_rdx_bytes(esize) + splat_bytes(rd, esize, true, 0, if q { 16 } else { 8 }) + if q {
        Seq::empty()
    } else {
        enc_mov_ri64(RAX, 0) + enc_mov_store64(RBX, lane_off(rd, 8), RAX)
    }
}

pub(crate) fn translate_ld1r(buf: &mut CodeBuf, rd: u8, rn: u8, esize: u8, q: bool)
    requires
        esize != 0,
    ensures
        final(buf)@ == old(buf)@ + ld1r_bytes(rd, rn, esize, q),
{
    let ghost start = buf@;
    ldg(buf, RDX, rn as u32);
    if esize == 8 {
        buf.mov_load64(RAX, RDX, 0);
    } else if esize == 4 {
        buf.mov_load32(RAX, RDX, 0);
    } else if esize == 2 {
        buf.movzx_word_mem(RAX, RDX, 0);
    } else {
        buf.movzx_byte_mem(RAX, RDX, 0);
    }
    splat(buf, rd, esize, true, if q { 16 } else { 8 });
    if !q {
        buf.mov_ri64(RAX, 0);
        buf.mov_store64(RBX, vslot(rd) + 8, RAX);
    }
    proof {
        assert(buf@ =~= start + ld1r_bytes(rd, rn, esize, q));
    }
}

/// The all-ones mask of an `esize`-byte element (1 to 8 bytes).
pub open spec fn vsh_mask(esize: u8) -> u64 {
    sat_full(esize)
}

/// `shl r, k; sar r, k`: the sign extension of the low `64 - k` bits.
pub open spec fn sx_pair_bytes(r: u8, k: u8) -> Seq<u8> {
    enc_shift_ri8(4, r, k) + enc_shift_ri8(7, r, k)
}

/// The count in RCX sign-extended from the element: 8 bytes as it is, 4
/// by `movsxd`, 2 and any other size by a shift pair.
pub open spec fn vsh_count_sx_bytes(esize: u8) -> Seq<u8> {
    if esize == 8 {
        Seq::empty()
    } else if esize == 4 {
        sxd(RCX)
    } else if esize == 2 {
        sx_pair_bytes(RCX, 48)
    } else {
        sx_pair_bytes(RCX, 56)
    }
}

/// The value in RAX sign-extended for a signed right shift: 4-, 2- and
/// 1-byte elements (`signed`), nothing otherwise.
pub open spec fn vsh_value_sx_bytes(esize: u8, signed: bool) -> Seq<u8> {
    if signed && esize == 4 {
        sxd(RAX)
    } else if signed && esize == 2 {
        sx_pair_bytes(RAX, 48)
    } else if signed && esize == 1 {
        sx_pair_bytes(RAX, 56)
    } else {
        Seq::empty()
    }
}

/// The rounding bias `1 << (k - 1)` added to RAX (`rounding`), `k` in RCX.
pub open spec fn vsh_round_bytes(rounding: bool) -> Seq<u8> {
    if rounding {
        enc_mov_ri64(RDX, 1) + enc_shift_cl(4, RDX) + enc_shift_ri8(5, RDX, 1) + enc_binop(0x01, RAX, RDX)
    } else {
        Seq::empty()
    }
}

/// RAX masked to the element (RDX holding the mask).
pub open spec fn vsh_and_bytes(esize: u8) -> Seq<u8> {
    enc_mov_ri64(RDX, vsh_mask(esize)) + enc_binop(0x21, RAX, RDX)
}

/// The result of a right shift by the element width or more: 0, or for a
/// signed shift the sign fill (`jns` to the zero).
pub open spec fn vsh_tail_bytes(esize: u8, signed: bool) -> Seq<u8> {
    if signed {
        enc_binop(0x85, RAX, RAX) + jcc_d(0x89, 15) + enc_mov_ri64(RAX, vsh_mask(esize)) + jmp_d(10) + enc_mov_ri64(RAX, 0)
    } else {
        enc_mov_ri64(RAX, 0)
    }
}

/// The right-shift path of SSHL/USHL/SRSHL/URSHL (a negative count): the
/// magnitude into RCX, the value sign-extended, then for elements below 8
/// bytes a magnitude from the width on going to `tail`, else the rounded
/// shift masked and a `jmp` over `tail`; for 8-byte elements the rounded
/// `sar`.
pub open spec fn vsh_right_bytes(esize: u8, signed: bool, rounding: bool) -> Seq<u8> {
    if esize < 8 {
        let tail = vsh_tail_bytes(esize, signed);
        enc_grp3(3, RCX) + vsh_value_sx_bytes(esize, signed) + enc_ari_imm(7, RCX, (8 * esize) as u32) + jcc_d(
            0x83,
            (vsh_round_bytes(rounding).len() + 21) as u32,
        ) + vsh_round_bytes(rounding) + enc_shift_cl(if signed { 7 } else { 5 }, RAX) + vsh_and_bytes(esize) + jmp_d(
            tail.len() as u32,
        ) + tail
    } else {
        enc_grp3(3, RCX) + vsh_round_bytes(rounding) + enc_shift_cl(7, RAX)
    }
}

/// The left-shift path (a count of 0 or more), `rl` the length of the
/// right-shift path that follows: for elements below 8 bytes a count from
/// the width on gives 0, else the shift masked; both `jmp` past the right
/// path. For 8-byte elements the plain `shl`.
pub open spec fn vsh_left_bytes(esize: u8, rl: nat) -> Seq<u8> {
    if esize < 8 {
        enc_ari_imm(7, RCX, (8 * esize) as u32) + jcc_d(0x83, 21) + enc_shift_cl(4, RAX) + vsh_and_bytes(esize) + jmp_d(
            (15 + rl) as u32,
        ) + enc_mov_ri64(RAX, 0) + jmp_d(rl as u32)
    } else {
        enc_shift_cl(4, RAX) + jmp_d(rl as u32)
    }
}

/// Lane `i` of SSHL/USHL/SRSHL/URSHL (`signed_`, `rounding`): the element and
/// the count of `rm` loaded zero-extended, the count sign-extended and
/// tested, `js` to the right path, the left path, the right path, the
/// result stored.
pub open spec fn vshift_lane_bytes(rd: u8, rn: u8, rm: u8, esize: u8, signed: bool, rounding: bool, i: int) -> Seq<u8> {
    let right = vsh_right_bytes(esize, signed, rounding);
    let left = vsh_left_bytes(esize, right.len());
    xload_bytes(RAX, lane_off(rn, i * esize), esize, false) + xload_bytes(RCX, lane_off(rm, i * esize), esize, false)
        + vsh_count_sx_bytes(esize) + enc_binop(0x85, RCX, RCX) + jcc_d(0x88, left.len() as u32) + left + right
        + el_store_bytes(esize, lane_off(rd, i * esize), RAX)
}

/// The first `n` lanes of the variable shift.
pub open spec fn vshift_lanes_bytes(rd: u8, rn: u8, rm: u8, esize: u8, signed: bool, rounding: bool, n: nat) -> Seq<u8>
    decreases n,
{
    if n == 0 {
        Seq::empty()
    } else {
        vshift_lanes_bytes(rd, rn, rm, esize, signed, rounding, (n - 1) as nat) + vshift_lane_bytes(
            rd,
            rn,
            rm,
            esize,
            signed,
            rounding,
            n - 1,
        )
    }
}

#[verifier::spinoff_prover]
fn sx_pair(buf: &mut CodeBuf, r: u8, k: u8)
    ensures
        final(buf)@ == old(buf)@ + sx_pair_bytes(r, k),
{
    buf.shl_ri8(r, k);
    buf.sar_ri8(r, k);
}

#[verifier::spinoff_prover]
fn vsh_round(buf: &mut CodeBuf, rounding: bool)
    ensures
        final(buf)@ == old(buf)@ + vsh_round_bytes(rounding),
{
    let ghost start = buf@;
    if rounding {
        buf.mov_ri64(RDX, 1);
        buf.shl_cl64(RDX);
        buf.shr_ri8(RDX, 1);
        buf.add_rr64(RAX, RDX);
    }
    proof {
        assert(buf@ =~= start + vsh_round_bytes(rounding));
    }
}

#[verifier::spinoff_prover]
fn vsh_and(buf: &mut CodeBuf, esize: u8)
    requires
        1 <= esize <= 8,
    ensures
        final(buf)@ == old(buf)@ + vsh_and_bytes(esize),
{
    let (full, _, _) = sat_bounds(esize);
    buf.mov_ri64(RDX, full);
    buf.and_rr64(RAX, RDX);
}

#[verifier::spinoff_prover]
#[verifier::rlimit(40)]
fn vsh_right(buf: &mut CodeBuf, esize: u8, signed: bool, rounding: bool)
    requires
        1 <= esize <= 8,
    ensures
        final(buf)@ == old(buf)@ + vsh_right_bytes(esize, signed, rounding),
{
    let ghost start = buf@;
    buf.neg_r64(RCX);
    if esize < 8 {
        if signed && esize == 4 {
            buf.movsxd_r64_r32(RAX, RAX);
        } else if signed && esize == 2 {
            sx_pair(buf, RAX, 48);
        } else if signed && esize == 1 {
            sx_pair(buf, RAX, 56);
        }
        let ghost p1 = buf@;
        let mut tail = CodeBuf::new();
        let (full, _, _) = sat_bounds(esize);
        if signed {
            tail.test_rr64(RAX, RAX);
            jcc_to(&mut tail, 0x89, 15);
            tail.mov_ri64(RAX, full);
            jmp_to(&mut tail, 10);
            tail.mov_ri64(RAX, 0);
        } else {
            tail.mov_ri64(RAX, 0);
        }
        proof {
            assert(tail@ =~= vsh_tail_bytes(esize, signed));
            assert(vsh_round_bytes(rounding).len() == if rounding { 20nat } else { 0nat });
        }
        compare_imm(buf, RCX, 8 * (esize as u32));
        jcc_to(buf, 0x83, if rounding { 41 } else { 21 });
        vsh_round(buf, rounding);
        if signed {
            buf.sar_cl64(RAX);
        } else {
            buf.shr_cl64(RAX);
        }
        vsh_and(buf, esize);
        jmp_to(buf, tail.len() as u32);
        append(buf, &tail);
        proof {
            assert(buf@ =~= start + vsh_right_bytes(esize, signed, rounding));
        }
    } else {
        vsh_round(buf, rounding);
        buf.sar_cl64(RAX);
        proof {
            assert(buf@ =~= start + vsh_right_bytes(esize, signed, rounding));
        }
    }
}

proof fn lemma_vsh_right_len(esize: u8, signed: bool, rounding: bool)
    ensures
        vsh_right_bytes(esize, signed, rounding).len() < 200,
{
    assert(vsh_round_bytes(rounding).len() <= 20);
    assert(vsh_tail_bytes(esize, signed).len() <= 40);
    assert(vsh_value_sx_bytes(esize, signed).len() <= 8);
}

#[verifier::spinoff_prover]
fn vsh_left(buf: &mut CodeBuf, esize: u8, rl: usize)
    requires
        1 <= esize <= 8,
        rl < 200,
    ensures
        final(buf)@ == old(buf)@ + vsh_left_bytes(esize, rl as nat),
{
    let ghost start = buf@;
    if esize < 8 {
        compare_imm(buf, RCX, 8 * (esize as u32));
        jcc_to(buf, 0x83, 21);
        buf.shl_cl64(RAX);
        vsh_and(buf, esize);
        jmp_to(buf, (15 + rl) as u32);
        buf.mov_ri64(RAX, 0);
        jmp_to(buf, rl as u32);
    } else {
        buf.shl_cl64(RAX);
        jmp_to(buf, rl as u32);
    }
    proof {
        assert(buf@ =~= start + vsh_left_bytes(esize, rl as nat));
    }
}

#[verifier::spinoff_prover]
fn vsh_operands(buf: &mut CodeBuf, rn: u8, rm: u8, esize: u8, i: u8)
    requires
        i < 16,
    ensures
        final(buf)@ == old(buf)@ + xload_bytes(RAX, lane_off(rn, i * esize), esize, false) + xload_bytes(
            RCX,
            lane_off(rm, i * esize),
            esize,
            false,
        ) + vsh_count_sx_bytes(esize) + enc_binop(0x85, RCX, RCX),
{
    let ghost start = buf@;
    let e = elem_off(i, esize);
    xload(buf, RAX, vslot(rn) + e, esize, false);
    xload(buf, RCX, vslot(rm) + e, esize, false);
    let ghost p1 = buf@;
    if esize == 4 {
        buf.movsxd_r64_r32(RCX, RCX);
    } else if esize == 2 {
        sx_pair(buf, RCX, 48);
    } else if esize != 8 {
        sx_pair(buf, RCX, 56);
    }
    proof {
        assert(buf@ =~= p1 + vsh_count_sx_bytes(esize));
    }
    buf.test_rr64(RCX, RCX);
    proof {
        assert(buf@ =~= start + xload_bytes(RAX, lane_off(rn, i * esize), esize, false) + xload_bytes(
            RCX,
            lane_off(rm, i * esize),
            esize,
            false,
        ) + vsh_count_sx_bytes(esize) + enc_binop(0x85, RCX, RCX));
    }
}

#[verifier::spinoff_prover]
#[verifier::rlimit(40)]
fn vshift_lane(buf: &mut CodeBuf, rd: u8, rn: u8, rm: u8, esize: u8, signed: bool, rounding: bool, i: u8)
    requires
        1 <= esize <= 8,
        i < 16,
    ensures
        final(buf)@ == old(buf)@ + vshift_lane_bytes(rd, rn, rm, esize, signed, rounding, i as int),
{
    let ghost start = buf@;
    let mut right = CodeBuf::new();
    vsh_right(&mut right, esize, signed, rounding);
    proof {
        lemma_vsh_right_len(esize, signed, rounding);
    }
    let mut left = CodeBuf::new();
    vsh_left(&mut left, esize, right.len());
    vsh_operands(buf, rn, rm, esize, i);
    jcc_to(buf, 0x88, left.len() as u32);
    append(buf, &left);
    append(buf, &right);
    el_store(buf, esize, vslot(rd) + elem_off(i, esize), RAX);
    proof {
        assert(buf@ =~= start + vshift_lane_bytes(rd, rn, rm, esize, signed, rounding, i as int));
    }
}

/// SSHL/USHL/SRSHL/URSHL of `esize`-byte lanes (1 to 8 bytes).
pub open spec fn vshift_bytes(rd: u8, rn: u8, rm: u8, esize: u8, signed: bool, q: bool, rounding: bool) -> Seq<u8> {
    vshift_lanes_bytes(rd, rn, rm, esize, signed, rounding, lane_count(esize, q))
}

pub(crate) fn translate_vshift(buf: &mut CodeBuf, rd: u8, rn: u8, rm: u8, esize: u8, signed: bool, q: bool, rounding: bool)
    requires
        sat_add_wf(esize),
    ensures
        final(buf)@ == old(buf)@ + vshift_bytes(rd, rn, rm, esize, signed, q, rounding),
{
    let ghost start = buf@;
    let lanes = lanes_of(esize, q);
    let mut i: u8 = 0;
    while i < lanes
        invariant
            i <= lanes,
            lanes <= 16,
            sat_add_wf(esize),
            buf@ == start + vshift_lanes_bytes(rd, rn, rm, esize, signed, rounding, i as nat),
        decreases lanes - i,
    {
        vshift_lane(buf, rd, rn, rm, esize, signed, rounding, i);
        proof {
            assert(buf@ =~= start + vshift_lanes_bytes(rd, rn, rm, esize, signed, rounding, (i + 1) as nat));
        }
        i = i + 1;
    }
}

} // verus!
