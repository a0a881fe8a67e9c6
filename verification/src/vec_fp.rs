//! Vector floating-point forms (single, double and half precision),
//! lowered lane by lane through XMM0..XMM3: arithmetic, fused multiply-add,
//! compares, rounding, reciprocal estimates and conversions.
use vstd::prelude::*;
use crate::fp_ops::{jcc_d, jcc_to, vslot};
use crate::machine::prog_bytes;
use crate::simd_lanes::{lane_count, lanes_of, sxd};
use crate::simd_ops::{elem_off, lane_off};
use crate::translate::{permute_off, permute_prog, permute_source, vslot_of};
use crate::x86::{
    enc_binop, enc_cmov_rr64, enc_cvtsd2si, enc_cvtsi2, enc_grp3, enc_mov_load32, enc_mov_load64, enc_mov_ri64,
    enc_mov_store16, enc_mov_store32, enc_mov_store64, enc_movq_load, enc_movq_store, enc_movsx_word_mem,
    enc_movzx_r32_r8, enc_movzx_word_mem, enc_roundsd, enc_setcc_rm8, enc_sse_rex_rr, enc_sse_rr, modrm_byte,
    rex_byte, CodeBuf, RAX, RBX, RCX, RDX,
};

verus! {

/// A 32-bit element at `off` into XMM `x` through EAX.
pub open spec fn s_in_bytes(x: u8, off: i32) -> Seq<u8> {
    enc_mov_load32(RAX, RBX, off) + enc_sse_rr(0x66, 0x6E, x, RAX)
}

/// The low 32 bits of XMM `x` stored at `off` through EAX.
pub open spec fn s_out_bytes(x: u8, off: i32) -> Seq<u8> {
    enc_sse_rr(0x66, 0x7E, x, RAX) + enc_mov_store32(RBX, off, RAX)
}

/// `vcvtph2ps xmm_x, xmm_x` (F16C) for `x` below 3.
pub open spec fn h_cvt_bytes(x: u8) -> Seq<u8> {
    seq![0xC4u8, 0xE2, 0x79, 0x13, (0xC0 + 9 * x) as u8]
}

/// `vcvtps2ph xmm0, xmm0, 0` (F16C).
pub open spec fn ps2ph_bytes() -> Seq<u8> {
    seq![0xC4u8, 0xE3, 0x79, 0x1D, 0xC0, 0x00]
}

/// `movq r, xmm_x` (`to_gp`) or `movq xmm_x, r`.
pub open spec fn gx_bytes(to_gp: bool, x: u8, r: u8) -> Seq<u8> {
    seq![0x66u8, rex_byte(true, x, 0, r), 0x0Fu8, if to_gp { 0x7Eu8 } else { 0x6Eu8 }, modrm_byte(3, x & 7, r & 7)]
}

/// `comiss xmm_a, xmm_b`.
pub open spec fn comiss_bytes(a: u8, b: u8) -> Seq<u8> {
    seq![rex_byte(false, a, 0, b), 0x0Fu8, 0x2Fu8, modrm_byte(3, a & 7, b & 7)]
}

/// The compare result as a mask in RAX: `setcc al`, `movzx eax, al`, `neg rax`.
pub open spec fn mask_out_bytes(cc: u8) -> Seq<u8> {
    enc_setcc_rm8(cc, RAX) + enc_movzx_r32_r8(RAX, RAX) + enc_grp3(3, RAX)
}

#[verifier::spinoff_prover]
fn s_in(buf: &mut CodeBuf, x: u8, off: i32)
    ensures
        final(buf)@ == old(buf)@ + s_in_bytes(x, off),
{
    buf.mov_load32(RAX, RBX, off);
    buf.movd_xmm_r32(x, RAX);
}

#[verifier::spinoff_prover]
fn s_out(buf: &mut CodeBuf, x: u8, off: i32)
    ensures
        final(buf)@ == old(buf)@ + s_out_bytes(x, off),
{
    buf.movd_r32_xmm(RAX, x);
    buf.mov_store32(RBX, off, RAX);
}

#[verifier::spinoff_prover]
fn h_cvt(buf: &mut CodeBuf, x: u8)
    requires
        x < 3,
    ensures
        final(buf)@ == old(buf)@ + h_cvt_bytes(x),
{
    let ghost start = buf@;
    buf.b(0xC4);
    buf.b(0xE2);
    buf.b(0x79);
    buf.b(0x13);
    buf.b(0xC0 + 9 * x);
    proof {
        assert(buf@ =~= start + h_cvt_bytes(x));
    }
}

#[verifier::spinoff_prover]
fn ps2ph(buf: &mut CodeBuf)
    ensures
        final(buf)@ == old(buf)@ + ps2ph_bytes(),
{
    let ghost start = buf@;
    buf.b(0xC4);
    buf.b(0xE3);
    buf.b(0x79);
    buf.b(0x1D);
    buf.b(0xC0);
    buf.b(0x00);
    proof {
        assert(buf@ =~= start + ps2ph_bytes());
    }
}

/// Three or four fixed bytes.
pub open spec fn raw_bytes(a: u8, b: u8, c: u8, d: Option<u8>) -> Seq<u8> {
    seq![a, b, c] + match d {
        Some(v) => seq![v],
        None => Seq::empty(),
    }
}

#[verifier::spinoff_prover]
fn raw(buf: &mut CodeBuf, a: u8, b: u8, c: u8, d: Option<u8>)
    ensures
        final(buf)@ == old(buf)@ + raw_bytes(a, b, c, d),
{
    let ghost start = buf@;
    buf.b(a);
    buf.b(b);
    buf.b(c);
    match d {
        Some(v) => buf.b(v),
        None => {},
    }
    proof {
        assert(buf@ =~= start + raw_bytes(a, b, c, d));
    }
}

#[verifier::spinoff_prover]
fn mask_out(buf: &mut CodeBuf, cc: u8)
    ensures
        final(buf)@ == old(buf)@ + mask_out_bytes(cc),
{
    buf.setcc_rm8(cc, RAX);
    buf.movzx_r32_r8(RAX, RAX);
    buf.neg_r64(RAX);
}

/// Lane `i` of FMLA/FMLS (`sub`) of doubles (`el64`) or singles: `rd += rn * rm` (or `-=`), the product in XMM1.
pub open spec fn fmla_lane_bytes(rd: u8, rn: u8, rm: u8, el64: bool, sub: bool, i: int) -> Seq<u8> {
    if el64 {
        enc_movq_load(0, RBX, lane_off(rn, 8 * i)) + enc_movq_load(1, RBX, lane_off(rm, 8 * i)) + enc_sse_rr(0xF2, 0x59, 1, 0)
            + enc_movq_load(0, RBX, lane_off(rd, 8 * i)) + enc_sse_rr(0xF2, if sub { 0x5C } else { 0x58 }, 0, 1)
            + enc_movq_store(RBX, lane_off(rd, 8 * i), 0)
    } else {
        s_in_bytes(0, lane_off(rn, 4 * i)) + s_in_bytes(1, lane_off(rm, 4 * i)) + enc_sse_rr(0xF3, 0x59, 1, 0)
            + s_in_bytes(0, lane_off(rd, 4 * i)) + enc_sse_rr(0xF3, if sub { 0x5C } else { 0x58 }, 0, 1)
            + s_out_bytes(0, lane_off(rd, 4 * i))
    }
}

/// The first `n` lanes of `fmla_lane_bytes`.
pub open spec fn fmla_lanes_bytes(rd: u8, rn: u8, rm: u8, el64: bool, sub: bool, n: nat) -> Seq<u8>
    decreases n,
{
    if n == 0 {
        Seq::empty()
    } else {
        fmla_lanes_bytes(rd, rn, rm, el64, sub, (n - 1) as nat) + fmla_lane_bytes(rd, rn, rm, el64, sub, n - 1)
    }
}

#[verifier::spinoff_prover]
#[verifier::rlimit(30)]
fn fmla_lane(buf: &mut CodeBuf, rd: u8, rn: u8, rm: u8, el64: bool, sub: bool, i: u8)
    requires
        i < 16,
    ensures
        final(buf)@ == old(buf)@ + fmla_lane_bytes(rd, rn, rm, el64, sub, i as int),
{
    let ghost start = buf@;
    let o8: i32 = 8 * (i as i32);
    let o4: i32 = 4 * (i as i32);
    if el64 {
        buf.movq_load(0, RBX, vslot(rn) + o8);
        buf.movq_load(1, RBX, vslot(rm) + o8);
        buf.mulsd(1, 0);
        buf.movq_load(0, RBX, vslot(rd) + o8);
        if sub {
            buf.subsd(0, 1);
        } else {
            buf.addsd(0, 1);
        }
        buf.movq_store(RBX, vslot(rd) + o8, 0);
    } else {
        s_in(buf, 0, vslot(rn) + o4);
        s_in(buf, 1, vslot(rm) + o4);
        buf.mulss(1, 0);
        s_in(buf, 0, vslot(rd) + o4);
        if sub {
            buf.subss(0, 1);
        } else {
            buf.addss(0, 1);
        }
        s_out(buf, 0, vslot(rd) + o4);
    }
    proof {
        assert(buf@ =~= start + fmla_lane_bytes(rd, rn, rm, el64, sub, i as int));
    }
}

#[verifier::spinoff_prover]
fn fmla_lanes(buf: &mut CodeBuf, rd: u8, rn: u8, rm: u8, el64: bool, sub: bool, lanes: u8)
    requires
        lanes <= 16,
    ensures
        final(buf)@ == old(buf)@ + fmla_lanes_bytes(rd, rn, rm, el64, sub, lanes as nat),
{
    let ghost start = buf@;
    let mut i: u8 = 0;
    while i < lanes
        invariant
            i <= lanes,
            lanes <= 16,
            buf@ == start + fmla_lanes_bytes(rd, rn, rm, el64, sub, i as nat),
        decreases lanes - i,
    {
        fmla_lane(buf, rd, rn, rm, el64, sub, i);
        proof {
            assert(buf@ =~= start + fmla_lanes_bytes(rd, rn, rm, el64, sub, (i + 1) as nat));
        }
        i = i + 1;
    }
}

/// The lane count of FMLA/FMLS: 2 doubles, else 4 or 2 singles.
pub open spec fn fmla_count(el64: bool, q: bool) -> nat {
    if el64 {
        2
    } else if q {
        4
    } else {
        2
    }
}

/// FMLA/FMLS (vector).
pub open spec fn fmla_bytes(rd: u8, rn: u8, rm: u8, el64: bool, q: bool, sub: bool) -> Seq<u8> {
    fmla_lanes_bytes(rd, rn, rm, el64, sub, fmla_count(el64, q))
}

pub(crate) fn translate_fmla(buf: &mut CodeBuf, rd: u8, rn: u8, rm: u8, el64: bool, q: bool, sub: bool)
    ensures
        final(buf)@ == old(buf)@ + fmla_bytes(rd, rn, rm, el64, q, sub),
{
    let lanes: u8 = if el64 {
        2
    } else if q {
        4
    } else {
        2
    };
    fmla_lanes(buf, rd, rn, rm, el64, sub, lanes);
}

/// Lane `i` of FMLA/FMLS by element: `rd += rn * xmm2` (or `-=`).
pub open spec fn fmla_el_lane_bytes(rd: u8, rn: u8, el64: bool, sub: bool, i: int) -> Seq<u8> {
    if el64 {
        enc_movq_load(0, RBX, lane_off(rd, 8 * i)) + enc_movq_load(1, RBX, lane_off(rn, 8 * i)) + enc_sse_rr(0xF2, 0x59, 1, 2)
            + enc_sse_rr(0xF2, if sub { 0x5C } else { 0x58 }, 0, 1) + enc_movq_store(RBX, lane_off(rd, 8 * i), 0)
    } else {
        s_in_bytes(0, lane_off(rd, 4 * i)) + s_in_bytes(1, lane_off(rn, 4 * i)) + enc_sse_rr(0xF3, 0x59, 1, 2)
            + enc_sse_rr(0xF3, if sub { 0x5C } else { 0x58 }, 0, 1) + s_out_bytes(0, lane_off(rd, 4 * i))
    }
}

/// The first `n` lanes of `fmla_el_lane_bytes`.
pub open spec fn fmla_el_lanes_bytes(rd: u8, rn: u8, el64: bool, sub: bool, n: nat) -> Seq<u8>
    decreases n,
{
    if n == 0 {
        Seq::empty()
    } else {
        fmla_el_lanes_bytes(rd, rn, el64, sub, (n - 1) as nat) + fmla_el_lane_bytes(rd, rn, el64, sub, n - 1)
    }
}

#[verifier::spinoff_prover]
#[verifier::rlimit(30)]
fn fmla_el_lane(buf: &mut CodeBuf, rd: u8, rn: u8, el64: bool, sub: bool, i: u8)
    requires
        i < 16,
    ensures
        final(buf)@ == old(buf)@ + fmla_el_lane_bytes(rd, rn, el64, sub, i as int),
{
    let ghost start = buf@;
    let o8: i32 = 8 * (i as i32);
    let o4: i32 = 4 * (i as i32);
    if el64 {
        buf.movq_load(0, RBX, vslot(rd) + o8);
        buf.movq_load(1, RBX, vslot(rn) + o8);
        buf.mulsd(1, 2);
        if sub {
            buf.subsd(0, 1);
        } else {
            buf.addsd(0, 1);
        }
        buf.movq_store(RBX, vslot(rd) + o8, 0);
    } else {
        s_in(buf, 0, vslot(rd) + o4);
        s_in(buf, 1, vslot(rn) + o4);
        buf.mulss(1, 2);
        if sub {
            buf.subss(0, 1);
        } else {
            buf.addss(0, 1);
        }
        s_out(buf, 0, vslot(rd) + o4);
    }
    proof {
        assert(buf@ =~= start + fmla_el_lane_bytes(rd, rn, el64, sub, i as int));
    }
}

#[verifier::spinoff_prover]
fn fmla_el_lanes(buf: &mut CodeBuf, rd: u8, rn: u8, el64: bool, sub: bool, lanes: u8)
    requires
        lanes <= 16,
    ensures
        final(buf)@ == old(buf)@ + fmla_el_lanes_bytes(rd, rn, el64, sub, lanes as nat),
{
    let ghost start = buf@;
    let mut i: u8 = 0;
    while i < lanes
        invariant
            i <= lanes,
            lanes <= 16,
            buf@ == start + fmla_el_lanes_bytes(rd, rn, el64, sub, i as nat),
        decreases lanes - i,
    {
        fmla_el_lane(buf, rd, rn, el64, sub, i);
        proof {
            assert(buf@ =~= start + fmla_el_lanes_bytes(rd, rn, el64, sub, (i + 1) as nat));
        }
        i = i + 1;
    }
}

/// FMLA/FMLS by element: element `idx` of `vlm` into XMM2, then the lanes.
pub open spec fn fmla_el_bytes(rd: u8, rn: u8, vlm: u8, idx: u8, el64: bool, q: bool, sub: bool) -> Seq<u8> {
    (if el64 {
        enc_movq_load(2, RBX, lane_off(vlm, idx * 8))
    } else {
        s_in_bytes(2, lane_off(vlm, idx * 4))
    }) + fmla_el_lanes_bytes(rd, rn, el64, sub, fmla_count(el64, q))
}

pub(crate) fn translate_fmla_el(buf: &mut CodeBuf, rd: u8, rn: u8, vlm: u8, idx: u8, el64: bool, q: bool, sub: bool)
    ensures
        final(buf)@ == old(buf)@ + fmla_el_bytes(rd, rn, vlm, idx, el64, q, sub),
{
    let ghost start = buf@;
    if el64 {
        buf.movq_load(2, RBX, vslot(vlm) + (idx as i32) * 8);
    } else {
        s_in(buf, 2, vslot(vlm) + (idx as i32) * 4);
    }
    let lanes: u8 = if el64 {
        2
    } else if q {
        4
    } else {
        2
    };
    fmla_el_lanes(buf, rd, rn, el64, sub, lanes);
    proof {
        assert(buf@ =~= start + fmla_el_bytes(rd, rn, vlm, idx, el64, q, sub));
    }
}

/// Lane `i` of FCMEQ/FCMGT/FCMGE: `comisd` or `comiss` of the elements, the flag condition `cc` as a mask, stored as 8 or 4 bytes.
pub open spec fn fp_rel_lane_bytes(rd: u8, rn: u8, rm: u8, esize: u8, cc: u8, i: int) -> Seq<u8> {
    let o = lane_off(rn, i * esize);
    let p = lane_off(rm, i * esize);
    let d = lane_off(rd, i * esize);
    (if esize == 8 {
        enc_movq_load(0, RBX, o) + enc_movq_load(1, RBX, p) + enc_sse_rex_rr(0x66, 0x2F, 0, 1)
    } else {
        s_in_bytes(0, o) + s_in_bytes(1, p) + comiss_bytes(0, 1)
    }) + mask_out_bytes(cc) + if esize == 8 {
        enc_mov_store64(RBX, d, RAX)
    } else {
        enc_mov_store32(RBX, d, RAX)
    }
}

/// The first `n` lanes of `fp_rel_lane_bytes`.
pub open spec fn fp_rel_lanes_bytes(rd: u8, rn: u8, rm: u8, esize: u8, cc: u8, n: nat) -> Seq<u8>
    decreases n,
{
    if n == 0 {
        Seq::empty()
    } else {
        fp_rel_lanes_bytes(rd, rn, rm, esize, cc, (n - 1) as nat) + fp_rel_lane_bytes(rd, rn, rm, esize, cc, n - 1)
    }
}

#[verifier::spinoff_prover]
#[verifier::rlimit(30)]
fn fp_rel_lane(buf: &mut CodeBuf, rd: u8, rn: u8, rm: u8, esize: u8, cc: u8, i: u8)
    requires
        i < 16,
    ensures
        final(buf)@ == old(buf)@ + fp_rel_lane_bytes(rd, rn, rm, esize, cc, i as int),
{
    let ghost start = buf@;
    let e = elem_off(i, esize);
    if esize == 8 {
        buf.movq_load(0, RBX, vslot(rn) + e);
        buf.movq_load(1, RBX, vslot(rm) + e);
        buf.comisd(0, 1);
    } else {
        s_in(buf, 0, vslot(rn) + e);
        s_in(buf, 1, vslot(rm) + e);
        buf.comiss(0, 1);
    }
    mask_out(buf, cc);
    if esize == 8 {
        buf.mov_store64(RBX, vslot(rd) + e, RAX);
    } else {
        buf.mov_store32(RBX, vslot(rd) + e, RAX);
    }
    proof {
        assert(buf@ =~= start + fp_rel_lane_bytes(rd, rn, rm, esize, cc, i as int));
    }
}

#[verifier::spinoff_prover]
fn fp_rel_lanes(buf: &mut CodeBuf, rd: u8, rn: u8, rm: u8, esize: u8, cc: u8, lanes: u8)
    requires
        lanes <= 16,
    ensures
        final(buf)@ == old(buf)@ + fp_rel_lanes_bytes(rd, rn, rm, esize, cc, lanes as nat),
{
    let ghost start = buf@;
    let mut i: u8 = 0;
    while i < lanes
        invariant
            i <= lanes,
            lanes <= 16,
            buf@ == start + fp_rel_lanes_bytes(rd, rn, rm, esize, cc, i as nat),
        decreases lanes - i,
    {
        fp_rel_lane(buf, rd, rn, rm, esize, cc, i);
        proof {
            assert(buf@ =~= start + fp_rel_lanes_bytes(rd, rn, rm, esize, cc, (i + 1) as nat));
        }
        i = i + 1;
    }
}

/// The `setcc` condition of FCMEQ (`op` 0, equal), FCMGT (1, above) and
/// FCMGE (any other, above or equal).
pub open spec fn fp_rel_cc(op: u8) -> u8 {
    if op == 0 {
        4
    } else if op == 1 {
        7
    } else {
        3
    }
}

/// FCMEQ/FCMGT/FCMGE (register) of `esize`-byte lanes.
pub open spec fn vec_fp_rel_bytes(rd: u8, rn: u8, rm: u8, esize: u8, op: u8, q: bool) -> Seq<u8> {
    fp_rel_lanes_bytes(rd, rn, rm, esize, fp_rel_cc(op), lane_count(esize, q))
}

pub(crate) fn translate_vec_fp_rel(buf: &mut CodeBuf, rd: u8, rn: u8, rm: u8, esize: u8, op: u8, q: bool)
    requires
        esize != 0,
    ensures
        final(buf)@ == old(buf)@ + vec_fp_rel_bytes(rd, rn, rm, esize, op, q),
{
    let cc: u8 = if op == 0 {
        4
    } else if op == 1 {
        7
    } else {
        3
    };
    let lanes = lanes_of(esize, q);
    fp_rel_lanes(buf, rd, rn, rm, esize, cc, lanes);
}

/// Lane `i` of an FP compare against +0.0 (XMM1 cleared): `comisd` or `comiss`, the condition `cc` as a mask, stored as 8 or 4 bytes.
pub open spec fn fp_zero_lane_bytes(rd: u8, rn: u8, esize: u8, cc: u8, i: int) -> Seq<u8> {
    let o = lane_off(rn, i * esize);
    let d = lane_off(rd, i * esize);
    enc_sse_rr(0x66, 0xEF, 1, 1) + (if esize == 8 {
        enc_movq_load(0, RBX, o) + enc_sse_rex_rr(0x66, 0x2F, 0, 1)
    } else {
        s_in_bytes(0, o) + comiss_bytes(0, 1)
    }) + mask_out_bytes(cc) + if esize == 8 {
        enc_mov_store64(RBX, d, RAX)
    } else {
        enc_mov_store32(RBX, d, RAX)
    }
}

/// The first `n` lanes of `fp_zero_lane_bytes`.
pub open spec fn fp_zero_lanes_bytes(rd: u8, rn: u8, esize: u8, cc: u8, n: nat) -> Seq<u8>
    decreases n,
{
    if n == 0 {
        Seq::empty()
    } else {
        fp_zero_lanes_bytes(rd, rn, esize, cc, (n - 1) as nat) + fp_zero_lane_bytes(rd, rn, esize, cc, n - 1)
    }
}

#[verifier::spinoff_prover]
#[verifier::rlimit(30)]
fn fp_zero_lane(buf: &mut CodeBuf, rd: u8, rn: u8, esize: u8, cc: u8, i: u8)
    requires
        i < 16,
    ensures
        final(buf)@ == old(buf)@ + fp_zero_lane_bytes(rd, rn, esize, cc, i as int),
{
    let ghost start = buf@;
    let e = elem_off(i, esize);
    buf.pxor_xmm(1, 1);
    if esize == 8 {
        buf.movq_load(0, RBX, vslot(rn) + e);
        buf.comisd(0, 1);
    } else {
        s_in(buf, 0, vslot(rn) + e);
        buf.comiss(0, 1);
    }
    mask_out(buf, cc);
    if esize == 8 {
        buf.mov_store64(RBX, vslot(rd) + e, RAX);
    } else {
        buf.mov_store32(RBX, vslot(rd) + e, RAX);
    }
    proof {
        assert(buf@ =~= start + fp_zero_lane_bytes(rd, rn, esize, cc, i as int));
    }
}

#[verifier::spinoff_prover]
fn fp_zero_lanes(buf: &mut CodeBuf, rd: u8, rn: u8, esize: u8, cc: u8, lanes: u8)
    requires
        lanes <= 16,
    ensures
        final(buf)@ == old(buf)@ + fp_zero_lanes_bytes(rd, rn, esize, cc, lanes as nat),
{
    let ghost start = buf@;
    let mut i: u8 = 0;
    while i < lanes
        invariant
            i <= lanes,
            lanes <= 16,
            buf@ == start + fp_zero_lanes_bytes(rd, rn, esize, cc, i as nat),
        decreases lanes - i,
    {
        fp_zero_lane(buf, rd, rn, esize, cc, i);
        proof {
            assert(buf@ =~= start + fp_zero_lanes_bytes(rd, rn, esize, cc, (i + 1) as nat));
        }
        i = i + 1;
    }
}

/// The `setcc` condition of an FP compare against zero: equal (`op` 0),
/// above, above or equal, below, below or equal (any other).
pub open spec fn fp_zero_cc(op: u8) -> u8 {
    if op == 0 {
        4
    } else if op == 1 {
        7
    } else if op == 2 {
        3
    } else if op == 3 {
        2
    } else {
        6
    }
}

fn fp_zero_cc_of(op: u8) -> (cc: u8)
    ensures
        cc == fp_zero_cc(op),
{
    if op == 0 {
        4
    } else if op == 1 {
        7
    } else if op == 2 {
        3
    } else if op == 3 {
        2
    } else {
        6
    }
}

/// FCMEQ/FCMGT/FCMGE/FCMLT/FCMLE against zero of `esize`-byte lanes.
pub open spec fn vec_fp_zero_bytes(rd: u8, rn: u8, op: u8, esize: u8, q: bool) -> Seq<u8> {
    fp_zero_lanes_bytes(rd, rn, esize, fp_zero_cc(op), lane_count(esize, q))
}

pub(crate) fn translate_vec_fp_zero(buf: &mut CodeBuf, rd: u8, rn: u8, op: u8, esize: u8, q: bool)
    requires
        esize != 0,
    ensures
        final(buf)@ == old(buf)@ + vec_fp_zero_bytes(rd, rn, op, esize, q),
{
    let cc = fp_zero_cc_of(op);
    let lanes = lanes_of(esize, q);
    fp_zero_lanes(buf, rd, rn, esize, cc, lanes);
}

/// Output lane `i` of FADDP/FMAXP/FMINP (`add`, `min`): the adjacent pair of `rn` (lanes below `half`) or of `rm`, added or reduced in XMM0.
pub open spec fn fp_pair3_lane_bytes(rd: u8, rn: u8, rm: u8, add: bool, min: bool, half: u8, i: int) -> Seq<u8> {
    let base: int = if i < half { vslot_of(rn) as int } else { vslot_of(rm) as int };
    let j: int = if i < half { i } else { i - half };
    s_in_bytes(0, (base + 8 * j) as i32) + s_in_bytes(1, (base + 8 * j + 4) as i32) + (if add {
        enc_sse_rr(0xF3, 0x58, 0, 1)
    } else if min {
        enc_sse_rex_rr(0xF3, 0x5D, 0, 1)
    } else {
        enc_sse_rex_rr(0xF3, 0x5F, 0, 1)
    }) + s_out_bytes(0, lane_off(rd, 4 * i))
}

/// The first `n` lanes of `fp_pair3_lane_bytes`.
pub open spec fn fp_pair3_lanes_bytes(rd: u8, rn: u8, rm: u8, add: bool, min: bool, half: u8, n: nat) -> Seq<u8>
    decreases n,
{
    if n == 0 {
        Seq::empty()
    } else {
        fp_pair3_lanes_bytes(rd, rn, rm, add, min, half, (n - 1) as nat) + fp_pair3_lane_bytes(rd, rn, rm, add, min, half, n - 1)
    }
}

#[verifier::spinoff_prover]
#[verifier::rlimit(30)]
fn fp_pair3_lane(buf: &mut CodeBuf, rd: u8, rn: u8, rm: u8, add: bool, min: bool, half: u8, i: u8)
    requires
        i < 16,
        half <= 2,
    ensures
        final(buf)@ == old(buf)@ + fp_pair3_lane_bytes(rd, rn, rm, add, min, half, i as int),
{
    let ghost start = buf@;
    let base: i32 = if i < half { vslot(rn) } else { vslot(rm) };
    let j: u8 = if i < half { i } else { i - half };
    let o: i32 = base + 8 * (j as i32);
    s_in(buf, 0, o);
    s_in(buf, 1, o + 4);
    if add {
        buf.addss(0, 1);
    } else if min {
        buf.minss(0, 1);
    } else {
        buf.maxss(0, 1);
    }
    s_out(buf, 0, vslot(rd) + 4 * (i as i32));
    proof {
        assert(buf@ =~= start + fp_pair3_lane_bytes(rd, rn, rm, add, min, half, i as int));
    }
}

#[verifier::spinoff_prover]
fn fp_pair3_lanes(buf: &mut CodeBuf, rd: u8, rn: u8, rm: u8, add: bool, min: bool, half: u8, lanes: u8)
    requires
        lanes <= 16,
        half <= 2,
    ensures
        final(buf)@ == old(buf)@ + fp_pair3_lanes_bytes(rd, rn, rm, add, min, half, lanes as nat),
{
    let ghost start = buf@;
    let mut i: u8 = 0;
    while i < lanes
        invariant
            i <= lanes,
            lanes <= 16,
        half <= 2,
            buf@ == start + fp_pair3_lanes_bytes(rd, rn, rm, add, min, half, i as nat),
        decreases lanes - i,
    {
        fp_pair3_lane(buf, rd, rn, rm, add, min, half, i);
        proof {
            assert(buf@ =~= start + fp_pair3_lanes_bytes(rd, rn, rm, add, min, half, (i + 1) as nat));
        }
        i = i + 1;
    }
}

/// FADDP/FMAXP/FMINP (vector, singles): the pairs of `rn`, then of `rm`.
pub open spec fn fp_pair3_bytes(rd: u8, rn: u8, rm: u8, add: bool, min: bool, q: bool) -> Seq<u8> {
    let half: u8 = if q { 2 } else { 1 };
    fp_pair3_lanes_bytes(rd, rn, rm, add, min, half, 2 * half as nat)
}

pub(crate) fn translate_fp_pair3(buf: &mut CodeBuf, rd: u8, rn: u8, rm: u8, add: bool, min: bool, q: bool)
    ensures
        final(buf)@ == old(buf)@ + fp_pair3_bytes(rd, rn, rm, add, min, q),
{
    let half: u8 = if q { 2 } else { 1 };
    fp_pair3_lanes(buf, rd, rn, rm, add, min, half, 2 * half);
}

/// The operation of the two-double arithmetic `op`: FDIV, FMUL, FADD, FSUB,
/// FMAX (4, 6), FMIN (5, 7), FABD (8: the difference with its sign bit
/// cleared through RDX and XMM1).
pub open spec fn fp2d_op_bytes(op: u8) -> Seq<u8> {
    if op == 0 {
        enc_sse_rr(0xF2, 0x5E, 0, 1)
    } else if op == 1 {
        enc_sse_rr(0xF2, 0x59, 0, 1)
    } else if op == 2 {
        enc_sse_rr(0xF2, 0x58, 0, 1)
    } else if op == 3 {
        enc_sse_rr(0xF2, 0x5C, 0, 1)
    } else if op == 4 || op == 6 {
        enc_sse_rex_rr(0xF2, 0x5F, 0, 1)
    } else if op == 5 || op == 7 {
        enc_sse_rex_rr(0xF2, 0x5D, 0, 1)
    } else {
        enc_sse_rr(0xF2, 0x5C, 0, 1) + enc_mov_ri64(RDX, 0x7fff_ffff_ffff_ffff) + gx_bytes(false, 1, RDX)
            + enc_sse_rr(0x66, 0xDB, 0, 1)
    }
}

#[verifier::spinoff_prover]
fn fp2d_op(buf: &mut CodeBuf, op: u8)
    requires
        op <= 8,
    ensures
        final(buf)@ == old(buf)@ + fp2d_op_bytes(op),
{
    let ghost start = buf@;
    if op == 0 {
        buf.divsd(0, 1);
    } else if op == 1 {
        buf.mulsd(0, 1);
    } else if op == 2 {
        buf.addsd(0, 1);
    } else if op == 3 {
        buf.subsd(0, 1);
    } else if op == 4 || op == 6 {
        buf.maxsd(0, 1);
    } else if op == 5 || op == 7 {
        buf.minsd(0, 1);
    } else {
        buf.subsd(0, 1);
        buf.mov_ri64(RDX, 0x7fff_ffff_ffff_ffff);
        buf.movq_xmm_r64(1, RDX);
        buf.pand(0, 1);
    }
    proof {
        assert(buf@ =~= start + fp2d_op_bytes(op));
    }
}

/// The two doubles of lane `k` of `rn` and `rm` into XMM0 and XMM1 through
/// RDX.
pub open spec fn fp2d_in_bytes(rn: u8, rm: u8, k: int) -> Seq<u8> {
    enc_mov_load64(RDX, RBX, lane_off(rn, 8 * k)) + gx_bytes(false, 0, RDX) + enc_mov_load64(RDX, RBX, lane_off(rm, 8 * k))
        + gx_bytes(false, 1, RDX)
}

#[verifier::spinoff_prover]
fn fp2d_in(buf: &mut CodeBuf, rn: u8, rm: u8, k: u8)
    requires
        k < 2,
    ensures
        final(buf)@ == old(buf)@ + fp2d_in_bytes(rn, rm, k as int),
{
    let ghost start = buf@;
    buf.mov_load64(RDX, RBX, vslot(rn) + 8 * (k as i32));
    buf.movq_xmm_r64(0, RDX);
    buf.mov_load64(RDX, RBX, vslot(rm) + 8 * (k as i32));
    buf.movq_xmm_r64(1, RDX);
    proof {
        assert(buf@ =~= start + fp2d_in_bytes(rn, rm, k as int));
    }
}

/// FDIV/FMUL/FADD/FSUB/FMAX/FMIN/FABD of two doubles (`op` up to 8); a
/// refused `op` after the first lane's operands are loaded.
pub open spec fn simd2d_bytes(rd: u8, rn: u8, rm: u8, op: u8) -> Seq<u8> {
    if op <= 8 {
        fp2d_in_bytes(rn, rm, 0) + fp2d_op_bytes(op) + enc_movq_store(RBX, lane_off(rd, 0), 0) + fp2d_in_bytes(rn, rm, 1)
            + fp2d_op_bytes(op) + enc_movq_store(RBX, lane_off(rd, 8), 0)
    } else {
        fp2d_in_bytes(rn, rm, 0)
    }
}

pub(crate) fn translate_simd2d(buf: &mut CodeBuf, rd: u8, rn: u8, rm: u8, op: u8) -> (ok: bool)
    ensures
        ok == (op <= 8),
        final(buf)@ == old(buf)@ + simd2d_bytes(rd, rn, rm, op),
{
    let ghost start = buf@;
    fp2d_in(buf, rn, rm, 0);
    if op > 8 {
        return false;
    }
    fp2d_op(buf, op);
    buf.movq_store(RBX, vslot(rd), 0);
    fp2d_in(buf, rn, rm, 1);
    fp2d_op(buf, op);
    buf.movq_store(RBX, vslot(rd) + 8, 0);
    proof {
        assert(buf@ =~= start + simd2d_bytes(rd, rn, rm, op));
    }
    true
}

/// The rounding of XMM0 in FRINTN/M/P/Z (`mode` 0..3: `roundsd` with that
/// mode) or FRINTA (4: `floor(|x| + 0.5)` with the sign put back through
/// XMM2).
pub open spec fn frint_round_bytes(mode: u8) -> Seq<u8> {
    if mode < 4 {
        enc_roundsd(0, 0, mode)
    } else {
        gx_bytes(true, 0, RAX) + enc_mov_ri64(RCX, 0x8000_0000_0000_0000) + enc_binop(0x21, RAX, RCX) + gx_bytes(
            false,
            2,
            RAX,
        ) + gx_bytes(true, 0, RAX) + enc_mov_ri64(RCX, 0x7fff_ffff_ffff_ffff) + enc_binop(0x21, RAX, RCX) + gx_bytes(
            false,
            0,
            RAX,
        ) + enc_mov_ri64(RAX, 0x3fe0_0000_0000_0000) + gx_bytes(false, 1, RAX) + enc_sse_rr(0xF2, 0x58, 0, 1)
            + enc_roundsd(0, 0, 1) + enc_sse_rr(0x66, 0xEF, 0, 2)
    }
}

#[verifier::spinoff_prover]
fn frint_round(buf: &mut CodeBuf, mode: u8)
    requires
        mode <= 4,
    ensures
        final(buf)@ == old(buf)@ + frint_round_bytes(mode),
{
    let ghost start = buf@;
    if mode < 4 {
        buf.roundsd(0, 0, mode);
    } else {
        buf.movq_r64_xmm(RAX, 0);
        buf.mov_ri64(RCX, 0x8000_0000_0000_0000);
        buf.and_rr64(RAX, RCX);
        buf.movq_xmm_r64(2, RAX);
        buf.movq_r64_xmm(RAX, 0);
        buf.mov_ri64(RCX, 0x7fff_ffff_ffff_ffff);
        buf.and_rr64(RAX, RCX);
        buf.movq_xmm_r64(0, RAX);
        buf.mov_ri64(RAX, 0x3fe0_0000_0000_0000);
        buf.movq_xmm_r64(1, RAX);
        buf.addsd(0, 1);
        buf.roundsd(0, 0, 0x01);
        buf.pxor_xmm(0, 2);
    }
    proof {
        assert(buf@ =~= start + frint_round_bytes(mode));
    }
}

/// Lane `i` of FRINT*: a double rounded in place, or a single widened, rounded and narrowed.
pub open spec fn frint_lane_bytes(rd: u8, rn: u8, mode: u8, esize: u8, i: int) -> Seq<u8> {
    let o = lane_off(rn, i * esize);
    let d = lane_off(rd, i * esize);
    if esize == 8 {
        enc_movq_load(0, RBX, o) + frint_round_bytes(mode) + enc_movq_store(RBX, d, 0)
    } else {
        s_in_bytes(0, o) + enc_sse_rr(0xF3, 0x5A, 0, 0) + frint_round_bytes(mode) + enc_sse_rr(0xF2, 0x5A, 0, 0)
            + s_out_bytes(0, d)
    }
}

/// The first `n` lanes of `frint_lane_bytes`.
pub open spec fn frint_lanes_bytes(rd: u8, rn: u8, mode: u8, esize: u8, n: nat) -> Seq<u8>
    decreases n,
{
    if n == 0 {
        Seq::empty()
    } else {
        frint_lanes_bytes(rd, rn, mode, esize, (n - 1) as nat) + frint_lane_bytes(rd, rn, mode, esize, n - 1)
    }
}

#[verifier::spinoff_prover]
#[verifier::rlimit(30)]
fn frint_lane(buf: &mut CodeBuf, rd: u8, rn: u8, mode: u8, esize: u8, i: u8)
    requires
        i < 16,
        mode <= 4,
    ensures
        final(buf)@ == old(buf)@ + frint_lane_bytes(rd, rn, mode, esize, i as int),
{
    let ghost start = buf@;
    let e = elem_off(i, esize);
    if esize == 8 {
        buf.movq_load(0, RBX, vslot(rn) + e);
        frint_round(buf, mode);
        buf.movq_store(RBX, vslot(rd) + e, 0);
    } else {
        s_in(buf, 0, vslot(rn) + e);
        buf.cvtss2sd(0, 0);
        frint_round(buf, mode);
        buf.cvtsd2ss(0, 0);
        s_out(buf, 0, vslot(rd) + e);
    }
    proof {
        assert(buf@ =~= start + frint_lane_bytes(rd, rn, mode, esize, i as int));
    }
}

#[verifier::spinoff_prover]
fn frint_lanes(buf: &mut CodeBuf, rd: u8, rn: u8, mode: u8, esize: u8, lanes: u8)
    requires
        lanes <= 16,
        mode <= 4,
    ensures
        final(buf)@ == old(buf)@ + frint_lanes_bytes(rd, rn, mode, esize, lanes as nat),
{
    let ghost start = buf@;
    let mut i: u8 = 0;
    while i < lanes
        invariant
            i <= lanes,
            lanes <= 16,
        mode <= 4,
            buf@ == start + frint_lanes_bytes(rd, rn, mode, esize, i as nat),
        decreases lanes - i,
    {
        frint_lane(buf, rd, rn, mode, esize, i);
        proof {
            assert(buf@ =~= start + frint_lanes_bytes(rd, rn, mode, esize, (i + 1) as nat));
        }
        i = i + 1;
    }
}

/// FRINTN/M/P/Z/A (`mode` 0..4) of `esize`-byte lanes.
pub open spec fn frint_bytes(rd: u8, rn: u8, mode: u8, esize: u8, q: bool) -> Seq<u8> {
    frint_lanes_bytes(rd, rn, mode, esize, lane_count(esize, q))
}

pub(crate) fn translate_frint(buf: &mut CodeBuf, rd: u8, rn: u8, mode: u8, esize: u8, q: bool)
    requires
        esize != 0,
        mode <= 4,
    ensures
        final(buf)@ == old(buf)@ + frint_bytes(rd, rn, mode, esize, q),
{
    let lanes = lanes_of(esize, q);
    frint_lanes(buf, rd, rn, mode, esize, lanes);
}

/// Lane `i` of FRECPE/FRSQRTE (`sqrt`): `rcpss`/`rsqrtss` on a single (4-byte lanes) or the `F2`-prefixed form on a double.
pub open spec fn fre_lane_bytes(rd: u8, rn: u8, sqrt: bool, esize: u8, i: int) -> Seq<u8> {
    let o = lane_off(rn, i * esize);
    let d = lane_off(rd, i * esize);
    if esize == 4 {
        s_in_bytes(0, o) + raw_bytes(0xF3, 0x0F, if sqrt { 0x52 } else { 0x53 }, Some(0xC0u8)) + s_out_bytes(0, d)
    } else {
        enc_movq_load(0, RBX, o) + raw_bytes(0xF2, 0x0F, if sqrt { 0x52 } else { 0x53 }, Some(0xC0u8))
            + enc_movq_store(RBX, d, 0)
    }
}

/// The first `n` lanes of `fre_lane_bytes`.
pub open spec fn fre_lanes_bytes(rd: u8, rn: u8, sqrt: bool, esize: u8, n: nat) -> Seq<u8>
    decreases n,
{
    if n == 0 {
        Seq::empty()
    } else {
        fre_lanes_bytes(rd, rn, sqrt, esize, (n - 1) as nat) + fre_lane_bytes(rd, rn, sqrt, esize, n - 1)
    }
}

#[verifier::spinoff_prover]
#[verifier::rlimit(30)]
fn fre_lane(buf: &mut CodeBuf, rd: u8, rn: u8, sqrt: bool, esize: u8, i: u8)
    requires
        i < 16,
    ensures
        final(buf)@ == old(buf)@ + fre_lane_bytes(rd, rn, sqrt, esize, i as int),
{
    let ghost start = buf@;
    let e = elem_off(i, esize);
    let op: u8 = if sqrt { 0x52 } else { 0x53 };
    if esize == 4 {
        s_in(buf, 0, vslot(rn) + e);
        raw(buf, 0xF3, 0x0F, op, Some(0xC0u8));
        s_out(buf, 0, vslot(rd) + e);
    } else {
        buf.movq_load(0, RBX, vslot(rn) + e);
        raw(buf, 0xF2, 0x0F, op, Some(0xC0u8));
        buf.movq_store(RBX, vslot(rd) + e, 0);
    }
    proof {
        assert(buf@ =~= start + fre_lane_bytes(rd, rn, sqrt, esize, i as int));
    }
}

#[verifier::spinoff_prover]
fn fre_lanes(buf: &mut CodeBuf, rd: u8, rn: u8, sqrt: bool, esize: u8, lanes: u8)
    requires
        lanes <= 16,
    ensures
        final(buf)@ == old(buf)@ + fre_lanes_bytes(rd, rn, sqrt, esize, lanes as nat),
{
    let ghost start = buf@;
    let mut i: u8 = 0;
    while i < lanes
        invariant
            i <= lanes,
            lanes <= 16,
            buf@ == start + fre_lanes_bytes(rd, rn, sqrt, esize, i as nat),
        decreases lanes - i,
    {
        fre_lane(buf, rd, rn, sqrt, esize, i);
        proof {
            assert(buf@ =~= start + fre_lanes_bytes(rd, rn, sqrt, esize, (i + 1) as nat));
        }
        i = i + 1;
    }
}

/// FRECPE/FRSQRTE of `esize`-byte lanes.
pub open spec fn fre_bytes(rd: u8, rn: u8, sqrt: bool, esize: u8, q: bool) -> Seq<u8> {
    fre_lanes_bytes(rd, rn, sqrt, esize, lane_count(esize, q))
}

pub(crate) fn translate_fre(buf: &mut CodeBuf, rd: u8, rn: u8, sqrt: bool, esize: u8, q: bool)
    requires
        esize != 0,
    ensures
        final(buf)@ == old(buf)@ + fre_bytes(rd, rn, sqrt, esize, q),
{
    let lanes = lanes_of(esize, q);
    fre_lanes(buf, rd, rn, sqrt, esize, lanes);
}

/// Lane `i` of FMUL by element: the lane of `rn` times XMM2.
pub open spec fn fmul_el_lane_bytes(rd: u8, rn: u8, esize: u8, i: int) -> Seq<u8> {
    let o = lane_off(rn, i * esize);
    let d = lane_off(rd, i * esize);
    if esize == 8 {
        enc_movq_load(0, RBX, o) + enc_sse_rr(0xF2, 0x59, 0, 2) + enc_movq_store(RBX, d, 0)
    } else {
        s_in_bytes(0, o) + enc_sse_rr(0xF3, 0x59, 0, 2) + s_out_bytes(0, d)
    }
}

/// The first `n` lanes of `fmul_el_lane_bytes`.
pub open spec fn fmul_el_lanes_bytes(rd: u8, rn: u8, esize: u8, n: nat) -> Seq<u8>
    decreases n,
{
    if n == 0 {
        Seq::empty()
    } else {
        fmul_el_lanes_bytes(rd, rn, esize, (n - 1) as nat) + fmul_el_lane_bytes(rd, rn, esize, n - 1)
    }
}

#[verifier::spinoff_prover]
#[verifier::rlimit(30)]
fn fmul_el_lane(buf: &mut CodeBuf, rd: u8, rn: u8, esize: u8, i: u8)
    requires
        i < 16,
    ensures
        final(buf)@ == old(buf)@ + fmul_el_lane_bytes(rd, rn, esize, i as int),
{
    let ghost start = buf@;
    let e = elem_off(i, esize);
    if esize == 8 {
        buf.movq_load(0, RBX, vslot(rn) + e);
        buf.mulsd(0, 2);
        buf.movq_store(RBX, vslot(rd) + e, 0);
    } else {
        s_in(buf, 0, vslot(rn) + e);
        buf.mulss(0, 2);
        s_out(buf, 0, vslot(rd) + e);
    }
    proof {
        assert(buf@ =~= start + fmul_el_lane_bytes(rd, rn, esize, i as int));
    }
}

#[verifier::spinoff_prover]
fn fmul_el_lanes(buf: &mut CodeBuf, rd: u8, rn: u8, esize: u8, lanes: u8)
    requires
        lanes <= 16,
    ensures
        final(buf)@ == old(buf)@ + fmul_el_lanes_bytes(rd, rn, esize, lanes as nat),
{
    let ghost start = buf@;
    let mut i: u8 = 0;
    while i < lanes
        invariant
            i <= lanes,
            lanes <= 16,
            buf@ == start + fmul_el_lanes_bytes(rd, rn, esize, i as nat),
        decreases lanes - i,
    {
        fmul_el_lane(buf, rd, rn, esize, i);
        proof {
            assert(buf@ =~= start + fmul_el_lanes_bytes(rd, rn, esize, (i + 1) as nat));
        }
        i = i + 1;
    }
}

/// FMUL by element: element `index` of `rm` into XMM2, then the lanes.
pub open spec fn fmul_el_bytes(rd: u8, rn: u8, rm: u8, esize: u8, index: u8, q: bool) -> Seq<u8> {
    (if esize == 8 {
        enc_movq_load(2, RBX, lane_off(rm, index * esize))
    } else {
        s_in_bytes(2, lane_off(rm, index * esize))
    }) + fmul_el_lanes_bytes(rd, rn, esize, lane_count(esize, q))
}

pub(crate) fn translate_fmul_el(buf: &mut CodeBuf, rd: u8, rn: u8, rm: u8, esize: u8, index: u8, q: bool)
    requires
        esize != 0,
    ensures
        final(buf)@ == old(buf)@ + fmul_el_bytes(rd, rn, rm, esize, index, q),
{
    let ghost start = buf@;
    let mel = vslot(rm) + elem_off(index, esize);
    if esize == 8 {
        buf.movq_load(2, RBX, mel);
    } else {
        s_in(buf, 2, mel);
    }
    let lanes = lanes_of(esize, q);
    fmul_el_lanes(buf, rd, rn, esize, lanes);
    proof {
        assert(buf@ =~= start + fmul_el_bytes(rd, rn, rm, esize, index, q));
    }
}

/// Step `i` of FMAXV/FMINV: single `i + 1` of `rn` into XMM1, folded into XMM0.
pub open spec fn fmaxv_lane_bytes(rn: u8, min: bool, i: int) -> Seq<u8> {
    s_in_bytes(1, lane_off(rn, 4 * (i + 1))) + if min {
        enc_sse_rex_rr(0xF3, 0x5D, 0, 1)
    } else {
        enc_sse_rex_rr(0xF3, 0x5F, 0, 1)
    }
}

/// The first `n` lanes of `fmaxv_lane_bytes`.
pub open spec fn fmaxv_lanes_bytes(rn: u8, min: bool, n: nat) -> Seq<u8>
    decreases n,
{
    if n == 0 {
        Seq::empty()
    } else {
        fmaxv_lanes_bytes(rn, min, (n - 1) as nat) + fmaxv_lane_bytes(rn, min, n - 1)
    }
}

#[verifier::spinoff_prover]
#[verifier::rlimit(30)]
fn fmaxv_lane(buf: &mut CodeBuf, rn: u8, min: bool, i: u8)
    requires
        i < 16,
    ensures
        final(buf)@ == old(buf)@ + fmaxv_lane_bytes(rn, min, i as int),
{
    let ghost start = buf@;
    s_in(buf, 1, vslot(rn) + 4 * (i as i32 + 1));
    if min {
        buf.minss(0, 1);
    } else {
        buf.maxss(0, 1);
    }
    proof {
        assert(buf@ =~= start + fmaxv_lane_bytes(rn, min, i as int));
    }
}

#[verifier::spinoff_prover]
fn fmaxv_lanes(buf: &mut CodeBuf, rn: u8, min: bool, lanes: u8)
    requires
        lanes <= 16,
    ensures
        final(buf)@ == old(buf)@ + fmaxv_lanes_bytes(rn, min, lanes as nat),
{
    let ghost start = buf@;
    let mut i: u8 = 0;
    while i < lanes
        invariant
            i <= lanes,
            lanes <= 16,
            buf@ == start + fmaxv_lanes_bytes(rn, min, i as nat),
        decreases lanes - i,
    {
        fmaxv_lane(buf, rn, min, i);
        proof {
            assert(buf@ =~= start + fmaxv_lanes_bytes(rn, min, (i + 1) as nat));
        }
        i = i + 1;
    }
}

/// FMAXV/FMINV over four singles: the first in XMM0, the others folded in,
/// the result stored as 4 bytes.
pub open spec fn fmaxv_bytes(rd: u8, rn: u8, min: bool) -> Seq<u8> {
    s_in_bytes(0, vslot_of(rn)) + fmaxv_lanes_bytes(rn, min, 3) + s_out_bytes(0, vslot_of(rd))
}

pub(crate) fn translate_fmaxv(buf: &mut CodeBuf, rd: u8, rn: u8, min: bool)
    ensures
        final(buf)@ == old(buf)@ + fmaxv_bytes(rd, rn, min),
{
    let ghost start = buf@;
    s_in(buf, 0, vslot(rn));
    fmaxv_lanes(buf, rn, min, 3);
    s_out(buf, 0, vslot(rd));
    proof {
        assert(buf@ =~= start + fmaxv_bytes(rd, rn, min));
    }
}

/// The single-precision opcode of half-precision arithmetic `op`: FADD,
/// FSUB, FMUL, FDIV, FMAX (4, 6), FMIN (5, 7), FMUL for any other.
pub open spec fn fp16_opcode(op: u8) -> u8 {
    if op == 0 {
        0x58
    } else if op == 1 {
        0x5C
    } else if op == 2 {
        0x59
    } else if op == 3 {
        0x5E
    } else if op == 4 || op == 6 {
        0x5F
    } else if op == 5 || op == 7 {
        0x5D
    } else {
        0x59
    }
}

fn fp16_opcode_of(op: u8) -> (c: u8)
    ensures
        c == fp16_opcode(op),
{
    if op == 0 {
        0x58
    } else if op == 1 {
        0x5C
    } else if op == 2 {
        0x59
    } else if op == 3 {
        0x5E
    } else if op == 4 || op == 6 {
        0x5F
    } else if op == 5 || op == 7 {
        0x5D
    } else {
        0x59
    }
}

/// A half at `off` (read as 32 bits) widened into XMM `x`.
pub open spec fn h_in_bytes(x: u8, off: i32) -> Seq<u8> {
    s_in_bytes(x, off) + h_cvt_bytes(x)
}

/// XMM0 narrowed to a half and stored as 2 bytes at `off`.
pub open spec fn h_out_bytes(off: i32) -> Seq<u8> {
    ps2ph_bytes() + enc_sse_rr(0x66, 0x7E, 0, RAX) + enc_mov_store16(RBX, off, RAX)
}

#[verifier::spinoff_prover]
fn h_in(buf: &mut CodeBuf, x: u8, off: i32)
    requires
        x < 3,
    ensures
        final(buf)@ == old(buf)@ + h_in_bytes(x, off),
{
    s_in(buf, x, off);
    h_cvt(buf, x);
}

#[verifier::spinoff_prover]
fn h_out(buf: &mut CodeBuf, off: i32)
    ensures
        final(buf)@ == old(buf)@ + h_out_bytes(off),
{
    ps2ph(buf);
    buf.movd_r32_xmm(RAX, 0);
    buf.mov_store16(RBX, off, RAX);
}

/// Lane `i` of half-precision arithmetic `op`: both halves widened, FMLA (8) and FMLS (9) on the widened `rd` lane, the others from XMM2 and XMM1; the result narrowed and stored.
pub open spec fn fp16_as_lane_bytes(rd: u8, rn: u8, rm: u8, op: u8, i: int) -> Seq<u8> {
    let o = 2 * i;
    h_in_bytes(2, lane_off(rn, o)) + h_in_bytes(1, lane_off(rm, o)) + (if op == 8 || op == 9 {
        h_in_bytes(0, lane_off(rd, o)) + raw_bytes(0xF3, 0x0F, 0x59, Some(0xCAu8)) + raw_bytes(
            0xF3,
            0x0F,
            if op == 8 { 0x58 } else { 0x5C },
            Some(0xC1u8),
        )
    } else {
        raw_bytes(0x0F, 0x28, 0xC2, None) + raw_bytes(0xF3, 0x0F, fp16_opcode(op), Some(0xC1u8))
    }) + h_out_bytes(lane_off(rd, o))
}

/// The first `n` lanes of `fp16_as_lane_bytes`.
pub open spec fn fp16_as_lanes_bytes(rd: u8, rn: u8, rm: u8, op: u8, n: nat) -> Seq<u8>
    decreases n,
{
    if n == 0 {
        Seq::empty()
    } else {
        fp16_as_lanes_bytes(rd, rn, rm, op, (n - 1) as nat) + fp16_as_lane_bytes(rd, rn, rm, op, n - 1)
    }
}

#[verifier::spinoff_prover]
#[verifier::rlimit(30)]
fn fp16_as_lane(buf: &mut CodeBuf, rd: u8, rn: u8, rm: u8, op: u8, i: u8)
    requires
        i < 16,
    ensures
        final(buf)@ == old(buf)@ + fp16_as_lane_bytes(rd, rn, rm, op, i as int),
{
    let ghost start = buf@;
    let o: i32 = 2 * (i as i32);
    h_in(buf, 2, vslot(rn) + o);
    h_in(buf, 1, vslot(rm) + o);
    if op == 8 || op == 9 {
        h_in(buf, 0, vslot(rd) + o);
        raw(buf, 0xF3, 0x0F, 0x59, Some(0xCAu8));
        raw(buf, 0xF3, 0x0F, if op == 8 { 0x58 } else { 0x5C }, Some(0xC1u8));
    } else {
        raw(buf, 0x0F, 0x28, 0xC2, None);
        raw(buf, 0xF3, 0x0F, fp16_opcode_of(op), Some(0xC1u8));
    }
    h_out(buf, vslot(rd) + o);
    proof {
        assert(buf@ =~= start + fp16_as_lane_bytes(rd, rn, rm, op, i as int));
    }
}

#[verifier::spinoff_prover]
fn fp16_as_lanes(buf: &mut CodeBuf, rd: u8, rn: u8, rm: u8, op: u8, lanes: u8)
    requires
        lanes <= 16,
    ensures
        final(buf)@ == old(buf)@ + fp16_as_lanes_bytes(rd, rn, rm, op, lanes as nat),
{
    let ghost start = buf@;
    let mut i: u8 = 0;
    while i < lanes
        invariant
            i <= lanes,
            lanes <= 16,
            buf@ == start + fp16_as_lanes_bytes(rd, rn, rm, op, i as nat),
        decreases lanes - i,
    {
        fp16_as_lane(buf, rd, rn, rm, op, i);
        proof {
            assert(buf@ =~= start + fp16_as_lanes_bytes(rd, rn, rm, op, (i + 1) as nat));
        }
        i = i + 1;
    }
}

/// Half-precision arithmetic on 8 (`q`) or 4 lanes.
pub open spec fn fp16_as_bytes(rd: u8, rn: u8, rm: u8, op: u8, q: bool) -> Seq<u8> {
    fp16_as_lanes_bytes(rd, rn, rm, op, if q { 8 } else { 4 })
}

pub(crate) fn translate_fp16_as(buf: &mut CodeBuf, rd: u8, rn: u8, rm: u8, op: u8, q: bool)
    ensures
        final(buf)@ == old(buf)@ + fp16_as_bytes(rd, rn, rm, op, q),
{
    fp16_as_lanes(buf, rd, rn, rm, op, if q { 8 } else { 4 });
}

/// Lane `i` of half-precision FMLA/FMLS/FMUL by element (`op` 0, 1, other): the widened `rd` and `rn` halves, `rn` times XMM2, added, subtracted or moved into XMM0, narrowed and stored.
pub open spec fn fp16_el_lane_bytes(rd: u8, rn: u8, op: u8, i: int) -> Seq<u8> {
    let o = 2 * i;
    h_in_bytes(0, lane_off(rd, o)) + h_in_bytes(1, lane_off(rn, o)) + enc_sse_rr(0xF3, 0x59, 1, 2) + (if op == 0 {
        enc_sse_rr(0xF3, 0x58, 0, 1)
    } else if op == 1 {
        enc_sse_rr(0xF3, 0x5C, 0, 1)
    } else {
        raw_bytes(0x0F, 0x28, 0xC1, None)
    }) + h_out_bytes(lane_off(rd, o))
}

/// The first `n` lanes of `fp16_el_lane_bytes`.
pub open spec fn fp16_el_lanes_bytes(rd: u8, rn: u8, op: u8, n: nat) -> Seq<u8>
    decreases n,
{
    if n == 0 {
        Seq::empty()
    } else {
        fp16_el_lanes_bytes(rd, rn, op, (n - 1) as nat) + fp16_el_lane_bytes(rd, rn, op, n - 1)
    }
}

#[verifier::spinoff_prover]
#[verifier::rlimit(30)]
fn fp16_el_lane(buf: &mut CodeBuf, rd: u8, rn: u8, op: u8, i: u8)
    requires
        i < 16,
    ensures
        final(buf)@ == old(buf)@ + fp16_el_lane_bytes(rd, rn, op, i as int),
{
    let ghost start = buf@;
    let o: i32 = 2 * (i as i32);
    h_in(buf, 0, vslot(rd) + o);
    h_in(buf, 1, vslot(rn) + o);
    buf.mulss(1, 2);
    if op == 0 {
        buf.addss(0, 1);
    } else if op == 1 {
        buf.subss(0, 1);
    } else {
        raw(buf, 0x0F, 0x28, 0xC1, None);
    }
    h_out(buf, vslot(rd) + o);
    proof {
        assert(buf@ =~= start + fp16_el_lane_bytes(rd, rn, op, i as int));
    }
}

#[verifier::spinoff_prover]
fn fp16_el_lanes(buf: &mut CodeBuf, rd: u8, rn: u8, op: u8, lanes: u8)
    requires
        lanes <= 16,
    ensures
        final(buf)@ == old(buf)@ + fp16_el_lanes_bytes(rd, rn, op, lanes as nat),
{
    let ghost start = buf@;
    let mut i: u8 = 0;
    while i < lanes
        invariant
            i <= lanes,
            lanes <= 16,
            buf@ == start + fp16_el_lanes_bytes(rd, rn, op, i as nat),
        decreases lanes - i,
    {
        fp16_el_lane(buf, rd, rn, op, i);
        proof {
            assert(buf@ =~= start + fp16_el_lanes_bytes(rd, rn, op, (i + 1) as nat));
        }
        i = i + 1;
    }
}

/// Half-precision arithmetic by element: half `idx` of `vlm` widened into
/// XMM2, then 8 (`q`) or 4 lanes.
pub open spec fn fp16_el_bytes(rd: u8, rn: u8, vlm: u8, idx: u8, op: u8, q: bool) -> Seq<u8> {
    enc_movzx_word_mem(RAX, RBX, lane_off(vlm, idx * 2)) + enc_sse_rr(0x66, 0x6E, 2, RAX) + h_cvt_bytes(2)
        + fp16_el_lanes_bytes(rd, rn, op, if q { 8 } else { 4 })
}

pub(crate) fn translate_fp16_el(buf: &mut CodeBuf, rd: u8, rn: u8, vlm: u8, idx: u8, op: u8, q: bool)
    ensures
        final(buf)@ == old(buf)@ + fp16_el_bytes(rd, rn, vlm, idx, op, q),
{
    let ghost start = buf@;
    buf.mov_load16(RAX, RBX, vslot(vlm) + (idx as i32) * 2);
    buf.movd_xmm_r32(2, RAX);
    h_cvt(buf, 2);
    fp16_el_lanes(buf, rd, rn, op, if q { 8 } else { 4 });
    proof {
        assert(buf@ =~= start + fp16_el_bytes(rd, rn, vlm, idx, op, q));
    }
}

/// A half at `off` read as 16 bits and widened into XMM `x`.
pub open spec fn h16_in_bytes(x: u8, off: i32) -> Seq<u8> {
    enc_movzx_word_mem(RAX, RBX, off) + enc_sse_rr(0x66, 0x6E, x, RAX) + h_cvt_bytes(x)
}

#[verifier::spinoff_prover]
fn h16_in(buf: &mut CodeBuf, x: u8, off: i32)
    requires
        x < 3,
    ensures
        final(buf)@ == old(buf)@ + h16_in_bytes(x, off),
{
    buf.mov_load16(RAX, RBX, off);
    buf.movd_xmm_r32(x, RAX);
    h_cvt(buf, x);
}

/// Lane `i` of a half-precision compare against +0.0: the widened half, `comiss` with a cleared XMM1, the condition `cc` as a 16-bit mask.
pub open spec fn fp16_zero_lane_bytes(rd: u8, rn: u8, cc: u8, i: int) -> Seq<u8> {
    h16_in_bytes(0, lane_off(rn, 2 * i)) + enc_sse_rr(0x66, 0xEF, 1, 1) + comiss_bytes(0, 1) + mask_out_bytes(cc)
        + enc_mov_store16(RBX, lane_off(rd, 2 * i), RAX)
}

/// The first `n` lanes of `fp16_zero_lane_bytes`.
pub open spec fn fp16_zero_lanes_bytes(rd: u8, rn: u8, cc: u8, n: nat) -> Seq<u8>
    decreases n,
{
    if n == 0 {
        Seq::empty()
    } else {
        fp16_zero_lanes_bytes(rd, rn, cc, (n - 1) as nat) + fp16_zero_lane_bytes(rd, rn, cc, n - 1)
    }
}

#[verifier::spinoff_prover]
#[verifier::rlimit(30)]
fn fp16_zero_lane(buf: &mut CodeBuf, rd: u8, rn: u8, cc: u8, i: u8)
    requires
        i < 16,
    ensures
        final(buf)@ == old(buf)@ + fp16_zero_lane_bytes(rd, rn, cc, i as int),
{
    let ghost start = buf@;
    let o: i32 = 2 * (i as i32);
    h16_in(buf, 0, vslot(rn) + o);
    buf.pxor_xmm(1, 1);
    buf.comiss(0, 1);
    mask_out(buf, cc);
    buf.mov_store16(RBX, vslot(rd) + o, RAX);
    proof {
        assert(buf@ =~= start + fp16_zero_lane_bytes(rd, rn, cc, i as int));
    }
}

#[verifier::spinoff_prover]
fn fp16_zero_lanes(buf: &mut CodeBuf, rd: u8, rn: u8, cc: u8, lanes: u8)
    requires
        lanes <= 16,
    ensures
        final(buf)@ == old(buf)@ + fp16_zero_lanes_bytes(rd, rn, cc, lanes as nat),
{
    let ghost start = buf@;
    let mut i: u8 = 0;
    while i < lanes
        invariant
            i <= lanes,
            lanes <= 16,
            buf@ == start + fp16_zero_lanes_bytes(rd, rn, cc, i as nat),
        decreases lanes - i,
    {
        fp16_zero_lane(buf, rd, rn, cc, i);
        proof {
            assert(buf@ =~= start + fp16_zero_lanes_bytes(rd, rn, cc, (i + 1) as nat));
        }
        i = i + 1;
    }
}

/// Half-precision FCMEQ/FCMGT/FCMGE/FCMLT/FCMLE against zero.
pub open spec fn fp16_zero_bytes(rd: u8, rn: u8, op: u8, q: bool) -> Seq<u8> {
    fp16_zero_lanes_bytes(rd, rn, fp_zero_cc(op), if q { 8 } else { 4 })
}

pub(crate) fn translate_fp16_zero(buf: &mut CodeBuf, rd: u8, rn: u8, op: u8, q: bool)
    ensures
        final(buf)@ == old(buf)@ + fp16_zero_bytes(rd, rn, op, q),
{
    let cc = fp_zero_cc_of(op);
    fp16_zero_lanes(buf, rd, rn, cc, if q { 8 } else { 4 });
}

/// Lane `i` of a half-precision compare of two registers: both halves widened, `comiss`, the condition `cc` as a 16-bit mask.
pub open spec fn fp16_reg_lane_bytes(rd: u8, rn: u8, rm: u8, cc: u8, i: int) -> Seq<u8> {
    h16_in_bytes(0, lane_off(rn, 2 * i)) + h16_in_bytes(1, lane_off(rm, 2 * i)) + comiss_bytes(0, 1) + mask_out_bytes(cc)
        + enc_mov_store16(RBX, lane_off(rd, 2 * i), RAX)
}

/// The first `n` lanes of `fp16_reg_lane_bytes`.
pub open spec fn fp16_reg_lanes_bytes(rd: u8, rn: u8, rm: u8, cc: u8, n: nat) -> Seq<u8>
    decreases n,
{
    if n == 0 {
        Seq::empty()
    } else {
        fp16_reg_lanes_bytes(rd, rn, rm, cc, (n - 1) as nat) + fp16_reg_lane_bytes(rd, rn, rm, cc, n - 1)
    }
}

#[verifier::spinoff_prover]
#[verifier::rlimit(30)]
fn fp16_reg_lane(buf: &mut CodeBuf, rd: u8, rn: u8, rm: u8, cc: u8, i: u8)
    requires
        i < 16,
    ensures
        final(buf)@ == old(buf)@ + fp16_reg_lane_bytes(rd, rn, rm, cc, i as int),
{
    let ghost start = buf@;
    let o: i32 = 2 * (i as i32);
    h16_in(buf, 0, vslot(rn) + o);
    h16_in(buf, 1, vslot(rm) + o);
    buf.comiss(0, 1);
    mask_out(buf, cc);
    buf.mov_store16(RBX, vslot(rd) + o, RAX);
    proof {
        assert(buf@ =~= start + fp16_reg_lane_bytes(rd, rn, rm, cc, i as int));
    }
}

#[verifier::spinoff_prover]
fn fp16_reg_lanes(buf: &mut CodeBuf, rd: u8, rn: u8, rm: u8, cc: u8, lanes: u8)
    requires
        lanes <= 16,
    ensures
        final(buf)@ == old(buf)@ + fp16_reg_lanes_bytes(rd, rn, rm, cc, lanes as nat),
{
    let ghost start = buf@;
    let mut i: u8 = 0;
    while i < lanes
        invariant
            i <= lanes,
            lanes <= 16,
            buf@ == start + fp16_reg_lanes_bytes(rd, rn, rm, cc, i as nat),
        decreases lanes - i,
    {
        fp16_reg_lane(buf, rd, rn, rm, cc, i);
        proof {
            assert(buf@ =~= start + fp16_reg_lanes_bytes(rd, rn, rm, cc, (i + 1) as nat));
        }
        i = i + 1;
    }
}

/// The `setcc` condition of half-precision FCMEQ (`op` 0), FCMGE (1) and
/// FCMGT (any other).
pub open spec fn fp16_reg_cc(op: u8) -> u8 {
    if op == 0 {
        4
    } else if op == 1 {
        3
    } else {
        7
    }
}

/// Half-precision FCMEQ/FCMGE/FCMGT (register).
pub open spec fn fp16_reg_bytes(rd: u8, rn: u8, rm: u8, op: u8, q: bool) -> Seq<u8> {
    fp16_reg_lanes_bytes(rd, rn, rm, fp16_reg_cc(op), if q { 8 } else { 4 })
}

pub(crate) fn translate_fp16_reg(buf: &mut CodeBuf, rd: u8, rn: u8, rm: u8, op: u8, q: bool)
    ensures
        final(buf)@ == old(buf)@ + fp16_reg_bytes(rd, rn, rm, op, q),
{
    let cc: u8 = if op == 0 {
        4
    } else if op == 1 {
        3
    } else {
        7
    };
    fp16_reg_lanes(buf, rd, rn, rm, cc, if q { 8 } else { 4 });
}

/// Lane `i` of FCVTZS/FCVTZU (`signed`): the element as a double (a single widened), truncated by `cvttsd2si`; unsigned, a negative result becomes 0 (`cmovs`); stored as 8 or 4 bytes.
pub open spec fn fcv_vec_lane_bytes(rd: u8, rn: u8, signed: bool, esize: u8, i: int) -> Seq<u8> {
    let o = lane_off(rn, i * esize);
    let d = lane_off(rd, i * esize);
    (if esize == 8 {
        enc_movq_load(0, RBX, o)
    } else {
        s_in_bytes(0, o) + enc_sse_rr(0xF3, 0x5A, 0, 0)
    }) + enc_cvtsd2si(0x2C, RAX, 0) + (if !signed {
        enc_binop(0x31, RCX, RCX) + enc_binop(0x85, RAX, RAX) + enc_cmov_rr64(0x48, RAX, RCX)
    } else {
        Seq::empty()
    }) + if esize == 8 {
        enc_mov_store64(RBX, d, RAX)
    } else {
        enc_mov_store32(RBX, d, RAX)
    }
}

/// The first `n` lanes of `fcv_vec_lane_bytes`.
pub open spec fn fcv_vec_lanes_bytes(rd: u8, rn: u8, signed: bool, esize: u8, n: nat) -> Seq<u8>
    decreases n,
{
    if n == 0 {
        Seq::empty()
    } else {
        fcv_vec_lanes_bytes(rd, rn, signed, esize, (n - 1) as nat) + fcv_vec_lane_bytes(rd, rn, signed, esize, n - 1)
    }
}

#[verifier::spinoff_prover]
#[verifier::rlimit(30)]
fn fcv_vec_lane(buf: &mut CodeBuf, rd: u8, rn: u8, signed: bool, esize: u8, i: u8)
    requires
        i < 16,
    ensures
        final(buf)@ == old(buf)@ + fcv_vec_lane_bytes(rd, rn, signed, esize, i as int),
{
    let ghost start = buf@;
    let e = elem_off(i, esize);
    if esize == 8 {
        buf.movq_load(0, RBX, vslot(rn) + e);
    } else {
        s_in(buf, 0, vslot(rn) + e);
        buf.cvtss2sd(0, 0);
    }
    buf.cvttsd2si(RAX, 0);
    if !signed {
        buf.xor_rr64(RCX, RCX);
        buf.test_rr64(RAX, RAX);
        buf.cmov_rr64(0x48, RAX, RCX);
    }
    if esize == 8 {
        buf.mov_store64(RBX, vslot(rd) + e, RAX);
    } else {
        buf.mov_store32(RBX, vslot(rd) + e, RAX);
    }
    proof {
        assert(buf@ =~= start + fcv_vec_lane_bytes(rd, rn, signed, esize, i as int));
    }
}

#[verifier::spinoff_prover]
fn fcv_vec_lanes(buf: &mut CodeBuf, rd: u8, rn: u8, signed: bool, esize: u8, lanes: u8)
    requires
        lanes <= 16,
    ensures
        final(buf)@ == old(buf)@ + fcv_vec_lanes_bytes(rd, rn, signed, esize, lanes as nat),
{
    let ghost start = buf@;
    let mut i: u8 = 0;
    while i < lanes
        invariant
            i <= lanes,
            lanes <= 16,
            buf@ == start + fcv_vec_lanes_bytes(rd, rn, signed, esize, i as nat),
        decreases lanes - i,
    {
        fcv_vec_lane(buf, rd, rn, signed, esize, i);
        proof {
            assert(buf@ =~= start + fcv_vec_lanes_bytes(rd, rn, signed, esize, (i + 1) as nat));
        }
        i = i + 1;
    }
}

/// FCVTZS/FCVTZU (vector) of `esize`-byte lanes.
pub open spec fn fcv_vec_bytes(rd: u8, rn: u8, signed: bool, esize: u8, q: bool) -> Seq<u8> {
    fcv_vec_lanes_bytes(rd, rn, signed, esize, lane_count(esize, q))
}

pub(crate) fn translate_fcv_vec(buf: &mut CodeBuf, rd: u8, rn: u8, signed: bool, esize: u8, q: bool)
    requires
        esize != 0,
    ensures
        final(buf)@ == old(buf)@ + fcv_vec_bytes(rd, rn, signed, esize, q),
{
    let lanes = lanes_of(esize, q);
    fcv_vec_lanes(buf, rd, rn, signed, esize, lanes);
}

/// Lane `i` of SCVTF/UCVTF (`signed`): a 64-bit element converted to a double, or a 32-bit one (sign-extended when `signed`) converted from 64 bits to a single.
pub open spec fn int_to_fp_lane_bytes(rd: u8, rn: u8, esize: u8, signed: bool, i: int) -> Seq<u8> {
    let o = lane_off(rn, i * esize);
    let d = lane_off(rd, i * esize);
    if esize == 8 {
        enc_mov_load64(RAX, RBX, o) + enc_cvtsi2(0xF2, 0, true, RAX) + enc_movq_store(RBX, d, 0)
    } else {
        enc_mov_load32(RAX, RBX, o) + (if signed { sxd(RAX) } else { Seq::empty() }) + enc_cvtsi2(0xF3, 0, true, RAX)
            + s_out_bytes(0, d)
    }
}

/// The first `n` lanes of `int_to_fp_lane_bytes`.
pub open spec fn int_to_fp_lanes_bytes(rd: u8, rn: u8, esize: u8, signed: bool, n: nat) -> Seq<u8>
    decreases n,
{
    if n == 0 {
        Seq::empty()
    } else {
        int_to_fp_lanes_bytes(rd, rn, esize, signed, (n - 1) as nat) + int_to_fp_lane_bytes(rd, rn, esize, signed, n - 1)
    }
}

#[verifier::spinoff_prover]
#[verifier::rlimit(30)]
fn int_to_fp_lane(buf: &mut CodeBuf, rd: u8, rn: u8, esize: u8, signed: bool, i: u8)
    requires
        i < 16,
    ensures
        final(buf)@ == old(buf)@ + int_to_fp_lane_bytes(rd, rn, esize, signed, i as int),
{
    let ghost start = buf@;
    let e = elem_off(i, esize);
    if esize == 8 {
        buf.mov_load64(RAX, RBX, vslot(rn) + e);
        buf.cvtsi2sd(0, true, RAX);
        buf.movq_store(RBX, vslot(rd) + e, 0);
    } else {
        buf.mov_load32(RAX, RBX, vslot(rn) + e);
        if signed {
            buf.movsxd_r64_r32(RAX, RAX);
        }
        buf.cvtsi2ss(0, true, RAX);
        s_out(buf, 0, vslot(rd) + e);
    }
    proof {
        assert(buf@ =~= start + int_to_fp_lane_bytes(rd, rn, esize, signed, i as int));
    }
}

#[verifier::spinoff_prover]
fn int_to_fp_lanes(buf: &mut CodeBuf, rd: u8, rn: u8, esize: u8, signed: bool, lanes: u8)
    requires
        lanes <= 16,
    ensures
        final(buf)@ == old(buf)@ + int_to_fp_lanes_bytes(rd, rn, esize, signed, lanes as nat),
{
    let ghost start = buf@;
    let mut i: u8 = 0;
    while i < lanes
        invariant
            i <= lanes,
            lanes <= 16,
            buf@ == start + int_to_fp_lanes_bytes(rd, rn, esize, signed, i as nat),
        decreases lanes - i,
    {
        int_to_fp_lane(buf, rd, rn, esize, signed, i);
        proof {
            assert(buf@ =~= start + int_to_fp_lanes_bytes(rd, rn, esize, signed, (i + 1) as nat));
        }
        i = i + 1;
    }
}

/// SCVTF/UCVTF (vector) of `esize`-byte lanes.
pub open spec fn int_to_fp_bytes(rd: u8, rn: u8, esize: u8, signed: bool, q: bool) -> Seq<u8> {
    int_to_fp_lanes_bytes(rd, rn, esize, signed, lane_count(esize, q))
}

pub(crate) fn translate_int_to_fp(buf: &mut CodeBuf, rd: u8, rn: u8, esize: u8, signed: bool, q: bool)
    requires
        esize != 0,
    ensures
        final(buf)@ == old(buf)@ + int_to_fp_bytes(rd, rn, esize, signed, q),
{
    let lanes = lanes_of(esize, q);
    int_to_fp_lanes(buf, rd, rn, esize, signed, lanes);
}

/// Lane `i` of FCVTNS/FCVTZS and kin: the element as a double, converted by `cvtsd2si` (`mode` 2, current rounding) or `cvttsd2si`, stored as 8 bytes at lane `i`, or as 4 bytes at `4 * i`.
pub open spec fn fp_to_int_lane_bytes(rd: u8, rn: u8, esize: u8, mode: u8, i: int) -> Seq<u8> {
    let o = lane_off(rn, i * esize);
    (if esize == 8 {
        enc_movq_load(0, RBX, o)
    } else {
        s_in_bytes(0, o) + enc_sse_rr(0xF3, 0x5A, 0, 0)
    }) + enc_cvtsd2si(if mode == 2 { 0x2D } else { 0x2C }, RAX, 0) + if esize == 8 {
        enc_mov_store64(RBX, lane_off(rd, i * esize), RAX)
    } else {
        enc_mov_store32(RBX, lane_off(rd, 4 * i), RAX)
    }
}

/// The first `n` lanes of `fp_to_int_lane_bytes`.
pub open spec fn fp_to_int_lanes_bytes(rd: u8, rn: u8, esize: u8, mode: u8, n: nat) -> Seq<u8>
    decreases n,
{
    if n == 0 {
        Seq::empty()
    } else {
        fp_to_int_lanes_bytes(rd, rn, esize, mode, (n - 1) as nat) + fp_to_int_lane_bytes(rd, rn, esize, mode, n - 1)
    }
}

#[verifier::spinoff_prover]
#[verifier::rlimit(30)]
fn fp_to_int_lane(buf: &mut CodeBuf, rd: u8, rn: u8, esize: u8, mode: u8, i: u8)
    requires
        i < 16,
    ensures
        final(buf)@ == old(buf)@ + fp_to_int_lane_bytes(rd, rn, esize, mode, i as int),
{
    let ghost start = buf@;
    let e = elem_off(i, esize);
    if esize == 8 {
        buf.movq_load(0, RBX, vslot(rn) + e);
    } else {
        s_in(buf, 0, vslot(rn) + e);
        buf.cvtss2sd(0, 0);
    }
    if mode == 2 {
        buf.cvtsd2si(RAX, 0);
    } else {
        buf.cvttsd2si(RAX, 0);
    }
    if esize == 8 {
        buf.mov_store64(RBX, vslot(rd) + e, RAX);
    } else {
        buf.mov_store32(RBX, vslot(rd) + 4 * (i as i32), RAX);
    }
    proof {
        assert(buf@ =~= start + fp_to_int_lane_bytes(rd, rn, esize, mode, i as int));
    }
}

#[verifier::spinoff_prover]
fn fp_to_int_lanes(buf: &mut CodeBuf, rd: u8, rn: u8, esize: u8, mode: u8, lanes: u8)
    requires
        lanes <= 16,
    ensures
        final(buf)@ == old(buf)@ + fp_to_int_lanes_bytes(rd, rn, esize, mode, lanes as nat),
{
    let ghost start = buf@;
    let mut i: u8 = 0;
    while i < lanes
        invariant
            i <= lanes,
            lanes <= 16,
            buf@ == start + fp_to_int_lanes_bytes(rd, rn, esize, mode, i as nat),
        decreases lanes - i,
    {
        fp_to_int_lane(buf, rd, rn, esize, mode, i);
        proof {
            assert(buf@ =~= start + fp_to_int_lanes_bytes(rd, rn, esize, mode, (i + 1) as nat));
        }
        i = i + 1;
    }
}

/// The lane count of the FP-to-integer conversions: 2 or 1 doubles, 4 or 2
/// singles.
pub open spec fn fp_to_int_count(esize: u8, q: bool) -> nat {
    if q {
        if esize == 8 { 2 } else { 4 }
    } else {
        if esize == 8 { 1 } else { 2 }
    }
}

/// The FP-to-integer conversions (vector).
pub open spec fn fp_to_int_bytes(rd: u8, rn: u8, esize: u8, q: bool, mode: u8) -> Seq<u8> {
    fp_to_int_lanes_bytes(rd, rn, esize, mode, fp_to_int_count(esize, q))
}

pub(crate) fn translate_fp_to_int(buf: &mut CodeBuf, rd: u8, rn: u8, esize: u8, q: bool, mode: u8)
    ensures
        final(buf)@ == old(buf)@ + fp_to_int_bytes(rd, rn, esize, q, mode),
{
    let lanes: u8 = if q {
        if esize == 8 { 2 } else { 4 }
    } else {
        if esize == 8 { 1 } else { 2 }
    };
    fp_to_int_lanes(buf, rd, rn, esize, mode, lanes);
}

/// The correction of an unsigned 64-bit conversion: 2^64 added to XMM0
/// through RCX and XMM1.
pub open spec fn u64_fix_bytes() -> Seq<u8> {
    enc_mov_ri64(RCX, 0x43f0_0000_0000_0000) + gx_bytes(false, 1, RCX) + enc_sse_rr(0xF2, 0x58, 0, 1)
}

/// Lane `i` of UCVTF (two doubles): the 64-bit element converted as signed, 2^64 added unless its sign is clear (`jns` over the 19-byte correction), stored.
pub open spec fn ucvtf2d_lane_bytes(rd: u8, rn: u8, i: int) -> Seq<u8> {
    enc_mov_load64(RDX, RBX, lane_off(rn, 8 * i)) + enc_cvtsi2(0xF2, 0, true, RDX) + enc_binop(0x85, RDX, RDX) + jcc_d(
        0x89,
        19,
    ) + u64_fix_bytes() + enc_movq_store(RBX, lane_off(rd, 8 * i), 0)
}

/// The first `n` lanes of `ucvtf2d_lane_bytes`.
pub open spec fn ucvtf2d_lanes_bytes(rd: u8, rn: u8, n: nat) -> Seq<u8>
    decreases n,
{
    if n == 0 {
        Seq::empty()
    } else {
        ucvtf2d_lanes_bytes(rd, rn, (n - 1) as nat) + ucvtf2d_lane_bytes(rd, rn, n - 1)
    }
}

#[verifier::spinoff_prover]
#[verifier::rlimit(30)]
fn ucvtf2d_lane(buf: &mut CodeBuf, rd: u8, rn: u8, i: u8)
    requires
        i < 16,
    ensures
        final(buf)@ == old(buf)@ + ucvtf2d_lane_bytes(rd, rn, i as int),
{
    let ghost start = buf@;
    let o: i32 = 8 * (i as i32);
    buf.mov_load64(RDX, RBX, vslot(rn) + o);
    buf.cvtsi2sd(0, true, RDX);
    buf.test_rr64(RDX, RDX);
    jcc_to(buf, 0x89, 19);
    buf.mov_ri64(RCX, 0x43f0_0000_0000_0000);
    buf.movq_xmm_r64(1, RCX);
    buf.addsd(0, 1);
    buf.movq_store(RBX, vslot(rd) + o, 0);
    proof {
        assert(buf@ =~= start + ucvtf2d_lane_bytes(rd, rn, i as int));
    }
}

#[verifier::spinoff_prover]
fn ucvtf2d_lanes(buf: &mut CodeBuf, rd: u8, rn: u8, lanes: u8)
    requires
        lanes <= 16,
    ensures
        final(buf)@ == old(buf)@ + ucvtf2d_lanes_bytes(rd, rn, lanes as nat),
{
    let ghost start = buf@;
    let mut i: u8 = 0;
    while i < lanes
        invariant
            i <= lanes,
            lanes <= 16,
            buf@ == start + ucvtf2d_lanes_bytes(rd, rn, i as nat),
        decreases lanes - i,
    {
        ucvtf2d_lane(buf, rd, rn, i);
        proof {
            assert(buf@ =~= start + ucvtf2d_lanes_bytes(rd, rn, (i + 1) as nat));
        }
        i = i + 1;
    }
}

/// UCVTF of two 64-bit lanes to doubles.
pub open spec fn ucvtf2d_bytes(rd: u8, rn: u8) -> Seq<u8> {
    ucvtf2d_lanes_bytes(rd, rn, 2)
}

pub(crate) fn translate_ucvtf2d(buf: &mut CodeBuf, rd: u8, rn: u8)
    ensures
        final(buf)@ == old(buf)@ + ucvtf2d_bytes(rd, rn),
{
    ucvtf2d_lanes(buf, rd, rn, 2);
}

/// Lane `i` of SCVTF/UCVTF to halves (`unsigned`): the 16-bit element extended, converted from 32 bits to a single, narrowed to a half and stored.
pub open spec fn i2fp16_lane_bytes(rd: u8, rn: u8, unsigned: bool, i: int) -> Seq<u8> {
    let o = lane_off(rn, 2 * i);
    (if unsigned { enc_movzx_word_mem(RAX, RBX, o) } else { enc_movsx_word_mem(RAX, RBX, o) }) + enc_cvtsi2(
        0xF3,
        0,
        false,
        RAX,
    ) + h_out_bytes(lane_off(rd, 2 * i))
}

/// The first `n` lanes of `i2fp16_lane_bytes`.
pub open spec fn i2fp16_lanes_bytes(rd: u8, rn: u8, unsigned: bool, n: nat) -> Seq<u8>
    decreases n,
{
    if n == 0 {
        Seq::empty()
    } else {
        i2fp16_lanes_bytes(rd, rn, unsigned, (n - 1) as nat) + i2fp16_lane_bytes(rd, rn, unsigned, n - 1)
    }
}

#[verifier::spinoff_prover]
#[verifier::rlimit(30)]
fn i2fp16_lane(buf: &mut CodeBuf, rd: u8, rn: u8, unsigned: bool, i: u8)
    requires
        i < 16,
    ensures
        final(buf)@ == old(buf)@ + i2fp16_lane_bytes(rd, rn, unsigned, i as int),
{
    let ghost start = buf@;
    let o: i32 = 2 * (i as i32);
    if unsigned {
        buf.mov_load16(RAX, RBX, vslot(rn) + o);
    } else {
        buf.movsx_word_mem(RAX, RBX, vslot(rn) + o);
    }
    buf.cvtsi2ss(0, false, RAX);
    h_out(buf, vslot(rd) + o);
    proof {
        assert(buf@ =~= start + i2fp16_lane_bytes(rd, rn, unsigned, i as int));
    }
}

#[verifier::spinoff_prover]
fn i2fp16_lanes(buf: &mut CodeBuf, rd: u8, rn: u8, unsigned: bool, lanes: u8)
    requires
        lanes <= 16,
    ensures
        final(buf)@ == old(buf)@ + i2fp16_lanes_bytes(rd, rn, unsigned, lanes as nat),
{
    let ghost start = buf@;
    let mut i: u8 = 0;
    while i < lanes
        invariant
            i <= lanes,
            lanes <= 16,
            buf@ == start + i2fp16_lanes_bytes(rd, rn, unsigned, i as nat),
        decreases lanes - i,
    {
        i2fp16_lane(buf, rd, rn, unsigned, i);
        proof {
            assert(buf@ =~= start + i2fp16_lanes_bytes(rd, rn, unsigned, (i + 1) as nat));
        }
        i = i + 1;
    }
}

/// SCVTF/UCVTF to halves on 8 (`q`) or 4 lanes.
pub open spec fn i2fp16_bytes(rd: u8, rn: u8, unsigned: bool, q: bool) -> Seq<u8> {
    i2fp16_lanes_bytes(rd, rn, unsigned, if q { 8 } else { 4 })
}

pub(crate) fn translate_i2fp16(buf: &mut CodeBuf, rd: u8, rn: u8, unsigned: bool, q: bool)
    ensures
        final(buf)@ == old(buf)@ + i2fp16_bytes(rd, rn, unsigned, q),
{
    i2fp16_lanes(buf, rd, rn, unsigned, if q { 8 } else { 4 });
}

/// Lane `i` of FCVTL: a half at `src + 2i` widened to a single (`half`), or a single at `src + 4i` widened to a double.
pub open spec fn fcvtl_lane_bytes(rd: u8, src: i32, half: bool, i: int) -> Seq<u8> {
    if half {
        h16_in_bytes(0, (src + 2 * i) as i32) + s_out_bytes(0, lane_off(rd, 4 * i))
    } else {
        s_in_bytes(0, (src + 4 * i) as i32) + enc_sse_rr(0xF3, 0x5A, 0, 0) + enc_movq_store(RBX, lane_off(rd, 8 * i), 0)
    }
}

/// The first `n` lanes of `fcvtl_lane_bytes`.
pub open spec fn fcvtl_lanes_bytes(rd: u8, src: i32, half: bool, n: nat) -> Seq<u8>
    decreases n,
{
    if n == 0 {
        Seq::empty()
    } else {
        fcvtl_lanes_bytes(rd, src, half, (n - 1) as nat) + fcvtl_lane_bytes(rd, src, half, n - 1)
    }
}

#[verifier::spinoff_prover]
#[verifier::rlimit(30)]
fn fcvtl_lane(buf: &mut CodeBuf, rd: u8, src: i32, half: bool, i: u8)
    requires
        i < 16,
        -0x1000_0000 <= src <= 0x1000_0000,
    ensures
        final(buf)@ == old(buf)@ + fcvtl_lane_bytes(rd, src, half, i as int),
{
    let ghost start = buf@;
    if half {
        h16_in(buf, 0, src + 2 * (i as i32));
        s_out(buf, 0, vslot(rd) + 4 * (i as i32));
    } else {
        s_in(buf, 0, src + 4 * (i as i32));
        buf.cvtss2sd(0, 0);
        buf.movq_store(RBX, vslot(rd) + 8 * (i as i32), 0);
    }
    proof {
        assert(buf@ =~= start + fcvtl_lane_bytes(rd, src, half, i as int));
    }
}

#[verifier::spinoff_prover]
fn fcvtl_lanes(buf: &mut CodeBuf, rd: u8, src: i32, half: bool, lanes: u8)
    requires
        lanes <= 16,
        -0x1000_0000 <= src <= 0x1000_0000,
    ensures
        final(buf)@ == old(buf)@ + fcvtl_lanes_bytes(rd, src, half, lanes as nat),
{
    let ghost start = buf@;
    let mut i: u8 = 0;
    while i < lanes
        invariant
            i <= lanes,
            lanes <= 16,
        -0x1000_0000 <= src <= 0x1000_0000,
            buf@ == start + fcvtl_lanes_bytes(rd, src, half, i as nat),
        decreases lanes - i,
    {
        fcvtl_lane(buf, rd, src, half, i);
        proof {
            assert(buf@ =~= start + fcvtl_lanes_bytes(rd, src, half, (i + 1) as nat));
        }
        i = i + 1;
    }
}

/// FCVTL/FCVTL2 (`upper`: from bytes 8..15) of four halves (`half`) or two
/// singles, `rn` copied to scratch first when it is `rd`.
pub open spec fn fcvtl_bytes(rd: u8, rn: u8, upper: bool, half: bool) -> Seq<u8> {
    prog_bytes(permute_prog(rd, rn, false)) + fcvtl_lanes_bytes(
        rd,
        (permute_off(rd, rn, false) + if upper { 8int } else { 0int }) as i32,
        half,
        if half { 4 } else { 2 },
    )
}

pub(crate) fn translate_fcvtl(buf: &mut CodeBuf, rd: u8, rn: u8, upper: bool, half: bool)
    ensures
        final(buf)@ == old(buf)@ + fcvtl_bytes(rd, rn, upper, half),
{
    let ghost start = buf@;
    let src = permute_source(buf, rd, rn, false);
    let s0 = src + if upper { 8i32 } else { 0i32 };
    fcvtl_lanes(buf, rd, s0, half, if half { 4 } else { 2 });
    proof {
        assert(buf@ =~= start + fcvtl_bytes(rd, rn, upper, half));
    }
}

/// Lane `i` of FCVTN: the double at `src + 8i` narrowed to a single, stored at `doff + 4i` of `rd`.
pub open spec fn fcvtn_lane_bytes(rd: u8, src: i32, doff: i32, i: int) -> Seq<u8> {
    enc_movq_load(0, RBX, (src + 8 * i) as i32) + enc_sse_rr(0xF2, 0x5A, 0, 0) + s_out_bytes(
        0,
        (vslot_of(rd) + doff + 4 * i) as i32,
    )
}

/// The first `n` lanes of `fcvtn_lane_bytes`.
pub open spec fn fcvtn_lanes_bytes(rd: u8, src: i32, doff: i32, n: nat) -> Seq<u8>
    decreases n,
{
    if n == 0 {
        Seq::empty()
    } else {
        fcvtn_lanes_bytes(rd, src, doff, (n - 1) as nat) + fcvtn_lane_bytes(rd, src, doff, n - 1)
    }
}

#[verifier::spinoff_prover]
#[verifier::rlimit(30)]
fn fcvtn_lane(buf: &mut CodeBuf, rd: u8, src: i32, doff: i32, i: u8)
    requires
        i < 16,
        -0x1000_0000 <= src <= 0x1000_0000,
        doff == 0 || doff == 8,
    ensures
        final(buf)@ == old(buf)@ + fcvtn_lane_bytes(rd, src, doff, i as int),
{
    let ghost start = buf@;
    buf.movq_load(0, RBX, src + 8 * (i as i32));
    buf.cvtsd2ss(0, 0);
    s_out(buf, 0, vslot(rd) + doff + 4 * (i as i32));
    proof {
        assert(buf@ =~= start + fcvtn_lane_bytes(rd, src, doff, i as int));
    }
}

#[verifier::spinoff_prover]
fn fcvtn_lanes(buf: &mut CodeBuf, rd: u8, src: i32, doff: i32, lanes: u8)
    requires
        lanes <= 16,
        -0x1000_0000 <= src <= 0x1000_0000,
        doff == 0 || doff == 8,
    ensures
        final(buf)@ == old(buf)@ + fcvtn_lanes_bytes(rd, src, doff, lanes as nat),
{
    let ghost start = buf@;
    let mut i: u8 = 0;
    while i < lanes
        invariant
            i <= lanes,
            lanes <= 16,
        -0x1000_0000 <= src <= 0x1000_0000,
        doff == 0 || doff == 8,
            buf@ == start + fcvtn_lanes_bytes(rd, src, doff, i as nat),
        decreases lanes - i,
    {
        fcvtn_lane(buf, rd, src, doff, i);
        proof {
            assert(buf@ =~= start + fcvtn_lanes_bytes(rd, src, doff, (i + 1) as nat));
        }
        i = i + 1;
    }
}

/// FCVTN/FCVTN2 (`upper`: into bytes 8..15) of two doubles, `rn` copied to
/// scratch first when it is `rd`.
pub open spec fn fcvtn_bytes(rd: u8, rn: u8, upper: bool) -> Seq<u8> {
    prog_bytes(permute_prog(rd, rn, false)) + fcvtn_lanes_bytes(
        rd,
        permute_off(rd, rn, false),
        if upper { 8 } else { 0 },
        2,
    )
}

pub(crate) fn translate_fcvtn(buf: &mut CodeBuf, rd: u8, rn: u8, upper: bool)
    ensures
        final(buf)@ == old(buf)@ + fcvtn_bytes(rd, rn, upper),
{
    let ghost start = buf@;
    let src = permute_source(buf, rd, rn, false);
    fcvtn_lanes(buf, rd, src, if upper { 8 } else { 0 }, 2);
    proof {
        assert(buf@ =~= start + fcvtn_bytes(rd, rn, upper));
    }
}

} // verus!
