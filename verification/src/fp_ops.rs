//! Scalar floating-point instructions beyond the basic arithmetic: the
//! one-source operations (square root, the roundings, FABS, FNEG), FABD,
//! the fused multiply-add family, FMAX/FMIN, FMUL/FNMUL and the
//! precision conversions. The guest S and D registers are the low 4 and 8
//! bytes of the 16-byte vector slots in `CpuState`.
use vstd::prelude::*;
use crate::translate::{decimal, decimal_msg, ldg, ldg_bytes, stg, stg_bytes, vslot_of, VECTOR_BASE};
use crate::x86::{
    enc_binop, enc_cmov_rr64, enc_cvtsd2si, enc_cvtsi2, enc_mov_load64, enc_mov_store64, le32,
    enc_mov_load32, enc_mov_ri64, enc_mov_store32, enc_movq_load, enc_movq_store,
    enc_roundsd, enc_sse_rex_rr, enc_sse_rr, modrm_byte, rex_byte, CodeBuf, RAX, RBX, RCX, RDI,
    RDX,
};

verus! {

/// The slot of guest vector register `r`.
#[verifier::spinoff_prover]
pub(crate) fn vslot(r: u8) -> (o: i32)
    ensures
        o == vslot_of(r),
{
    VECTOR_BASE + (r as i32) * 16
}

/// `mov eax, [RBX + slot(r)]`: the single in S`r`.
pub open spec fn ld_s(r: u8) -> Seq<u8> {
    enc_mov_load32(RAX, RBX, vslot_of(r))
}

/// `mov [RBX + slot(r)], eax`: EAX into S`r`.
pub open spec fn st_s(r: u8) -> Seq<u8> {
    enc_mov_store32(RBX, vslot_of(r), RAX)
}

/// `movq xmm, [RBX + slot(r)]`: the double in D`r`.
pub open spec fn ld_d(x: u8, r: u8) -> Seq<u8> {
    enc_movq_load(x, RBX, vslot_of(r))
}

/// `movq [RBX + slot(r)], xmm`: XMM`x` into D`r`.
pub open spec fn st_d(r: u8, x: u8) -> Seq<u8> {
    enc_movq_store(RBX, vslot_of(r), x)
}

/// `movd xmm, r32`
pub open spec fn movd_to_x(x: u8, g: u8) -> Seq<u8> {
    enc_sse_rr(0x66, 0x6E, x, g)
}

/// `movd r32, xmm`
pub open spec fn movd_from_x(g: u8, x: u8) -> Seq<u8> {
    enc_sse_rr(0x66, 0x7E, x, g)
}

/// `movq xmm, r64`
pub open spec fn movq_to_x(x: u8, g: u8) -> Seq<u8> {
    seq![0x66u8, rex_byte(true, x, 0, g), 0x0Fu8, 0x6Eu8, modrm_byte(3, x & 7, g & 7)]
}

/// `movq r64, xmm`
pub open spec fn movq_from_x(g: u8, x: u8) -> Seq<u8> {
    seq![0x66u8, rex_byte(true, x, 0, g), 0x0Fu8, 0x7Eu8, modrm_byte(3, x & 7, g & 7)]
}

/// FRINTA on the double in XMM0: `sign(x) * floor(|x| + 0.5)`, the sign mask
/// kept in XMM2.
pub open spec fn frinta_bytes() -> Seq<u8> {
    movq_from_x(RAX, 0) + enc_mov_ri64(RCX, 0x8000_0000_0000_0000) + enc_binop(0x21, RAX, RCX)
        + movq_to_x(2, RAX) + movq_from_x(RAX, 0) + enc_mov_ri64(RCX, 0x7fff_ffff_ffff_ffff)
        + enc_binop(0x21, RAX, RCX) + movq_to_x(0, RAX) + enc_mov_ri64(RAX, 0x3fe0_0000_0000_0000)
        + movq_to_x(1, RAX) + enc_sse_rr(0xF2, 0x58, 0, 1) + enc_roundsd(0, 0, 1) + enc_sse_rr(
        0x66,
        0xEF,
        0,
        2,
    )
}

#[verifier::spinoff_prover]
fn frinta(buf: &mut CodeBuf)
    ensures
        final(buf)@ == old(buf)@ + frinta_bytes(),
{
    let ghost start = buf@;
    buf.movq_r64_xmm(RAX, 0);
    buf.mov_ri64(RCX, 0x8000_0000_0000_0000);
    buf.and_rr64(RAX, RCX);  // the sign bit
    buf.movq_xmm_r64(2, RAX);
    buf.movq_r64_xmm(RAX, 0);
    buf.mov_ri64(RCX, 0x7fff_ffff_ffff_ffff);
    buf.and_rr64(RAX, RCX);  // |x|
    buf.movq_xmm_r64(0, RAX);
    buf.mov_ri64(RAX, 0x3fe0_0000_0000_0000);  // 0.5
    buf.movq_xmm_r64(1, RAX);
    buf.addsd(0, 1);
    buf.roundsd(0, 0, 0x01);  // floor(|x| + 0.5)
    buf.pxor_xmm(0, 2);  // the sign back
    proof {
        assert(buf@ =~= start + frinta_bytes());
    }
}

/// Clear (`op == 5`, FABS) or flip (FNEG) bit 63 of the double in XMM0.
pub open spec fn sign_d_bytes(op: u8) -> Seq<u8> {
    movq_from_x(RAX, 0) + enc_mov_ri64(
        RCX,
        if op == 5 { 0x7fff_ffff_ffff_ffffu64 } else { 0x8000_0000_0000_0000u64 },
    ) + enc_binop(if op == 5 { 0x21 } else { 0x31 }, RAX, RCX) + movq_to_x(0, RAX)
}

/// The operation `op` of FpUnary on the double in XMM0: 0 FSQRT, 1 FRINTM,
/// 2 FRINTP, 3 and 4 FRINTZ, 5 FABS, 6 FNEG, 7 FRINTA, 8 FRINTN and 9
/// FRINTX (both to nearest, ties to even).
pub open spec fn unary_d_bytes(op: u8) -> Seq<u8> {
    if op == 0 {
        enc_sse_rr(0xF2, 0x51, 0, 0)
    } else if op == 1 {
        enc_roundsd(0, 0, 1)
    } else if op == 2 {
        enc_roundsd(0, 0, 2)
    } else if op == 3 || op == 4 {
        enc_roundsd(0, 0, 3)
    } else if op == 5 || op == 6 {
        sign_d_bytes(op)
    } else if op == 7 {
        frinta_bytes()
    } else {
        enc_roundsd(0, 0, 0)
    }
}

#[verifier::spinoff_prover]
fn unary_d(buf: &mut CodeBuf, op: u8)
    requires
        op <= 9,
    ensures
        final(buf)@ == old(buf)@ + unary_d_bytes(op),
{
    let ghost start = buf@;
    if op == 0 {
        buf.sqrtsd(0, 0);
    } else if op == 1 {
        buf.roundsd(0, 0, 0x01);  // floor
    } else if op == 2 {
        buf.roundsd(0, 0, 0x02);  // ceil
    } else if op == 3 || op == 4 {
        buf.roundsd(0, 0, 0x03);  // toward zero
    } else if op == 5 || op == 6 {
        // FABS clears the sign bit, FNEG flips it
        buf.movq_r64_xmm(RAX, 0);
        if op == 5 {
            buf.mov_ri64(RCX, 0x7fff_ffff_ffff_ffff);
            buf.and_rr64(RAX, RCX);
        } else {
            buf.mov_ri64(RCX, 0x8000_0000_0000_0000);
            buf.xor_rr64(RAX, RCX);
        }
        buf.movq_xmm_r64(0, RAX);
    } else if op == 7 {
        frinta(buf);
    } else {
        buf.roundsd(0, 0, 0x00);  // nearest, ties to even
    }
    proof {
        assert(buf@ =~= start + unary_d_bytes(op));
    }
}

/// The FpUnary operations implemented: all ten on doubles; on singles all
/// but `op == 4`.
pub open spec fn fp_unary_ok(op: u8, sz: bool) -> bool {
    op <= 9 && (sz || op != 4)
}

/// The error text of a refused FpUnary.
pub open spec fn fp_unary_error(op: u8, sz: bool) -> Seq<char> {
    if sz {
        "FpUnary op "@ + decimal(op as nat) + " not implemented"@
    } else {
        "FpUnary single ilp-"@ + decimal(op as nat) + " not implemented"@
    }
}

/// FpUnary: on a single, FABS/FNEG on its 32-bit pattern in EAX, the other
/// operations through a double (`cvtss2sd`, the operation, `cvtsd2ss`); on
/// a double, the operation in XMM0. A refused operation leaves the code
/// emitted before the refusal.
pub open spec fn fp_unary_bytes(rd: u8, rn: u8, op: u8, sz: bool) -> Seq<u8> {
    if !sz {
        if op == 5 || op == 6 {
            ld_s(rn) + enc_mov_ri64(RCX, if op == 5 { 0x7fff_ffffu64 } else { 0x8000_0000u64 })
                + enc_binop(if op == 5 { 0x21 } else { 0x31 }, RAX, RCX) + st_s(rd)
        } else {
            ld_s(rn) + movd_to_x(0, RAX) + enc_sse_rr(0xF3, 0x5A, 0, 0) + if fp_unary_ok(op, sz) {
                unary_d_bytes(op) + enc_sse_rr(0xF2, 0x5A, 0, 0) + movd_from_x(RAX, 0) + st_s(rd)
            } else {
                Seq::empty()
            }
        }
    } else {
        ld_d(0, rn) + if fp_unary_ok(op, sz) {
            unary_d_bytes(op) + st_d(rd, 0)
        } else {
            Seq::empty()
        }
    }
}

#[verifier::spinoff_prover]
pub(crate) fn translate_fp_unary(buf: &mut CodeBuf, rd: u8, rn: u8, op: u8, sz: bool) -> (r: Result<
    (),
    String,
>)
    ensures
        r is Ok <==> fp_unary_ok(op, sz),
        final(buf)@ == old(buf)@ + fp_unary_bytes(rd, rn, op, sz),
        r matches Err(e) ==> e@ == fp_unary_error(op, sz),
{
    let ghost start = buf@;
    if !sz {
        // a single lives in the low 32 bits of the slot
        buf.mov_load32(RAX, RBX, vslot(rn));
        if op == 5 || op == 6 {
            if op == 5 {
                buf.mov_ri64(RCX, 0x7fff_ffff);
                buf.and_rr64(RAX, RCX);
            } else {
                buf.mov_ri64(RCX, 0x8000_0000);
                buf.xor_rr64(RAX, RCX);
            }
            buf.mov_store32(RBX, vslot(rd), RAX);
            proof {
                assert(buf@ =~= start + fp_unary_bytes(rd, rn, op, sz));
            }
            return Ok(());
        }
        buf.movd_xmm_r32(0, RAX);
        buf.cvtss2sd(0, 0);
        let ghost mid = buf@;
        if op > 9 || op == 4 {
            proof {
                assert(buf@ =~= start + fp_unary_bytes(rd, rn, op, sz));
            }
            return Err(decimal_msg("FpUnary single ilp-", op, " not implemented"));
        }
        unary_d(buf, op);
        buf.cvtsd2ss(0, 0);
        buf.movd_r32_xmm(RAX, 0);
        buf.mov_store32(RBX, vslot(rd), RAX);
        proof {
            assert(buf@ =~= start + fp_unary_bytes(rd, rn, op, sz));
        }
        return Ok(());
    }
    buf.movq_load(0, RBX, vslot(rn));
    if op > 9 {
        proof {
            assert(buf@ =~= start + fp_unary_bytes(rd, rn, op, sz));
        }
        return Err(decimal_msg("FpUnary op ", op, " not implemented"));
    }
    unary_d(buf, op);
    buf.movq_store(RBX, vslot(rd), 0);
    proof {
        assert(buf@ =~= start + fp_unary_bytes(rd, rn, op, sz));
    }
    Ok(())
}

/// FABD: `|rn - rm|`, the difference's sign bit cleared on its pattern
/// (through RDX with the mask in RDI for doubles, EAX and RCX for singles).
pub open spec fn fabd_bytes(rd: u8, rn: u8, rm: u8, sz: bool) -> Seq<u8> {
    if sz {
        ld_d(0, rn) + ld_d(1, rm) + enc_sse_rr(0xF2, 0x5C, 0, 1) + movq_from_x(RDX, 0)
            + enc_mov_ri64(RDI, 0x7fff_ffff_ffff_ffff) + enc_binop(0x21, RDX, RDI) + movq_to_x(
            0,
            RDX,
        ) + st_d(rd, 0)
    } else {
        ld_s(rn) + movd_to_x(0, RAX) + ld_s(rm) + movd_to_x(1, RAX) + seq![
            0xF3u8,
            0x0Fu8,
            0x5Cu8,
            0xC1u8,
        ] + movd_from_x(RAX, 0) + enc_mov_ri64(RCX, 0x7fff_ffff) + enc_binop(0x21, RAX, RCX) + st_s(
            rd,
        )
    }
}

#[verifier::spinoff_prover]
pub(crate) fn translate_fabd(buf: &mut CodeBuf, rd: u8, rn: u8, rm: u8, sz: bool)
    ensures
        final(buf)@ == old(buf)@ + fabd_bytes(rd, rn, rm, sz),
{
    let ghost start = buf@;
    if sz {
        buf.movq_load(0, RBX, vslot(rn));
        buf.movq_load(1, RBX, vslot(rm));
        buf.subsd(0, 1);
        buf.movq_r64_xmm(RDX, 0);
        buf.mov_ri64(RDI, 0x7fff_ffff_ffff_ffff);
        buf.and_rr64(RDX, RDI);  // clear bit 63
        buf.movq_xmm_r64(0, RDX);
        buf.movq_store(RBX, vslot(rd), 0);
    } else {
        buf.mov_load32(RAX, RBX, vslot(rn));
        buf.movd_xmm_r32(0, RAX);
        buf.mov_load32(RAX, RBX, vslot(rm));
        buf.movd_xmm_r32(1, RAX);
        buf.b(0xF3);
        buf.b(0x0F);
        buf.b(0x5C);
        buf.b(0xC1);  // subss xmm0, xmm1
        buf.movd_r32_xmm(RAX, 0);
        buf.mov_ri64(RCX, 0x7fff_ffff);
        buf.and_rr64(RAX, RCX);  // clear bit 31
        buf.mov_store32(RBX, vslot(rd), RAX);
    }
    proof {
        assert(buf@ =~= start + fabd_bytes(rd, rn, rm, sz));
    }
}

/// FMAX/FMIN (`op` 4, 6 take the maximum; the others the minimum) with
/// `maxsd`/`minsd` or `maxss`/`minss`.
pub open spec fn fmaxmin_bytes(rd: u8, rn: u8, rm: u8, sz: bool, op: u8) -> Seq<u8> {
    let opc: u8 = if op == 4 || op == 6 { 0x5F } else { 0x5D };
    if sz {
        ld_d(0, rn) + ld_d(1, rm) + enc_sse_rex_rr(0xF2, opc, 0, 1) + st_d(rd, 0)
    } else {
        ld_s(rn) + movd_to_x(0, RAX) + ld_s(rm) + movd_to_x(1, RAX) + enc_sse_rex_rr(0xF3, opc, 0, 1)
            + movd_from_x(RAX, 0) + st_s(rd)
    }
}

#[verifier::spinoff_prover]
pub(crate) fn translate_fmaxmin(buf: &mut CodeBuf, rd: u8, rn: u8, rm: u8, sz: bool, op: u8)
    ensures
        final(buf)@ == old(buf)@ + fmaxmin_bytes(rd, rn, rm, sz, op),
{
    let ghost start = buf@;
    let is_max = op == 4 || op == 6;
    if sz {
        buf.movq_load(0, RBX, vslot(rn));
        buf.movq_load(1, RBX, vslot(rm));
        if is_max {
            buf.maxsd(0, 1);
        } else {
            buf.minsd(0, 1);
        }
        buf.movq_store(RBX, vslot(rd), 0);
    } else {
        buf.mov_load32(RAX, RBX, vslot(rn));
        buf.movd_xmm_r32(0, RAX);
        buf.mov_load32(RAX, RBX, vslot(rm));
        buf.movd_xmm_r32(1, RAX);
        if is_max {
            buf.maxss(0, 1);
        } else {
            buf.minss(0, 1);
        }
        buf.movd_r32_xmm(RAX, 0);
        buf.mov_store32(RBX, vslot(rd), RAX);
    }
    proof {
        assert(buf@ =~= start + fmaxmin_bytes(rd, rn, rm, sz, op));
    }
}

/// FMUL/FNMUL (scalar): the product, its sign flipped through XMM1 for
/// FNMUL; singles pass through ECX.
pub open spec fn fmul_scalar_bytes(rd: u8, rn: u8, rm: u8, double: bool, neg: bool) -> Seq<u8> {
    if double {
        ld_d(0, rn) + ld_d(1, rm) + enc_sse_rr(0xF2, 0x59, 0, 1) + if neg {
            enc_mov_ri64(RCX, 0x8000_0000_0000_0000) + movq_to_x(1, RCX) + enc_sse_rr(0x66, 0xEF, 0, 1)
        } else {
            Seq::empty()
        } + st_d(rd, 0)
    } else {
        enc_mov_load32(RCX, RBX, vslot_of(rn)) + movd_to_x(0, RCX) + enc_mov_load32(
            RCX,
            RBX,
            vslot_of(rm),
        ) + movd_to_x(1, RCX) + enc_sse_rr(0xF3, 0x59, 0, 1) + if neg {
            enc_mov_ri64(RCX, 0x8000_0000) + movd_to_x(1, RCX) + enc_sse_rr(0x66, 0xEF, 0, 1)
        } else {
            Seq::empty()
        } + movd_from_x(RCX, 0) + enc_mov_store32(RBX, vslot_of(rd), RCX)
    }
}

#[verifier::spinoff_prover]
pub(crate) fn translate_fmul_scalar(buf: &mut CodeBuf, rd: u8, rn: u8, rm: u8, double: bool, neg: bool)
    ensures
        final(buf)@ == old(buf)@ + fmul_scalar_bytes(rd, rn, rm, double, neg),
{
    let ghost start = buf@;
    if double {
        buf.movq_load(0, RBX, vslot(rn));
        buf.movq_load(1, RBX, vslot(rm));
        buf.mulsd(0, 1);
        let ghost mid = buf@;
        if neg {
            buf.mov_ri64(RCX, 0x8000_0000_0000_0000);
            buf.movq_xmm_r64(1, RCX);
            buf.pxor_xmm(0, 1);
        }
        let ghost mid2 = buf@;
        buf.movq_store(RBX, vslot(rd), 0);
        proof {
            let n = if neg {
                enc_mov_ri64(RCX, 0x8000_0000_0000_0000) + movq_to_x(1, RCX) + enc_sse_rr(
                    0x66,
                    0xEF,
                    0,
                    1,
                )
            } else {
                Seq::empty()
            };
            assert(mid2 =~= mid + n);
        }
    } else {
        buf.mov_load32(RCX, RBX, vslot(rn));
        buf.movd_xmm_r32(0, RCX);
        buf.mov_load32(RCX, RBX, vslot(rm));
        buf.movd_xmm_r32(1, RCX);
        buf.mulss(0, 1);
        let ghost mid = buf@;
        if neg {
            buf.mov_ri64(RCX, 0x8000_0000);
            buf.movd_xmm_r32(1, RCX);
            buf.pxor_xmm(0, 1);
        }
        let ghost mid2 = buf@;
        buf.movd_r32_xmm(RCX, 0);
        buf.mov_store32(RBX, vslot(rd), RCX);
        proof {
            let n = if neg {
                enc_mov_ri64(RCX, 0x8000_0000) + movd_to_x(1, RCX) + enc_sse_rr(0x66, 0xEF, 0, 1)
            } else {
                Seq::empty()
            };
            assert(mid2 =~= mid + n);
        }
    }
    proof {
        assert(buf@ =~= start + fmul_scalar_bytes(rd, rn, rm, double, neg));
    }
}

/// FCVT between single and double: widen with `cvtss2sd` (`to_d`) or narrow
/// with `cvtsd2ss`.
pub open spec fn fcvt_bytes(to_d: bool, rd: u8, rn: u8) -> Seq<u8> {
    if to_d {
        ld_s(rn) + movd_to_x(0, RAX) + enc_sse_rr(0xF3, 0x5A, 0, 0) + st_d(rd, 0)
    } else {
        ld_d(0, rn) + enc_sse_rr(0xF2, 0x5A, 0, 0) + movd_from_x(RAX, 0) + st_s(rd)
    }
}

#[verifier::spinoff_prover]
pub(crate) fn translate_fcvt(buf: &mut CodeBuf, to_d: bool, rd: u8, rn: u8)
    ensures
        final(buf)@ == old(buf)@ + fcvt_bytes(to_d, rd, rn),
{
    let ghost start = buf@;
    if to_d {
        buf.mov_load32(RAX, RBX, vslot(rn));
        buf.movd_xmm_r32(0, RAX);
        buf.cvtss2sd(0, 0);
        buf.movq_store(RBX, vslot(rd), 0);
    } else {
        buf.movq_load(0, RBX, vslot(rn));
        buf.cvtsd2ss(0, 0);
        buf.movd_r32_xmm(RAX, 0);
        buf.mov_store32(RBX, vslot(rd), RAX);
    }
    proof {
        assert(buf@ =~= start + fcvt_bytes(to_d, rd, rn));
    }
}

/// `vcvtph2ps xmm0, xmm0` (F16C): the half in XMM0's low 16 bits to single.
pub open spec fn ph2ps0() -> Seq<u8> {
    seq![0xC4u8, 0xE2u8, 0x79u8, 0x13u8, 0xC0u8]
}

/// `vcvtps2ph xmm0, xmm0, 0` (F16C): XMM0's single to half, to nearest.
pub open spec fn ps2ph0() -> Seq<u8> {
    seq![0xC4u8, 0xE3u8, 0x79u8, 0x1Du8, 0xC0u8, 0x00u8]
}

/// FCVT with a half: `op` 0 H to S, 1 S to H, 2 H to D, 3 D to H; nothing
/// for another `op`.
pub open spec fn fcvt_half_bytes(rd: u8, rn: u8, op: u8) -> Seq<u8> {
    if op == 0 {
        ld_s(rn) + movd_to_x(0, RAX) + ph2ps0() + movd_from_x(RAX, 0) + st_s(rd)
    } else if op == 1 {
        ld_s(rn) + movd_to_x(0, RAX) + ps2ph0() + movd_from_x(RAX, 0) + st_s(rd)
    } else if op == 2 {
        ld_s(rn) + movd_to_x(0, RAX) + ph2ps0() + enc_sse_rr(0xF3, 0x5A, 0, 0) + st_d(rd, 0)
    } else if op == 3 {
        ld_d(0, rn) + enc_sse_rr(0xF2, 0x5A, 0, 0) + ps2ph0() + movd_from_x(RAX, 0) + st_s(rd)
    } else {
        Seq::empty()
    }
}

#[verifier::spinoff_prover]
fn ph2ps(buf: &mut CodeBuf)
    ensures
        final(buf)@ == old(buf)@ + ph2ps0(),
{
    let ghost start = buf@;
    buf.b(0xC4);
    buf.b(0xE2);
    buf.b(0x79);
    buf.b(0x13);
    buf.b(0xC0);
    proof {
        assert(buf@ =~= start + ph2ps0());
    }
}

#[verifier::spinoff_prover]
fn ps2ph(buf: &mut CodeBuf)
    ensures
        final(buf)@ == old(buf)@ + ps2ph0(),
{
    let ghost start = buf@;
    buf.b(0xC4);
    buf.b(0xE3);
    buf.b(0x79);
    buf.b(0x1D);
    buf.b(0xC0);
    buf.b(0x00);  // round to nearest
    proof {
        assert(buf@ =~= start + ps2ph0());
    }
}

#[verifier::spinoff_prover]
pub(crate) fn translate_fcvt_half(buf: &mut CodeBuf, rd: u8, rn: u8, op: u8) -> (r: Result<
    (),
    String,
>)
    ensures
        r is Ok <==> op <= 3,
        final(buf)@ == old(buf)@ + fcvt_half_bytes(rd, rn, op),
        r matches Err(e) ==> e@ == "FcvtHalf: bad op "@ + decimal(op as nat),
{
    let ghost start = buf@;
    if op == 0 || op == 1 || op == 2 {
        buf.mov_load32(RAX, RBX, vslot(rn));
        buf.movd_xmm_r32(0, RAX);
        if op == 1 {
            ps2ph(buf);
        } else {
            ph2ps(buf);
        }
        if op == 2 {
            buf.cvtss2sd(0, 0);
            buf.movq_store(RBX, vslot(rd), 0);
        } else {
            buf.movd_r32_xmm(RAX, 0);
            buf.mov_store32(RBX, vslot(rd), RAX);
        }
    } else if op == 3 {
        buf.movq_load(0, RBX, vslot(rn));
        buf.cvtsd2ss(0, 0);
        ps2ph(buf);
        buf.movd_r32_xmm(RAX, 0);
        buf.mov_store32(RBX, vslot(rd), RAX);
    } else {
        proof {
            assert(buf@ =~= start + fcvt_half_bytes(rd, rn, op));
            reveal_strlit("");
        }
        return Err(decimal_msg("FcvtHalf: bad op ", op, ""));
    }
    proof {
        assert(buf@ =~= start + fcvt_half_bytes(rd, rn, op));
    }
    Ok(())
}

/// `jcc rel32` with the displacement `d`.
pub open spec fn jcc_d(cc: u8, d: u32) -> Seq<u8> {
    seq![0x0Fu8, cc] + le32(d)
}

/// `jmp rel32` with the displacement `d`.
pub open spec fn jmp_d(d: u32) -> Seq<u8> {
    seq![0xE9u8] + le32(d)
}

#[verifier::spinoff_prover]
pub(crate) fn jcc_to(buf: &mut CodeBuf, cc: u8, d: u32)
    ensures
        final(buf)@ == old(buf)@ + jcc_d(cc, d),
{
    let ghost start = buf@;
    buf.b(0x0F);
    buf.b(cc);
    buf.u32(d);
    proof {
        assert(buf@ =~= start + jcc_d(cc, d));
    }
}

#[verifier::spinoff_prover]
pub(crate) fn jmp_to(buf: &mut CodeBuf, d: u32)
    ensures
        final(buf)@ == old(buf)@ + jmp_d(d),
{
    let ghost start = buf@;
    buf.b(0xE9);
    buf.u32(d);
    proof {
        assert(buf@ =~= start + jmp_d(d));
    }
}

/// `test r, r`
pub open spec fn test_r(r: u8) -> Seq<u8> {
    enc_binop(0x85, r, r)
}

/// The `+2^64` adjustment of `cvtsi2sd xmm0, rdx` for an unsigned source:
/// `jns` over it when bit 63 of RDX is clear.
pub open spec fn u64_fix_tail() -> Seq<u8> {
    enc_mov_ri64(RCX, 0x43f0_0000_0000_0000) + movq_to_x(1, RCX) + enc_sse_rr(0xF2, 0x58, 0, 1)
}

/// `test rdx, rdx; jns` over `u64_fix_tail`, then the tail.
pub open spec fn u64_fix_bytes() -> Seq<u8> {
    test_r(RDX) + jcc_d(0x89, u64_fix_tail().len() as u32) + u64_fix_tail()
}

#[verifier::spinoff_prover]
fn u64_fix(buf: &mut CodeBuf)
    ensures
        final(buf)@ == old(buf)@ + u64_fix_bytes(),
{
    let ghost start = buf@;
    buf.test_rr64(RDX, RDX);
    proof {
        assert(u64_fix_tail().len() == 19);
    }
    jcc_to(buf, 0x89, 19);  // JNS: no adjustment below 2^63
    buf.mov_ri64(RCX, 0x43f0_0000_0000_0000);  // 2^64 as a double
    buf.movq_xmm_r64(1, RCX);
    buf.addsd(0, 1);
    proof {
        assert(buf@ =~= start + u64_fix_bytes());
    }
}

/// Which XMM register holds the FMADD-family result.
pub open spec fn fma_result(sub: bool, neg: bool) -> u8 {
    if sub && neg {
        0
    } else if neg {
        3
    } else {
        2
    }
}

/// The FMADD-family combination of the product in XMM0 and `ra` in XMM2
/// (`prefix` F2 for doubles, F3 for singles): FMADD `ra + p`, FMSUB
/// `ra - p`, FNMADD `0 - (ra + p)`, FNMSUB `p - ra`.
pub open spec fn fma_tail(prefix: u8, sub: bool, neg: bool) -> Seq<u8> {
    if !neg {
        enc_sse_rr(prefix, if sub { 0x5C } else { 0x58 }, 2, 0)
    } else if !sub {
        enc_sse_rr(prefix, 0x58, 2, 0) + enc_sse_rr(0x66, 0xEF, 3, 3) + enc_sse_rr(prefix, 0x5C, 3, 2)
    } else {
        enc_sse_rr(prefix, 0x5C, 0, 2)
    }
}

/// FMADD/FMSUB/FNMADD/FNMSUB (scalar): `rn * rm` in XMM0, `ra` in XMM2, the
/// combination, the result stored; for singles the operands pass through
/// EAX (FNMSUB reloads XMM2 from EAX, which still holds `ra`).
pub open spec fn fma3_bytes(rd: u8, rn: u8, rm: u8, ra: u8, sz: bool, sub: bool, neg: bool) -> Seq<u8> {
    if sz {
        fma3_d_bytes(rd, rn, rm, ra, sub, neg)
    } else {
        fma3_s_bytes(rd, rn, rm, ra, sub, neg)
    }
}

/// The bytes `b` when `c` holds, else nothing.
pub open spec fn opt_bytes(c: bool, b: Seq<u8>) -> Seq<u8> {
    if c {
        b
    } else {
        Seq::empty()
    }
}

#[verifier::spinoff_prover]
fn fma_combine(buf: &mut CodeBuf, double: bool, sub: bool, neg: bool)
    ensures
        final(buf)@ == old(buf)@ + fma_tail(if double { 0xF2 } else { 0xF3 }, sub, neg),
{
    let ghost start = buf@;
    if !neg {
        if sub {
            if double {
                buf.subsd(2, 0);  // ra - p
            } else {
                buf.subss(2, 0);
            }
        } else if double {
            buf.addsd(2, 0);  // ra + p
        } else {
            buf.addss(2, 0);
        }
    } else if !sub {
        // -(ra + p) as 0 - (ra + p)
        if double {
            buf.addsd(2, 0);
            buf.pxor_xmm(3, 3);
            buf.subsd(3, 2);
        } else {
            buf.addss(2, 0);
            buf.pxor_xmm(3, 3);
            buf.subss(3, 2);
        }
    } else if double {
        buf.subsd(0, 2);  // p - ra
    } else {
        buf.subss(0, 2);
    }
    proof {
        assert(buf@ =~= start + fma_tail(if double { 0xF2 } else { 0xF3 }, sub, neg));
    }
}

#[verifier::spinoff_prover]
fn fma_result_exec(sub: bool, neg: bool) -> (r: u8)
    ensures
        r == fma_result(sub, neg),
{
    if sub && neg {
        0
    } else if neg {
        3
    } else {
        2
    }
}

/// The double half of `fma3_bytes`.
pub open spec fn fma3_d_bytes(rd: u8, rn: u8, rm: u8, ra: u8, sub: bool, neg: bool) -> Seq<u8> {
    ld_d(0, rn) + ld_d(1, rm) + enc_sse_rr(0xF2, 0x59, 0, 1) + ld_d(2, ra) + fma_tail(0xF2, sub, neg)
        + st_d(rd, fma_result(sub, neg))
}

/// The single half of `fma3_bytes`.
pub open spec fn fma3_s_bytes(rd: u8, rn: u8, rm: u8, ra: u8, sub: bool, neg: bool) -> Seq<u8> {
    ld_s(rn) + movd_to_x(0, RAX) + ld_s(rm) + movd_to_x(1, RAX) + enc_sse_rr(0xF3, 0x59, 0, 1) + ld_s(ra)
        + movd_to_x(2, RAX) + opt_bytes(sub && neg, movd_to_x(2, RAX)) + fma_tail(0xF3, sub, neg)
        + movd_from_x(RAX, fma_result(sub, neg)) + st_s(rd)
}

#[verifier::spinoff_prover]
fn fma3_d(buf: &mut CodeBuf, rd: u8, rn: u8, rm: u8, ra: u8, sub: bool, neg: bool)
    ensures
        final(buf)@ == old(buf)@ + fma3_d_bytes(rd, rn, rm, ra, sub, neg),
{
    let ghost start = buf@;
    let result = fma_result_exec(sub, neg);
    buf.movq_load(0, RBX, vslot(rn));
    buf.movq_load(1, RBX, vslot(rm));
    buf.mulsd(0, 1);  // the product
    buf.movq_load(2, RBX, vslot(ra));
    fma_combine(buf, true, sub, neg);
    buf.movq_store(RBX, vslot(rd), result);
    proof {
        assert(buf@ =~= start + fma3_d_bytes(rd, rn, rm, ra, sub, neg));
    }
}

#[verifier::spinoff_prover]
fn fma3_s(buf: &mut CodeBuf, rd: u8, rn: u8, rm: u8, ra: u8, sub: bool, neg: bool)
    ensures
        final(buf)@ == old(buf)@ + fma3_s_bytes(rd, rn, rm, ra, sub, neg),
{
    let ghost start = buf@;
    let result = fma_result_exec(sub, neg);
    buf.mov_load32(RAX, RBX, vslot(rn));
    buf.movd_xmm_r32(0, RAX);
    buf.mov_load32(RAX, RBX, vslot(rm));
    buf.movd_xmm_r32(1, RAX);
    buf.mulss(0, 1);
    buf.mov_load32(RAX, RBX, vslot(ra));
    buf.movd_xmm_r32(2, RAX);
    let ghost mid = buf@;
    if sub && neg {
        buf.movd_xmm_r32(2, RAX);  // EAX still holds ra
    }
    let ghost mid2 = buf@;
    fma_combine(buf, false, sub, neg);
    buf.movd_r32_xmm(RAX, result);
    buf.mov_store32(RBX, vslot(rd), RAX);
    proof {
        assert(mid2 =~= mid + opt_bytes(sub && neg, movd_to_x(2, RAX)));
        assert(buf@ =~= start + fma3_s_bytes(rd, rn, rm, ra, sub, neg));
    }
}

#[verifier::spinoff_prover]
pub(crate) fn translate_fma3(buf: &mut CodeBuf, rd: u8, rn: u8, rm: u8, ra: u8, sz: bool, sub: bool, neg: bool)
    ensures
        final(buf)@ == old(buf)@ + fma3_bytes(rd, rn, rm, ra, sz, sub, neg),
{
    let ghost start = buf@;
    if sz {
        fma3_d(buf, rd, rn, rm, ra, sub, neg);
    } else {
        fma3_s(buf, rd, rn, rm, ra, sub, neg);
    }
    proof {
        assert(buf@ =~= start + fma3_bytes(rd, rn, rm, ra, sz, sub, neg));
    }
}

/// `cvttsd2si rax, xmm0`
pub open spec fn cvtt_rax() -> Seq<u8> {
    enc_cvtsd2si(0x2C, RAX, 0)
}

/// `xor rcx, rcx; test rax, rax; cmovs rax, rcx`: a negative RAX becomes 0.
pub open spec fn clamp_neg_bytes() -> Seq<u8> {
    enc_binop(0x31, RCX, RCX) + test_r(RAX) + enc_cmov_rr64(0x48, RAX, RCX)
}

#[verifier::spinoff_prover]
fn clamp_neg(buf: &mut CodeBuf)
    ensures
        final(buf)@ == old(buf)@ + clamp_neg_bytes(),
{
    let ghost start = buf@;
    buf.xor_rr64(RCX, RCX);
    buf.test_rr64(RAX, RAX);
    buf.cmov_rr64(0x48, RAX, RCX);  // cmovs
    proof {
        assert(buf@ =~= start + clamp_neg_bytes());
    }
}

/// FCVTZS/FCVTZU (scalar, to an FP register): the truncated integer of the
/// double or single, negatives clamped to 0 for FCVTZU, stored as 64 or 32
/// bits.
pub open spec fn fcvt_tz_reg_bytes(rd: u8, rn: u8, dbl: bool, unsigned: bool) -> Seq<u8> {
    (if dbl {
        ld_d(0, rn) + cvtt_rax()
    } else {
        ld_s(rn) + movd_to_x(0, RAX) + enc_sse_rr(0xF3, 0x5A, 0, 0) + cvtt_rax()
    }) + opt_bytes(
        unsigned,
        enc_mov_ri64(RCX, 0) + test_r(RAX) + enc_cmov_rr64(0x48, RAX, RCX),
    ) + if dbl {
        enc_mov_store64(RBX, vslot_of(rd), RAX)
    } else {
        st_s(rd)
    }
}

#[verifier::spinoff_prover]
pub(crate) fn translate_fcvt_tz_reg(buf: &mut CodeBuf, rd: u8, rn: u8, dbl: bool, unsigned: bool)
    ensures
        final(buf)@ == old(buf)@ + fcvt_tz_reg_bytes(rd, rn, dbl, unsigned),
{
    let ghost start = buf@;
    if dbl {
        buf.movq_load(0, RBX, vslot(rn));
        buf.cvttsd2si(RAX, 0);
    } else {
        buf.mov_load32(RAX, RBX, vslot(rn));
        buf.movd_xmm_r32(0, RAX);
        buf.cvtss2sd(0, 0);
        buf.cvttsd2si(RAX, 0);
    }
    let ghost p1 = buf@;
    if unsigned {
        // a negative result clamps to 0
        buf.mov_ri64(RCX, 0);
        buf.test_rr64(RAX, RAX);
        buf.cmov_rr64(0x48, RAX, RCX);
    }
    let ghost p2 = buf@;
    if dbl {
        buf.mov_store64(RBX, vslot(rd), RAX);
    } else {
        buf.mov_store32(RBX, vslot(rd), RAX);
    }
    proof {
        assert(p2 =~= p1 + opt_bytes(unsigned, enc_mov_ri64(RCX, 0) + test_r(RAX) + enc_cmov_rr64(0x48, RAX, RCX)));
        assert(buf@ =~= start + fcvt_tz_reg_bytes(rd, rn, dbl, unsigned));
    }
}

/// The double result in XMM0 stored to D`rd`, or narrowed and stored to
/// S`rd`.
pub open spec fn store_result_bytes(rd: u8, to_double: bool) -> Seq<u8> {
    if to_double {
        st_d(rd, 0)
    } else {
        enc_sse_rr(0xF2, 0x5A, 0, 0) + movd_from_x(RAX, 0) + st_s(rd)
    }
}

#[verifier::spinoff_prover]
fn store_result(buf: &mut CodeBuf, rd: u8, to_double: bool)
    ensures
        final(buf)@ == old(buf)@ + store_result_bytes(rd, to_double),
{
    let ghost start = buf@;
    if to_double {
        buf.movq_store(RBX, vslot(rd), 0);
    } else {
        buf.cvtsd2ss(0, 0);
        buf.movd_r32_xmm(RAX, 0);
        buf.mov_store32(RBX, vslot(rd), RAX);
    }
    proof {
        assert(buf@ =~= start + store_result_bytes(rd, to_double));
    }
}

/// SCVTF/UCVTF from a general register: an unsigned 64-bit source through
/// RDX with the `+2^64` adjustment and the result narrowed for a single;
/// otherwise `cvtsi2sd`/`cvtsi2ss` of the 64- or 32-bit source in RAX.
pub open spec fn scvtf_bytes(rd: u8, rn: u8, to_double: bool, sf: bool, unsigned: bool) -> Seq<u8> {
    if unsigned && sf {
        ldg_bytes(RDX, rn) + enc_cvtsi2(0xF2, 0, true, RDX) + u64_fix_bytes() + store_result_bytes(
            rd,
            to_double,
        )
    } else if to_double {
        ldg_bytes(RAX, rn) + enc_cvtsi2(0xF2, 0, sf, RAX) + st_d(rd, 0)
    } else {
        ldg_bytes(RAX, rn) + enc_cvtsi2(0xF3, 0, sf, RAX) + movd_from_x(RAX, 0) + st_s(rd)
    }
}

#[verifier::spinoff_prover]
pub(crate) fn translate_scvtf(buf: &mut CodeBuf, rd: u8, rn: u8, to_double: bool, sf: bool, unsigned: bool)
    ensures
        final(buf)@ == old(buf)@ + scvtf_bytes(rd, rn, to_double, sf, unsigned),
{
    let ghost start = buf@;
    if unsigned && sf {
        ldg(buf, RDX, rn as u32);
        buf.cvtsi2sd(0, true, RDX);  // as a signed value
        u64_fix(buf);
        store_result(buf, rd, to_double);
    } else {
        ldg(buf, RAX, rn as u32);
        if to_double {
            buf.cvtsi2sd(0, sf, RAX);
            buf.movq_store(RBX, vslot(rd), 0);
        } else {
            buf.cvtsi2ss(0, sf, RAX);
            buf.movd_r32_xmm(RAX, 0);
            buf.mov_store32(RBX, vslot(rd), RAX);
        }
    }
    proof {
        assert(buf@ =~= start + scvtf_bytes(rd, rn, to_double, sf, unsigned));
    }
}

/// The bit pattern of the double `2^fbits`.
pub open spec fn pow2_double(fbits: u8) -> u64 {
    ((1023 + fbits) as u64) << 52u64
}

#[verifier::spinoff_prover]
fn pow2_bits(fbits: u8) -> (v: u64)
    ensures
        v == pow2_double(fbits),
{
    (1023 + fbits as u64) << 52
}

/// SCVTF/UCVTF with `fbits` fraction bits: the conversion (the unsigned
/// 64-bit source with the `+2^64` adjustment) divided by `2^fbits`.
pub open spec fn scvtf_fixed_bytes(rd: u8, rn: u8, to_double: bool, sf: bool, unsigned: bool, fbits: u8) -> Seq<u8> {
    ldg_bytes(RAX, rn) + (if unsigned && sf {
        ldg_bytes(RDX, rn) + enc_cvtsi2(0xF2, 0, true, RDX) + u64_fix_bytes()
    } else {
        enc_cvtsi2(0xF2, 0, sf, RAX)
    }) + enc_mov_ri64(RCX, pow2_double(fbits)) + movq_to_x(1, RCX) + enc_sse_rr(0xF2, 0x5E, 0, 1)
        + store_result_bytes(rd, to_double)
}

#[verifier::spinoff_prover]
pub(crate) fn translate_scvtf_fixed(
    buf: &mut CodeBuf,
    rd: u8,
    rn: u8,
    to_double: bool,
    sf: bool,
    unsigned: bool,
    fbits: u8,
)
    ensures
        final(buf)@ == old(buf)@ + scvtf_fixed_bytes(rd, rn, to_double, sf, unsigned, fbits),
{
    let ghost start = buf@;
    ldg(buf, RAX, rn as u32);
    let ghost p1 = buf@;
    if unsigned && sf {
        ldg(buf, RDX, rn as u32);
        buf.cvtsi2sd(0, true, RDX);
        u64_fix(buf);
    } else {
        buf.cvtsi2sd(0, sf, RAX);
    }
    let ghost p2 = buf@;
    buf.mov_ri64(RCX, pow2_bits(fbits));  // 2^fbits
    buf.movq_xmm_r64(1, RCX);
    buf.divsd(0, 1);
    store_result(buf, rd, to_double);
    proof {
        let mid = if unsigned && sf {
            ldg_bytes(RDX, rn) + enc_cvtsi2(0xF2, 0, true, RDX) + u64_fix_bytes()
        } else {
            enc_cvtsi2(0xF2, 0, sf, RAX)
        };
        assert(p2 =~= p1 + mid);
        assert(buf@ =~= start + scvtf_fixed_bytes(rd, rn, to_double, sf, unsigned, fbits));
    }
}

/// UCVTF (`unsigned`) or SCVTF between FP registers: the low 32 bits of S`rn`
/// (zero-extended for UCVTF, signed for SCVTF) to a single through ECX, or
/// the 64 bits of D`rn` to a double (UCVTF with the `+2^64` adjustment).
pub open spec fn scalar_cvtf_bytes(rd: u8, rn: u8, sng: bool, unsigned: bool) -> Seq<u8> {
    if sng {
        ld_s(rn) + enc_cvtsi2(0xF3, 0, unsigned, RAX) + movd_from_x(RCX, 0) + enc_mov_store32(
            RBX,
            vslot_of(rd),
            RCX,
        )
    } else {
        enc_mov_load64(RDX, RBX, vslot_of(rn)) + enc_cvtsi2(0xF2, 0, true, RDX) + opt_bytes(
            unsigned,
            u64_fix_bytes(),
        ) + st_d(rd, 0)
    }
}

#[verifier::spinoff_prover]
pub(crate) fn translate_scalar_cvtf(buf: &mut CodeBuf, rd: u8, rn: u8, sng: bool, unsigned: bool)
    ensures
        final(buf)@ == old(buf)@ + scalar_cvtf_bytes(rd, rn, sng, unsigned),
{
    let ghost start = buf@;
    if sng {
        buf.mov_load32(RAX, RBX, vslot(rn));
        // a u32 converts exactly as the zero-extended i64
        buf.cvtsi2ss(0, unsigned, RAX);
        buf.movd_r32_xmm(RCX, 0);
        buf.mov_store32(RBX, vslot(rd), RCX);
    } else {
        buf.mov_load64(RDX, RBX, vslot(rn));
        buf.cvtsi2sd(0, true, RDX);
        let ghost mid = buf@;
        if unsigned {
            u64_fix(buf);
        }
        let ghost mid2 = buf@;
        buf.movq_store(RBX, vslot(rd), 0);
        proof {
            assert(mid2 =~= mid + opt_bytes(unsigned, u64_fix_bytes()));
        }
    }
    proof {
        assert(buf@ =~= start + scalar_cvtf_bytes(rd, rn, sng, unsigned));
    }
}

/// FMAXP/FMINP (scalar pairwise): the two elements of V`rn` reduced with
/// `maxsd`/`minsd` (`sz`) or `maxss`/`minss`.
pub open spec fn fp_pair_bytes(rd: u8, rn: u8, sz: bool, min: bool) -> Seq<u8> {
    let opc: u8 = if min { 0x5D } else { 0x5F };
    if sz {
        ld_d(0, rn) + enc_movq_load(1, RBX, (vslot_of(rn) + 8) as i32) + enc_sse_rex_rr(0xF2, opc, 0, 1)
            + st_d(rd, 0)
    } else {
        ld_s(rn) + movd_to_x(0, RAX) + enc_mov_load32(RAX, RBX, (vslot_of(rn) + 4) as i32) + movd_to_x(
            1,
            RAX,
        ) + enc_sse_rex_rr(0xF3, opc, 0, 1) + movd_from_x(RAX, 0) + st_s(rd)
    }
}

#[verifier::spinoff_prover]
pub(crate) fn translate_fp_pair(buf: &mut CodeBuf, rd: u8, rn: u8, sz: bool, min: bool)
    ensures
        final(buf)@ == old(buf)@ + fp_pair_bytes(rd, rn, sz, min),
{
    let ghost start = buf@;
    if sz {
        buf.movq_load(0, RBX, vslot(rn));
        buf.movq_load(1, RBX, vslot(rn) + 8);
        if min {
            buf.minsd(0, 1);
        } else {
            buf.maxsd(0, 1);
        }
        buf.movq_store(RBX, vslot(rd), 0);
    } else {
        buf.mov_load32(RAX, RBX, vslot(rn));
        buf.movd_xmm_r32(0, RAX);
        buf.mov_load32(RAX, RBX, vslot(rn) + 4);
        buf.movd_xmm_r32(1, RAX);
        if min {
            buf.minss(0, 1);
        } else {
            buf.maxss(0, 1);
        }
        buf.movd_r32_xmm(RAX, 0);
        buf.mov_store32(RBX, vslot(rd), RAX);
    }
    proof {
        assert(buf@ =~= start + fp_pair_bytes(rd, rn, sz, min));
    }
}

/// `mov rcx, 2^63 (as an integer); add rax, rcx`
pub open spec fn add63_bytes() -> Seq<u8> {
    enc_mov_ri64(RCX, 0x8000_0000_0000_0000) + enc_binop(0x01, RAX, RCX)
}

/// The path of FCVTZU below `2^63`: the signed truncation, negatives to 0.
pub open spec fn fcvtzu_small() -> Seq<u8> {
    cvtt_rax() + clamp_neg_bytes()
}

/// The clamp of FCVTZU at or past `2^64`: `u64::MAX`, then over the small
/// path.
pub open spec fn fcvtzu_max() -> Seq<u8> {
    enc_mov_ri64(RAX, u64::MAX) + jmp_d(fcvtzu_small().len() as u32)
}

/// The path of FCVTZU at or past `2^63`: `2^63 + trunc(d - 2^63)`, or a
/// jump to the clamp when that truncation overflows (`js`), then over the
/// clamp and the small path.
pub open spec fn fcvtzu_big() -> Seq<u8> {
    enc_sse_rr(0xF2, 0x5C, 0, 1) + cvtt_rax() + test_r(RAX) + jcc_d(0x88, (add63_bytes().len() + 5) as u32)
        + add63_bytes() + jmp_d((fcvtzu_max().len() + fcvtzu_small().len()) as u32)
}

/// FCVTZU of the double in XMM0 to RAX over all of `[0, 2^64)`: compare
/// with `2^63` (in XMM1) and `jb` to the small path past the big path and
/// the clamp.
pub open spec fn fcvtzu_bytes() -> Seq<u8> {
    enc_mov_ri64(RCX, 0x43e0_0000_0000_0000) + movq_to_x(1, RCX) + enc_sse_rex_rr(0x66, 0x2F, 0, 1)
        + jcc_d(0x82, (fcvtzu_big().len() + fcvtzu_max().len()) as u32) + fcvtzu_big() + fcvtzu_max()
        + fcvtzu_small()
}

#[verifier::spinoff_prover]
fn fcvtzu(buf: &mut CodeBuf)
    ensures
        final(buf)@ == old(buf)@ + fcvtzu_bytes(),
{
    let ghost start = buf@;
    proof {
        assert(add63_bytes().len() == 13);
        assert(fcvtzu_small().len() == 15);
        assert(fcvtzu_max().len() == 15);
        assert(fcvtzu_big().len() == 36);
    }
    buf.mov_ri64(RCX, 0x43e0_0000_0000_0000);  // 2^63 as a double
    buf.movq_xmm_r64(1, RCX);
    buf.comisd(0, 1);  // CF: d < 2^63
    jcc_to(buf, 0x82, 51);  // JB to the small path
    // d >= 2^63
    buf.subsd(0, 1);
    buf.cvttsd2si(RAX, 0);  // INT64_MIN when d >= 2^64
    buf.test_rr64(RAX, RAX);
    jcc_to(buf, 0x88, 18);  // JS to the clamp
    buf.mov_ri64(RCX, 0x8000_0000_0000_0000);
    buf.add_rr64(RAX, RCX);  // 2^63 + (d - 2^63)
    jmp_to(buf, 30);  // done
    // the clamp: d >= 2^64
    buf.mov_ri64(RAX, 0xffff_ffff_ffff_ffff);
    jmp_to(buf, 15);  // done
    // d < 2^63
    buf.cvttsd2si(RAX, 0);
    clamp_neg(buf);
    proof {
        assert(buf@ =~= start + fcvtzu_bytes());
    }
}

/// The rounding and conversion of FCVT{A,P,M,Z}{S,U} from the double in
/// XMM0 to RAX: `mode` 2 to nearest (FCVTAU rounds first, then
/// truncates), 3 toward +inf and 4 toward -inf (rounded, truncated,
/// negatives clamped for the unsigned forms), else toward zero.
pub open spec fn fcvt_round_bytes(mode: u8, unsigned: bool) -> Seq<u8> {
    if mode == 2 {
        if unsigned {
            enc_roundsd(0, 0, 0) + cvtt_rax()
        } else {
            enc_cvtsd2si(0x2D, RAX, 0)
        }
    } else if mode == 3 || mode == 4 {
        enc_roundsd(0, 0, if mode == 3 { 2 } else { 1 }) + cvtt_rax() + opt_bytes(
            unsigned,
            clamp_neg_bytes(),
        )
    } else if unsigned {
        fcvtzu_bytes()
    } else {
        cvtt_rax()
    }
}

#[verifier::spinoff_prover]
fn fcvt_round(buf: &mut CodeBuf, mode: u8, unsigned: bool)
    ensures
        final(buf)@ == old(buf)@ + fcvt_round_bytes(mode, unsigned),
{
    let ghost start = buf@;
    if mode == 2 {
        if unsigned {
            buf.roundsd(0, 0, 0x00);
            buf.cvttsd2si(RAX, 0);
        } else {
            buf.cvtsd2si(RAX, 0);  // to nearest, ties to even
        }
    } else if mode == 3 || mode == 4 {
        buf.roundsd(0, 0, if mode == 3 { 0x02 } else { 0x01 });
        buf.cvttsd2si(RAX, 0);
        let ghost mid = buf@;
        if unsigned {
            clamp_neg(buf);
        }
        proof {
            assert(buf@ =~= mid + opt_bytes(unsigned, clamp_neg_bytes()));
        }
    } else if unsigned {
        fcvtzu(buf);
    } else {
        buf.cvttsd2si(RAX, 0);  // toward zero
    }
    proof {
        assert(buf@ =~= start + fcvt_round_bytes(mode, unsigned));
    }
}

/// The source of FCVT*S/FCVT*U as a double in XMM0 (a single widened).
pub open spec fn fcvt_src_bytes(rn: u8, src_sng: bool) -> Seq<u8> {
    if src_sng {
        ld_s(rn) + movd_to_x(0, RAX) + enc_sse_rr(0xF3, 0x5A, 0, 0)
    } else {
        ld_d(0, rn)
    }
}

#[verifier::spinoff_prover]
fn fcvt_src(buf: &mut CodeBuf, rn: u8, src_sng: bool)
    ensures
        final(buf)@ == old(buf)@ + fcvt_src_bytes(rn, src_sng),
{
    let ghost start = buf@;
    if src_sng {
        buf.mov_load32(RAX, RBX, vslot(rn));
        buf.movd_xmm_r32(0, RAX);
        buf.cvtss2sd(0, 0);
    } else {
        buf.movq_load(0, RBX, vslot(rn));
    }
    proof {
        assert(buf@ =~= start + fcvt_src_bytes(rn, src_sng));
    }
}

/// The fixed-point scale of FCVT*S/FCVT*U: XMM0 times `2^fbits`, nothing
/// for `fbits == 0`.
pub open spec fn fcvt_scale_bytes(fbits: u8) -> Seq<u8> {
    opt_bytes(
        fbits > 0,
        enc_mov_ri64(RAX, pow2_double(fbits)) + movq_to_x(1, RAX) + enc_sse_rr(0xF2, 0x59, 0, 1),
    )
}

#[verifier::spinoff_prover]
fn fcvt_scale(buf: &mut CodeBuf, fbits: u8)
    ensures
        final(buf)@ == old(buf)@ + fcvt_scale_bytes(fbits),
{
    let ghost start = buf@;
    if fbits > 0 {
        buf.mov_ri64(RAX, pow2_bits(fbits));
        buf.movq_xmm_r64(1, RAX);
        buf.mulsd(0, 1);
    }
    proof {
        assert(buf@ =~= start + fcvt_scale_bytes(fbits));
    }
}

/// FCVT*S/FCVT*U to a general register: the source as a double in XMM0
/// (a single widened), scaled by `2^fbits` for the fixed-point forms, the
/// rounding and conversion, and RAX stored unless `rd` is 31.
pub open spec fn fcvt_to_int_bytes(rd: u8, rn: u8, mode: u8, unsigned: bool, src_sng: bool, fbits: u8) -> Seq<u8> {
    fcvt_src_bytes(rn, src_sng) + fcvt_scale_bytes(fbits) + fcvt_round_bytes(mode, unsigned) + opt_bytes(
        rd != 31,
        stg_bytes(rd, RAX),
    )
}

#[verifier::spinoff_prover]
pub(crate) fn translate_fcvt_to_int(
    buf: &mut CodeBuf,
    rd: u8,
    rn: u8,
    mode: u8,
    unsigned: bool,
    src_sng: bool,
    fbits: u8,
)
    ensures
        final(buf)@ == old(buf)@ + fcvt_to_int_bytes(rd, rn, mode, unsigned, src_sng, fbits),
{
    let ghost start = buf@;
    fcvt_src(buf, rn, src_sng);
    fcvt_scale(buf, fbits);
    fcvt_round(buf, mode, unsigned);
    let ghost p3 = buf@;
    if rd != 31 {
        stg(buf, rd as u32, RAX);
    }
    proof {
        assert(buf@ =~= p3 + opt_bytes(rd != 31, stg_bytes(rd, RAX)));
        assert(buf@ =~= start + fcvt_to_int_bytes(rd, rn, mode, unsigned, src_sng, fbits));
    }
}

} // verus!
