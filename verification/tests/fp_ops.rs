use arm64jit::decode::Inst;
use arm64jit::translate::{load_nzcv_to_eflags, translate, Fixup, HostLinks, VECTOR_BASE};
use arm64jit::x86::{CodeBuf, RAX, RBX, RCX, RDX};

const HOST: HostLinks =
    HostLinks { svc_entry: 0, sha_entry: 0, svc_next_off: 0x900, redirect_off: 0x908, tpidr_off: 0x910, cntvct_off: 0x918 };

fn lower(inst: Inst) -> Result<Vec<u8>, String> {
    let mut buf = CodeBuf::new();
    let mut fixups: Vec<Fixup> = Vec::new();
    let r = translate(&mut buf, 0x1000, inst, &mut fixups, HOST);
    assert!(fixups.is_empty());
    r.map(|_| buf.as_slice().to_vec())
}

fn emit(f: impl FnOnce(&mut CodeBuf)) -> Vec<u8> {
    let mut buf = CodeBuf::new();
    f(&mut buf);
    buf.as_slice().to_vec()
}

fn slot(r: u8) -> i32 {
    VECTOR_BASE + r as i32 * 16
}

fn find(code: &[u8], pat: &[u8]) -> usize {
    code.windows(pat.len()).position(|w| w == pat).expect("pattern")
}

#[test]
fn fp_unary_double_and_single() {
    // fsqrt d1, d2
    assert_eq!(
        lower(Inst::FpUnary { rd: 1, rn: 2, op: 0, sz: true }).unwrap(),
        emit(|b| {
            b.movq_load(0, RBX, slot(2));
            b.sqrtsd(0, 0);
            b.movq_store(RBX, slot(1), 0);
        })
    );
    // fabs s1, s2 on the 32-bit pattern
    assert_eq!(
        lower(Inst::FpUnary { rd: 1, rn: 2, op: 5, sz: false }).unwrap(),
        emit(|b| {
            b.mov_load32(RAX, RBX, slot(2));
            b.mov_ri64(RCX, 0x7fff_ffff);
            b.and_rr64(RAX, RCX);
            b.mov_store32(RBX, slot(1), RAX);
        })
    );
    // frintz s1, s2 through a double
    assert_eq!(
        lower(Inst::FpUnary { rd: 1, rn: 2, op: 3, sz: false }).unwrap(),
        emit(|b| {
            b.mov_load32(RAX, RBX, slot(2));
            b.movd_xmm_r32(0, RAX);
            b.cvtss2sd(0, 0);
            b.roundsd(0, 0, 3);
            b.cvtsd2ss(0, 0);
            b.movd_r32_xmm(RAX, 0);
            b.mov_store32(RBX, slot(1), RAX);
        })
    );
    // frinta d0, d0 ends with the sign put back
    let code = lower(Inst::FpUnary { rd: 0, rn: 0, op: 7, sz: true }).unwrap();
    assert!(find(&code, &[0x66, 0x0F, 0xEF, 0xC2]) > 0);
    // op 4 is frintz on doubles
    assert!(find(&lower(Inst::FpUnary { rd: 0, rn: 0, op: 4, sz: true }).unwrap(), &[0x66, 0x0F, 0x3A, 0x0B]) > 0);
}

#[test]
fn fp_unary_refusals() {
    assert_eq!(
        lower(Inst::FpUnary { rd: 0, rn: 0, op: 10, sz: true }),
        Err("FpUnary op 10 not implemented".to_string())
    );
    assert_eq!(
        lower(Inst::FpUnary { rd: 0, rn: 0, op: 4, sz: false }),
        Err("FpUnary single ilp-4 not implemented".to_string())
    );
    assert_eq!(lower(Inst::FcvtHalf { rd: 0, rn: 0, op: 4 }), Err("FcvtHalf: bad op 4".to_string()));
    assert_eq!(
        lower(Inst::FpCondCompare { rn: 0, rm: 1, nzcv: 0, cond: 14, sz: true }),
        Err("Fccmp: bad cond 0xe".to_string())
    );
}

#[test]
fn fused_multiply_add_forms() {
    // fnmadd d3, d1, d2, d4 = -(d4 + d1*d2)
    assert_eq!(
        lower(Inst::Fma3 { rd: 3, rn: 1, rm: 2, ra: 4, sz: true, sub: false, neg: true }).unwrap(),
        emit(|b| {
            b.movq_load(0, RBX, slot(1));
            b.movq_load(1, RBX, slot(2));
            b.mulsd(0, 1);
            b.movq_load(2, RBX, slot(4));
            b.addsd(2, 0);
            b.pxor_xmm(3, 3);
            b.subsd(3, 2);
            b.movq_store(RBX, slot(3), 3);
        })
    );
    // fnmsub s3, s1, s2, s4 = s1*s2 - s4
    assert_eq!(
        lower(Inst::Fma3 { rd: 3, rn: 1, rm: 2, ra: 4, sz: false, sub: true, neg: true }).unwrap(),
        emit(|b| {
            b.mov_load32(RAX, RBX, slot(1));
            b.movd_xmm_r32(0, RAX);
            b.mov_load32(RAX, RBX, slot(2));
            b.movd_xmm_r32(1, RAX);
            b.mulss(0, 1);
            b.mov_load32(RAX, RBX, slot(4));
            b.movd_xmm_r32(2, RAX);
            b.movd_xmm_r32(2, RAX);
            b.subss(0, 2);
            b.movd_r32_xmm(RAX, 0);
            b.mov_store32(RBX, slot(3), RAX);
        })
    );
}

#[test]
fn fabd_max_min_and_multiply() {
    assert_eq!(
        lower(Inst::Fabd { rd: 0, rn: 1, rm: 2, sz: true }).unwrap(),
        emit(|b| {
            b.movq_load(0, RBX, slot(1));
            b.movq_load(1, RBX, slot(2));
            b.subsd(0, 1);
            b.movq_r64_xmm(RDX, 0);
            b.mov_ri64(7, 0x7fff_ffff_ffff_ffff);
            b.and_rr64(RDX, 7);
            b.movq_xmm_r64(0, RDX);
            b.movq_store(RBX, slot(0), 0);
        })
    );
    for (op, max) in [(4u8, true), (5, false), (6, true), (7, false)] {
        assert_eq!(
            lower(Inst::FMaxMin { rd: 0, rn: 1, rm: 2, sz: true, op }).unwrap(),
            emit(|b| {
                b.movq_load(0, RBX, slot(1));
                b.movq_load(1, RBX, slot(2));
                if max {
                    b.maxsd(0, 1);
                } else {
                    b.minsd(0, 1);
                }
                b.movq_store(RBX, slot(0), 0);
            })
        );
    }
    // fnmul d0, d1, d2 flips the sign of the product
    let code = lower(Inst::FmulScalar { rd: 0, rn: 1, rm: 2, double: true, neg: true }).unwrap();
    assert!(find(&code, &[0x48, 0xB9, 0, 0, 0, 0, 0, 0, 0, 0x80]) > 0);
    // fminp d0, v1.2d reads both halves of v1
    assert_eq!(
        lower(Inst::FpPair { rd: 0, rn: 1, sz: true, min: true, nm: false }).unwrap(),
        emit(|b| {
            b.movq_load(0, RBX, slot(1));
            b.movq_load(1, RBX, slot(1) + 8);
            b.minsd(0, 1);
            b.movq_store(RBX, slot(0), 0);
        })
    );
}

#[test]
fn precision_conversions() {
    assert_eq!(
        lower(Inst::Fcvt { to_d: true, rd: 0, rn: 1 }).unwrap(),
        emit(|b| {
            b.mov_load32(RAX, RBX, slot(1));
            b.movd_xmm_r32(0, RAX);
            b.cvtss2sd(0, 0);
            b.movq_store(RBX, slot(0), 0);
        })
    );
    // fcvt h0, d1: narrow to single, then to half with vcvtps2ph
    let code = lower(Inst::FcvtHalf { rd: 0, rn: 1, op: 3 }).unwrap();
    assert!(find(&code, &[0xC4, 0xE3, 0x79, 0x1D, 0xC0, 0x00]) > 0);
}

#[test]
fn fcvtzu_branches_land_on_their_paths() {
    // fcvtzu x0, d1
    let code = lower(Inst::FcvtToInt { rd: 0, rn: 1, mode: 0, sf: true, unsigned: true, src_sng: false, fbits: 0 })
        .unwrap();
    let rel = |at: usize| i32::from_le_bytes(code[at..at + 4].try_into().unwrap()) as i64;
    let jb = find(&code, &[0x0F, 0x82]);
    let small = (jb as i64 + 6 + rel(jb + 2)) as usize;
    // the small path starts with cvttsd2si rax, xmm0 and ends the sequence
    assert_eq!(&code[small..small + 5], &[0xF2, 0x48, 0x0F, 0x2C, 0xC0]);
    let js = find(&code, &[0x0F, 0x88]);
    let clamp = (js as i64 + 6 + rel(js + 2)) as usize;
    assert_eq!(&code[clamp..clamp + 10], &[0x48, 0xB8, 0xFF, 0xFF, 0xFF, 0xFF, 0xFF, 0xFF, 0xFF, 0xFF]);
    // both jmps land after the small path, on the store of x0
    let done = small + 15;
    assert_eq!(&code[done..], &[0x48, 0x89, 0x03]);
    let jmp1 = clamp - 5;
    assert_eq!(code[jmp1], 0xE9);
    assert_eq!((jmp1 as i64 + 5 + rel(jmp1 + 1)) as usize, done);
    let jmp2 = clamp + 10;
    assert_eq!(code[jmp2], 0xE9);
    assert_eq!((jmp2 as i64 + 5 + rel(jmp2 + 1)) as usize, done);
}

#[test]
fn integer_to_fp_conversions() {
    // ucvtf d0, x1: jns over the +2^64 adjustment
    let code = lower(Inst::Scvtf { rd: 0, rn: 1, to_double: true, sf: true, unsigned: true }).unwrap();
    let jns = find(&code, &[0x0F, 0x89]);
    assert_eq!(&code[jns + 2..jns + 6], &[19, 0, 0, 0]);
    assert_eq!(&code[jns + 6..jns + 8], &[0x48, 0xB9]);
    // scvtf d0, x1, #3 divides by 8.0
    let code = lower(Inst::ScvtfFixed { rd: 0, rn: 1, to_double: true, sf: true, unsigned: false, fbits: 3 }).unwrap();
    assert!(find(&code, &[0x48, 0xB9, 0, 0, 0, 0, 0, 0, 0x20, 0x40]) > 0);
    // fcvtzs x0, d1, #4 multiplies by 16.0 first
    let code = lower(Inst::FcvtToInt { rd: 0, rn: 1, mode: 0, sf: true, unsigned: false, src_sng: false, fbits: 4 })
        .unwrap();
    assert!(find(&code, &[0x48, 0xB8, 0, 0, 0, 0, 0, 0, 0x30, 0x40]) > 0);
    // scvtf s0, s1 and ucvtf d0, d1 between FP registers
    assert_eq!(
        lower(Inst::ScalarScvtf { rd: 0, rn: 1, sng: true }).unwrap(),
        emit(|b| {
            b.mov_load32(RAX, RBX, slot(1));
            b.cvtsi2ss(0, false, RAX);
            b.movd_r32_xmm(RCX, 0);
            b.mov_store32(RBX, slot(0), RCX);
        })
    );
    let code = lower(Inst::ScalarUcvtf { rd: 0, rn: 1, sng: false }).unwrap();
    assert!(find(&code, &[0x0F, 0x89, 19, 0, 0, 0]) > 0);
    // fcvtzu d0, d1 clamps negatives with cmovs
    let code = lower(Inst::FcvtTzReg { rd: 0, rn: 1, dbl: true, unsigned: true }).unwrap();
    assert!(find(&code, &[0x48, 0x0F, 0x48, 0xC1]) > 0);
}

#[test]
fn fp_conditional_compare_layout() {
    let code = lower(Inst::FpCondCompare { rn: 1, rm: 2, nzcv: 0b0110, cond: 0, sz: true }).unwrap();
    let head = emit(|b| load_nzcv_to_eflags(b));
    assert_eq!(&code[..head.len()], &head[..]);
    let j = head.len();
    assert_eq!(&code[j..j + 2], &[0x0F, 0x84]);
    // the false path writes the immediate NZCV and jumps over the compare
    let falsep = emit(|b| {
        b.mov_ri64(RAX, 0b0110u64 << 28);
        b.mov_store32(RBX, 264, RAX);
    });
    assert_eq!(&code[j + 2..j + 6], &((falsep.len() + 5) as u32).to_le_bytes());
    assert_eq!(&code[j + 6..j + 6 + falsep.len()], &falsep[..]);
    let jmp = j + 6 + falsep.len();
    assert_eq!(code[jmp], 0xE9);
    let rest = code.len() - (jmp + 5);
    assert_eq!(&code[jmp + 1..jmp + 5], &(rest as u32).to_le_bytes());
}

#[test]
fn whole_register_vector_loads_and_stores() {
    // ld1 {v3.16b}, [x1], #16
    assert_eq!(
        lower(Inst::Ld1V { rd: 3, rn: 1, bytes: 16 }).unwrap(),
        emit(|b| {
            b.mov_load64(RDX, RBX, 8);
            b.movdqu_load(0, RDX, 0);
            b.movdqu_store(RBX, slot(3), 0);
            b.mov_load64(RAX, RBX, 8);
            b.add_ri64(RAX, 16);
            b.mov_store64(RBX, 8, RAX);
        })
    );
    // st1 {v3.8b}, [x1], #8
    assert_eq!(
        lower(Inst::St1V { rd: 3, rn: 1, bytes: 8 }).unwrap(),
        emit(|b| {
            b.mov_load64(RDX, RBX, 8);
            b.movq_load(0, RBX, slot(3));
            b.movq_store(RDX, 0, 0);
            b.mov_load64(RAX, RBX, 8);
            b.add_ri64(RAX, 8);
            b.mov_store64(RBX, 8, RAX);
        })
    );
    // ld1 of three registers from v30: the third is the slot after v31
    assert_eq!(
        lower(Inst::Ld1N { rd: 30, rn: 2, nreg: 3, q: false, post: 24 }).unwrap(),
        emit(|b| {
            b.mov_load64(RDX, RBX, 16);
            for (k, r) in [(0i32, 30u8), (1, 31), (2, 32)] {
                b.movq_load(0, RDX, k * 8);
                b.movq_store(RBX, slot(r), 0);
                b.mov_ri64(RAX, 0);
                b.mov_store64(RBX, slot(r) + 8, RAX);
            }
            b.mov_load64(RAX, RBX, 16);
            b.add_ri64(RAX, 24);
            b.mov_store64(RBX, 16, RAX);
        })
    );
}

fn count(code: &[u8], pat: &[u8]) -> usize {
    code.windows(pat.len()).filter(|w| *w == pat).count()
}

#[test]
fn vector_fp_sign_and_square_root_forms() {
    // fneg v0.4s, v1.4s: the sign bit 31 flipped in each of four lanes
    let code = lower(Inst::SimdFpUnary { rd: 0, rn: 1, op: 0, esize: 4, q: true }).unwrap();
    assert_eq!(count(&code, &[0x48, 0xB9, 0, 0, 0, 0x80, 0, 0, 0, 0]), 4);
    assert_eq!(count(&code, &[0x48, 0x31, 0xC8]), 4);
    // fabs v0.2d: the mask is the complement of bit 63 (`not rdx`, `and rax, rdx`)
    let code = lower(Inst::SimdFpUnary { rd: 0, rn: 1, op: 1, esize: 8, q: true }).unwrap();
    assert_eq!(count(&code, &[0x48, 0xBA, 0, 0, 0, 0, 0, 0, 0, 0x80]), 2);
    assert_eq!(count(&code, &[0x48, 0xF7, 0xD2]), 2);
    assert_eq!(count(&code, &[0x48, 0x21, 0xD0]), 2);
    // fsqrt v0.2d: sqrtsd per lane, each result stored back with movq
    let code = lower(Inst::SimdFpUnary { rd: 0, rn: 1, op: 2, esize: 8, q: true }).unwrap();
    assert_eq!(count(&code, &[0xF2, 0x0F, 0x51, 0xC0]), 2);
    let d = slot(0) + 8;
    let _ = find(&code, &d.to_le_bytes());
}

#[test]
fn vector_fp_arithmetic_forms() {
    // fadd v0.4s, v1.4s, v2.4s: addss per lane
    let code = lower(Inst::VecFpArith { rd: 0, rn: 1, rm: 2, op: 0, q: true }).unwrap();
    assert_eq!(count(&code, &[0xF3, 0x0F, 0x58, 0xC1]), 4);
    // fdiv v0.2s: divss on two lanes
    let code = lower(Inst::VecFpArith { rd: 0, rn: 1, rm: 2, op: 3, q: false }).unwrap();
    assert_eq!(count(&code, &[0xF3, 0x0F, 0x5E, 0xC1]), 2);
    // frecps v0.2s: 2.0 - n * m in xmm1
    let code = lower(Inst::VecFpArith { rd: 0, rn: 1, rm: 2, op: 8, q: false }).unwrap();
    assert_eq!(count(&code, &[0x48, 0xC7, 0xC0, 0, 0, 0, 0x40]), 2);
    assert_eq!(count(&code, &[0xF3, 0x0F, 0x5C, 0xC8]), 2);
    // frsqrts v0.4s also halves it
    let code = lower(Inst::VecFpArith { rd: 0, rn: 1, rm: 2, op: 9, q: true }).unwrap();
    assert_eq!(count(&code, &[0x48, 0xC7, 0xC0, 0, 0, 0, 0x3F]), 4);
}

fn ok(inst: Inst) -> Vec<u8> {
    lower(inst).unwrap()
}

#[test]
fn vector_fused_multiply_adds() {
    // fmla v0.4s, v1.4s, v2.4s: mulss xmm1, xmm0 then addss xmm0, xmm1 per lane
    let code = ok(Inst::Fmla { rd: 0, rn: 1, rm: 2, el64: false, q: true, sub: false });
    assert_eq!(count(&code, &[0xF3, 0x0F, 0x59, 0xC8]), 4);
    assert_eq!(count(&code, &[0xF3, 0x0F, 0x58, 0xC1]), 4);
    // fmls v0.2d: mulsd and subsd
    let code = ok(Inst::Fmla { rd: 0, rn: 1, rm: 2, el64: true, q: true, sub: true });
    assert_eq!(count(&code, &[0xF2, 0x0F, 0x59, 0xC8]), 2);
    assert_eq!(count(&code, &[0xF2, 0x0F, 0x5C, 0xC1]), 2);
    // fmla v0.4s, v1.4s, v3.s[2]: the element once into xmm2, mulss xmm1, xmm2 per lane
    let code = ok(Inst::FmlaEl { rd: 0, rn: 1, vlm: 3, idx: 2, el64: false, q: true, sub: false });
    assert_eq!(count(&code, &[0xF3, 0x0F, 0x59, 0xCA]), 4);
    let _ = find(&code, &(slot(3) + 8).to_le_bytes());
    // fmul v0.2d, v1.2d, v2.d[1]
    let code = ok(Inst::SimdFmulEl { rd: 0, rn: 1, rm: 2, esize: 8, index: 1, q: true });
    assert_eq!(count(&code, &[0xF2, 0x0F, 0x59, 0xC2]), 2);
}

#[test]
fn vector_fp_compares_and_reductions() {
    // fcmgt v0.4s: comiss xmm0, xmm1 and seta per lane
    let code = ok(Inst::VecFpCompare { rd: 0, rn: 1, rm: 2, esize: 4, op: 1, q: true });
    assert_eq!(count(&code, &[0x40, 0x0F, 0x2F, 0xC1]), 4);
    assert_eq!(count(&code, &[0x0F, 0x97, 0xC0]), 4);
    // fcmlt v0.2d, #0: xmm1 cleared, setb per lane
    let code = ok(Inst::VecFpCompareZero { rd: 0, rn: 1, op: 3, esize: 8, q: true });
    assert_eq!(count(&code, &[0x66, 0x0F, 0xEF, 0xC9]), 2);
    assert_eq!(count(&code, &[0x0F, 0x92, 0xC0]), 2);
    // faddp v0.4s: four addss
    let code = ok(Inst::SimdFpPair3 { rd: 0, rn: 1, rm: 2, add: true, min: false, nm: false, q: true });
    assert_eq!(count(&code, &[0xF3, 0x0F, 0x58, 0xC1]), 4);
    // fmaxv s0, v1.4s: three maxss
    let code = ok(Inst::FMaxV { rd: 0, rn: 1, min: false });
    assert_eq!(count(&code, &[0xF3, 0x40, 0x0F, 0x5F, 0xC1]), 3);
}

#[test]
fn two_double_arithmetic() {
    // fabd v0.2d: subsd, then the sign cleared by pand with 0x7fff..
    let code = ok(Inst::Simd2dFp { rd: 0, rn: 1, rm: 2, op: 8 });
    assert_eq!(count(&code, &[0x66, 0x0F, 0xDB, 0xC1]), 2);
    assert_eq!(count(&code, &[0xFF, 0xFF, 0xFF, 0xFF, 0xFF, 0xFF, 0xFF, 0x7F]), 2);
    // fdiv v0.2d
    let code = ok(Inst::Simd2dFp { rd: 0, rn: 1, rm: 2, op: 0 });
    assert_eq!(count(&code, &[0xF2, 0x0F, 0x5E, 0xC1]), 2);
    assert_eq!(lower(Inst::Simd2dFp { rd: 0, rn: 1, rm: 2, op: 9 }), Err("Simd2dFp op 9 not implemented".to_string()));
}

#[test]
fn vector_rounding_and_estimates() {
    // frintm v0.4s: widened, roundsd mode 1, narrowed, per lane
    let code = ok(Inst::SimdFrint { rd: 0, rn: 1, mode: 1, esize: 4, q: true });
    assert_eq!(count(&code, &[0x66, 0x0F, 0x3A, 0x0B, 0xC0, 0x01]), 4);
    assert_eq!(count(&code, &[0xF3, 0x0F, 0x5A, 0xC0]), 4);
    // frinta v0.2d: floor(|x| + 0.5) with the sign restored
    let code = ok(Inst::SimdFrint { rd: 0, rn: 1, mode: 4, esize: 8, q: true });
    assert_eq!(count(&code, &[0x48, 0xB8, 0, 0, 0, 0, 0, 0, 0xE0, 0x3F]), 2);
    assert_eq!(count(&code, &[0x66, 0x0F, 0xEF, 0xC2]), 2);
    // frecpe v0.4s and frsqrte v0.2d
    let code = ok(Inst::SimdFreFrsqrte { rd: 0, rn: 1, sqrt: false, esize: 4, q: true });
    assert_eq!(count(&code, &[0xF3, 0x0F, 0x53, 0xC0]), 4);
    let code = ok(Inst::SimdFreFrsqrte { rd: 0, rn: 1, sqrt: true, esize: 8, q: true });
    assert_eq!(count(&code, &[0xF2, 0x0F, 0x52, 0xC0]), 2);
}

#[test]
fn half_precision_vector_forms() {
    // fadd v0.8h: both halves widened (vcvtph2ps), addss, narrowed (vcvtps2ph)
    let code = ok(Inst::SimdFp16As { rd: 0, rn: 1, rm: 2, op: 0, q: true });
    assert_eq!(count(&code, &[0xC4, 0xE2, 0x79, 0x13, 0xD2]), 8);
    assert_eq!(count(&code, &[0xC4, 0xE2, 0x79, 0x13, 0xC9]), 8);
    assert_eq!(count(&code, &[0xC4, 0xE3, 0x79, 0x1D, 0xC0, 0x00]), 8);
    assert_eq!(count(&code, &[0xF3, 0x0F, 0x58, 0xC1]), 8);
    // fmla v0.4h (op 8): the destination widened too, mulss xmm1, xmm2 then addss
    let code = ok(Inst::SimdFp16As { rd: 0, rn: 1, rm: 2, op: 8, q: false });
    assert_eq!(count(&code, &[0xC4, 0xE2, 0x79, 0x13, 0xC0]), 4);
    assert_eq!(count(&code, &[0xF3, 0x0F, 0x59, 0xCA]), 4);
    // fmul v0.4h, v1.4h, v2.h[3]
    let code = ok(Inst::SimdFp16BEl { rd: 0, rn: 1, vlm: 2, idx: 3, op: 2, q: false });
    assert_eq!(count(&code, &[0x0F, 0x28, 0xC1]), 4);
    let _ = find(&code, &(slot(2) + 6).to_le_bytes());
    // fcmge v0.8h, v1.8h, v2.8h: setae; fcmle v0.4h, #0: setbe
    let code = ok(Inst::SimdFp16Compare { rd: 0, rn: 1, rm: 2, op: 1, q: true });
    assert_eq!(count(&code, &[0x0F, 0x93, 0xC0]), 8);
    let code = ok(Inst::SimdFp16CompareZero { rd: 0, rn: 1, op: 4, q: false });
    assert_eq!(count(&code, &[0x0F, 0x96, 0xC0]), 4);
    // scvtf v0.8h: cvtsi2ss from 32 bits, narrowed
    let code = ok(Inst::SimdI2Fp16 { rd: 0, rn: 1, unsigned: false, q: true });
    assert_eq!(count(&code, &[0xF3, 0x0F, 0x2A, 0xC0]), 8);
}

#[test]
fn vector_conversions() {
    // fcvtzu v0.4s: cvttsd2si and a negative result cleared (cmovs)
    let code = ok(Inst::FcvVec { rd: 0, rn: 1, signed: false, esize: 4, q: true });
    assert_eq!(count(&code, &[0xF2, 0x48, 0x0F, 0x2C, 0xC0]), 4);
    assert_eq!(count(&code, &[0x48, 0x0F, 0x48, 0xC1]), 4);
    let code = ok(Inst::FcvVec { rd: 0, rn: 1, signed: true, esize: 8, q: true });
    assert_eq!(count(&code, &[0x48, 0x0F, 0x48, 0xC1]), 0);
    // scvtf v0.2d
    let code = ok(Inst::VecIntToFp { rd: 0, rn: 1, esize: 8, signed: true, q: true });
    assert_eq!(count(&code, &[0xF2, 0x48, 0x0F, 0x2A, 0xC0]), 2);
    // fcvtns v0.2d (mode 2): cvtsd2si
    let code = ok(Inst::SimdFpToInt { rd: 0, rn: 1, unsigned: false, esize: 8, q: true, mode: 2 });
    assert_eq!(count(&code, &[0xF2, 0x48, 0x0F, 0x2D, 0xC0]), 2);
    // ucvtf v0.2d: the 2^64 correction skipped by jns when the sign is clear
    let code = ok(Inst::Ucvtf2d { rd: 0, rn: 1 });
    assert_eq!(count(&code, &[0x0F, 0x89, 19, 0, 0, 0]), 2);
    assert_eq!(count(&code, &[0x48, 0xB9, 0, 0, 0, 0, 0, 0, 0xF0, 0x43]), 2);
    // fcvtl v0.4s, v1.4h and fcvtl v0.2d, v1.2s; fcvtn v0.2s, v1.2d
    let code = ok(Inst::VecFcvtl { rd: 0, rn: 1, upper: false, half: true });
    assert_eq!(count(&code, &[0xC4, 0xE2, 0x79, 0x13, 0xC0]), 4);
    let code = ok(Inst::VecFcvtl { rd: 0, rn: 1, upper: true, half: false });
    assert_eq!(count(&code, &[0xF3, 0x0F, 0x5A, 0xC0]), 2);
    let _ = find(&code, &(slot(1) + 8).to_le_bytes());
    let code = ok(Inst::VecFcvtn { rd: 0, rn: 1, upper: false });
    assert_eq!(count(&code, &[0xF2, 0x0F, 0x5A, 0xC0]), 2);
}
