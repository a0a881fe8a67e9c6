use arm64jit::x86::{patch_rel32, CodeBuf, R10, R12, R13, RAX, RBP, RBX, RCX, RDI, RDX, RSI};

fn emit(f: impl FnOnce(&mut CodeBuf)) -> Vec<u8> {
    let mut buf = CodeBuf::new();
    f(&mut buf);
    buf.as_slice().to_vec()
}

#[test]
fn new_buffer_is_empty() {
    let buf = CodeBuf::new();
    assert_eq!(buf.len(), 0);
    assert!(buf.as_slice().is_empty());
    let d = CodeBuf::default();
    assert_eq!(d.len(), 0);
}

#[test]
fn raw_bytes_are_little_endian() {
    assert_eq!(emit(|b| b.b(0xAB)), vec![0xAB]);
    assert_eq!(emit(|b| b.u32(0x1122_3344)), vec![0x44, 0x33, 0x22, 0x11]);
    assert_eq!(
        emit(|b| b.u64(0x1122_3344_5566_7788)),
        vec![0x88, 0x77, 0x66, 0x55, 0x44, 0x33, 0x22, 0x11]
    );
}

#[test]
fn u32_bytes_read_back() {
    for v in [0u32, 1, 0x7f, 0x80, 0xdead_beef, u32::MAX] {
        let bytes = emit(|b| b.u32(v));
        assert_eq!(u32::from_le_bytes([bytes[0], bytes[1], bytes[2], bytes[3]]), v);
    }
}

#[test]
fn mov_immediates() {
    assert_eq!(
        emit(|b| b.mov_ri64(RAX, 0x1122_3344_5566_7788)),
        vec![0x48, 0xB8, 0x88, 0x77, 0x66, 0x55, 0x44, 0x33, 0x22, 0x11]
    );
    assert_eq!(emit(|b| b.mov_ri64(R10, 1)), vec![0x49, 0xBA, 1, 0, 0, 0, 0, 0, 0, 0]);
    assert_eq!(emit(|b| b.mov_ri32(RAX, 5)), vec![0x48, 0xC7, 0xC0, 5, 0, 0, 0]);
    assert_eq!(emit(|b| b.mov_ri32(R10, 0xffff_ffff)), vec![0x49, 0xC7, 0xC2, 0xff, 0xff, 0xff, 0xff]);
    assert_eq!(emit(|b| b.mov_eax_imm32(RCX, 7)), vec![0xB9, 7, 0, 0, 0]);
    // mov r9d, 5
    assert_eq!(emit(|b| b.mov_eax_imm32(9, 5)), vec![0x41, 0xB9, 5, 0, 0, 0]);
}

#[test]
fn register_moves() {
    assert_eq!(emit(|b| b.mov_rr64(RAX, RCX)), vec![0x48, 0x89, 0xC8]);
    assert_eq!(emit(|b| b.mov_rr64(R10, RAX)), vec![0x49, 0x89, 0xC2]);
    assert_eq!(emit(|b| b.mov_rr64(RAX, R10)), vec![0x4C, 0x89, 0xD0]);
    assert_eq!(emit(|b| b.mov_rr64(RDX, RDX)), Vec::<u8>::new());
    assert_eq!(emit(|b| b.movdqa_xmm(1, 1)), Vec::<u8>::new());
    // movdqa xmm1, xmm0: ModRM.reg is the destination
    assert_eq!(emit(|b| b.movdqa_xmm(1, 0)), vec![0x66, 0x0F, 0x6F, 0xC8]);
    assert_eq!(emit(|b| b.movdqa_xmm(9, 0)), vec![0x66, 0x44, 0x0F, 0x6F, 0xC8]);
}

#[test]
fn memory_operands_pick_the_displacement_size() {
    assert_eq!(emit(|b| b.mov_load64(RAX, RBX, 0)), vec![0x48, 0x8B, 0x03]);
    assert_eq!(emit(|b| b.mov_load64(RAX, RBX, 8)), vec![0x48, 0x8B, 0x43, 0x08]);
    assert_eq!(emit(|b| b.mov_load64(RAX, RBX, -8)), vec![0x48, 0x8B, 0x43, 0xF8]);
    assert_eq!(
        emit(|b| b.mov_load64(RAX, RBX, 264)),
        vec![0x48, 0x8B, 0x83, 0x08, 0x01, 0x00, 0x00]
    );
    assert_eq!(
        emit(|b| b.mov_load64(RAX, RBX, -129)),
        vec![0x48, 0x8B, 0x83, 0x7F, 0xFF, 0xFF, 0xFF]
    );
    // RBP/R13 with no displacement take a zero disp32 (mod 0 would be RIP-relative).
    assert_eq!(emit(|b| b.mov_load64(RAX, RBP, 0)), vec![0x48, 0x8B, 0x85, 0, 0, 0, 0]);
    assert_eq!(emit(|b| b.mov_load64(RAX, R13, 0)), vec![0x49, 0x8B, 0x85, 0, 0, 0, 0]);
    assert_eq!(emit(|b| b.mov_load64(R10, RBX, 16)), vec![0x4C, 0x8B, 0x53, 0x10]);
}

#[test]
fn stores_and_narrow_loads() {
    assert_eq!(
        emit(|b| b.mov_store64(RBX, 264, RDX)),
        vec![0x48, 0x89, 0x93, 0x08, 0x01, 0x00, 0x00]
    );
    assert_eq!(emit(|b| b.mov_store32(RBX, 264, RDX)), vec![0x89, 0x93, 0x08, 0x01, 0x00, 0x00]);
    assert_eq!(emit(|b| b.mov_load32(RCX, RBX, 8)), vec![0x8B, 0x4B, 0x08]);
    assert_eq!(emit(|b| b.mov_load16(RAX, RDX, 0)), vec![0x0F, 0xB7, 0x02]);
    assert_eq!(emit(|b| b.movzx_word_mem(RAX, RDX, 0)), vec![0x0F, 0xB7, 0x02]);
    assert_eq!(emit(|b| b.movzx_byte_mem(RAX, RDX, 1)), vec![0x0F, 0xB6, 0x42, 0x01]);
    assert_eq!(emit(|b| b.movsx_byte_mem(RAX, RDX, 0)), vec![0x48, 0x0F, 0xBE, 0x02]);
    assert_eq!(emit(|b| b.movsx_word_mem(RAX, RDX, 0)), vec![0x48, 0x0F, 0xBF, 0x02]);
    assert_eq!(emit(|b| b.mov_store8(RDX, 0, RAX)), vec![0x88, 0x02]);
    // mov [rbx], sil
    assert_eq!(emit(|b| b.mov_store8(RBX, 0, RSI)), vec![0x40, 0x88, 0x33]);
    assert_eq!(emit(|b| b.mov_store8(RBX, 0, R10)), vec![0x44, 0x88, 0x13]);
    assert_eq!(emit(|b| b.mov_store16(RDX, 0, RAX)), vec![0x66, 0x89, 0x02]);
    assert_eq!(emit(|b| b.lea64(RAX, RBX, 16)), vec![0x48, 0x8D, 0x43, 0x10]);
    assert_eq!(
        emit(|b| b.movzx_byte_mem_idxd(RAX, RDX, RCX, 0x10)),
        vec![0x0F, 0xB6, 0x84, 0x0A, 0x10, 0, 0, 0]
    );
    assert_eq!(
        emit(|b| b.movzx_byte_mem_idxd(RAX, R12, RCX, 0)),
        vec![0x41, 0x0F, 0xB6, 0x84, 0x0C, 0, 0, 0, 0]
    );
}

#[test]
fn vector_memory_and_register_forms() {
    assert_eq!(emit(|b| b.movdqu_load(0, RBX, 0x110)), vec![0xF3, 0x0F, 0x6F, 0x83, 0x10, 0x01, 0, 0]);
    assert_eq!(emit(|b| b.movdqu_store(RBX, 16, 1)), vec![0xF3, 0x0F, 0x7F, 0x4B, 0x10]);
    assert_eq!(emit(|b| b.movq_load(0, RDX, 0)), vec![0xF3, 0x48, 0x0F, 0x7E, 0x02]);
    assert_eq!(emit(|b| b.movq_store(RDX, 0, 0)), vec![0x66, 0x48, 0x0F, 0xD6, 0x02]);
    assert_eq!(emit(|b| b.pxor_xmm(0, 0)), vec![0x66, 0x0F, 0xEF, 0xC0]);
    assert_eq!(emit(|b| b.pand(0, 1)), vec![0x66, 0x0F, 0xDB, 0xC1]);
    assert_eq!(emit(|b| b.por(0, 1)), vec![0x66, 0x0F, 0xEB, 0xC1]);
    // `pandn xmm1, xmm0` is 66 0F DF C8.
    assert_eq!(emit(|b| b.pandn(1, 0)), vec![0x66, 0x0F, 0xDF, 0xC8]);
    assert_eq!(emit(|b| b.paddd(0, 9)), vec![0x66, 0x41, 0x0F, 0xFE, 0xC1]);
    assert_eq!(emit(|b| b.psubd(0, 1)), vec![0x66, 0x0F, 0xFA, 0xC1]);
    assert_eq!(emit(|b| b.paddb(0, 1)), vec![0x66, 0x0F, 0xFC, 0xC1]);
    assert_eq!(emit(|b| b.psubb(0, 1)), vec![0x66, 0x0F, 0xF8, 0xC1]);
    assert_eq!(emit(|b| b.paddw(0, 1)), vec![0x66, 0x0F, 0xFD, 0xC1]);
    assert_eq!(emit(|b| b.psubw(0, 1)), vec![0x66, 0x0F, 0xF9, 0xC1]);
    assert_eq!(emit(|b| b.pclmulq(0, 1, 0x11)), vec![0x66, 0x0F, 0x3A, 0x44, 0xC1, 0x11]);
    assert_eq!(
        emit(|b| b.movdqu_ones(2)),
        vec![0x66, 0x0F, 0xEF, 0xD2, 0x66, 0x0F, 0x76, 0xD2]
    );
    assert_eq!(
        emit(|b| b.movdqu_ones(9)),
        vec![0x66, 0x45, 0x0F, 0xEF, 0xC9, 0x66, 0x45, 0x0F, 0x76, 0xC9]
    );
}

#[test]
fn scalar_floating_point() {
    // `mulsd(0, 1)` is F2 0F 59 C1: xmm0 = xmm0 * xmm1.
    assert_eq!(emit(|b| b.mulsd(0, 1)), vec![0xF2, 0x0F, 0x59, 0xC1]);
    assert_eq!(emit(|b| b.addsd(0, 1)), vec![0xF2, 0x0F, 0x58, 0xC1]);
    assert_eq!(emit(|b| b.subsd(0, 1)), vec![0xF2, 0x0F, 0x5C, 0xC1]);
    assert_eq!(emit(|b| b.divsd(0, 1)), vec![0xF2, 0x0F, 0x5E, 0xC1]);
    assert_eq!(emit(|b| b.sqrtsd(0, 1)), vec![0xF2, 0x0F, 0x51, 0xC1]);
    assert_eq!(emit(|b| b.mulss(0, 1)), vec![0xF3, 0x0F, 0x59, 0xC1]);
    assert_eq!(emit(|b| b.divss(0, 1)), vec![0xF3, 0x0F, 0x5E, 0xC1]);
    assert_eq!(emit(|b| b.addss(0, 1)), vec![0xF3, 0x0F, 0x58, 0xC1]);
    assert_eq!(emit(|b| b.subss(0, 1)), vec![0xF3, 0x0F, 0x5C, 0xC1]);
    assert_eq!(emit(|b| b.roundsd(0, 1, 3)), vec![0x66, 0x0F, 0x3A, 0x0B, 0xC1, 0x03]);
    assert_eq!(emit(|b| b.roundsd(0, 1, 0x13)), vec![0x66, 0x0F, 0x3A, 0x0B, 0xC1, 0x03]);
    assert_eq!(emit(|b| b.comisd(0, 1)), vec![0x66, 0x40, 0x0F, 0x2F, 0xC1]);
    assert_eq!(emit(|b| b.comiss(0, 1)), vec![0x40, 0x0F, 0x2F, 0xC1]);
    assert_eq!(emit(|b| b.maxsd(0, 1)), vec![0xF2, 0x40, 0x0F, 0x5F, 0xC1]);
    assert_eq!(emit(|b| b.minsd(0, 1)), vec![0xF2, 0x40, 0x0F, 0x5D, 0xC1]);
    assert_eq!(emit(|b| b.maxss(0, 1)), vec![0xF3, 0x40, 0x0F, 0x5F, 0xC1]);
    assert_eq!(emit(|b| b.minss(0, 1)), vec![0xF3, 0x40, 0x0F, 0x5D, 0xC1]);
    assert_eq!(emit(|b| b.cvttsd2si(RAX, 1)), vec![0xF2, 0x48, 0x0F, 0x2C, 0xC1]);
    assert_eq!(emit(|b| b.cvtsd2si(RAX, 1)), vec![0xF2, 0x48, 0x0F, 0x2D, 0xC1]);
    assert_eq!(emit(|b| b.cvtsi2sd(0, true, RCX)), vec![0xF2, 0x48, 0x0F, 0x2A, 0xC1]);
    assert_eq!(emit(|b| b.cvtsi2sd(0, false, RCX)), vec![0xF2, 0x0F, 0x2A, 0xC1]);
    assert_eq!(emit(|b| b.cvtsi2ss(0, false, RCX)), vec![0xF3, 0x0F, 0x2A, 0xC1]);
    assert_eq!(emit(|b| b.cvtsd2ss(0, 1)), vec![0xF2, 0x0F, 0x5A, 0xC1]);
    assert_eq!(emit(|b| b.cvtss2sd(0, 1)), vec![0xF3, 0x0F, 0x5A, 0xC1]);
    assert_eq!(emit(|b| b.movq_xmm_r64(0, RAX)), vec![0x66, 0x48, 0x0F, 0x6E, 0xC0]);
    // movq rdx, xmm0: ModRM.reg is the XMM source, ModRM.rm the GPR.
    assert_eq!(emit(|b| b.movq_r64_xmm(RDX, 0)), vec![0x66, 0x48, 0x0F, 0x7E, 0xC2]);
    assert_eq!(emit(|b| b.movq_r64_xmm(R10, 0)), vec![0x66, 0x49, 0x0F, 0x7E, 0xC2]);
    assert_eq!(emit(|b| b.movd_r32_xmm(RAX, 1)), vec![0x66, 0x0F, 0x7E, 0xC8]);
    assert_eq!(emit(|b| b.movd_r32_xmm(R10, 1)), vec![0x66, 0x41, 0x0F, 0x7E, 0xCA]);
    assert_eq!(emit(|b| b.movd_xmm_r32(1, RAX)), vec![0x66, 0x0F, 0x6E, 0xC8]);
    assert_eq!(emit(|b| b.movd_xmm_r32(9, R10)), vec![0x66, 0x45, 0x0F, 0x6E, 0xCA]);
    assert_eq!(emit(|b| b.cvtsd2ss(9, 1)), vec![0xF2, 0x44, 0x0F, 0x5A, 0xC9]);
    assert_eq!(emit(|b| b.cvtss2sd(1, 9)), vec![0xF3, 0x41, 0x0F, 0x5A, 0xC9]);
}

#[test]
fn multiply_and_divide() {
    assert_eq!(emit(|b| b.cqo()), vec![0x48, 0x99]);
    assert_eq!(emit(|b| b.cdq()), vec![0x99]);
    assert_eq!(emit(|b| b.div_r64(RCX)), vec![0x48, 0xF7, 0xF1]);
    assert_eq!(emit(|b| b.div_r32(RCX)), vec![0xF7, 0xF1]);
    assert_eq!(emit(|b| b.idiv_r64(RCX)), vec![0x48, 0xF7, 0xF9]);
    assert_eq!(emit(|b| b.idiv_r32(RCX)), vec![0xF7, 0xF9]);
    assert_eq!(emit(|b| b.imul_rr64(RAX, RCX)), vec![0x48, 0x0F, 0xAF, 0xC1]);
    assert_eq!(emit(|b| b.mul_high_r64(RCX)), vec![0x48, 0xF7, 0xE1]);
    assert_eq!(emit(|b| b.mul_high_r64(R10)), vec![0x49, 0xF7, 0xE2]);
    assert_eq!(emit(|b| b.imul_high_r64(RCX)), vec![0x48, 0xF7, 0xE9]);
    assert_eq!(emit(|b| b.movsxd_r64_r32(RAX, RCX)), vec![0x48, 0x63, 0xC1]);
    assert_eq!(emit(|b| b.movsxd_r64_r32(R10, RCX)), vec![0x4C, 0x63, 0xD1]);
    // div r9 needs REX.B, else it would be div rcx
    assert_eq!(emit(|b| b.div_r64(9)), vec![0x49, 0xF7, 0xF1]);
    assert_eq!(emit(|b| b.div_r32(9)), vec![0x41, 0xF7, 0xF1]);
    assert_eq!(emit(|b| b.idiv_r64(R10)), vec![0x49, 0xF7, 0xFA]);
    assert_eq!(emit(|b| b.idiv_r32(R10)), vec![0x41, 0xF7, 0xFA]);
    assert_eq!(emit(|b| b.imul_rr64(R10, RCX)), vec![0x4C, 0x0F, 0xAF, 0xD1]);
    assert_eq!(emit(|b| b.imul_rr64(RAX, R10)), vec![0x49, 0x0F, 0xAF, 0xC2]);
}

#[test]
fn integer_arithmetic() {
    assert_eq!(emit(|b| b.add_rr64(RAX, RCX)), vec![0x48, 0x01, 0xC8]);
    assert_eq!(emit(|b| b.sub_rr64(RAX, RCX)), vec![0x48, 0x29, 0xC8]);
    assert_eq!(emit(|b| b.add_rr32(RAX, RCX)), vec![0x01, 0xC8]);
    assert_eq!(emit(|b| b.sub_rr32(R10, RCX)), vec![0x41, 0x29, 0xCA]);
    assert_eq!(emit(|b| b.adc_rr64(RAX, RCX)), vec![0x48, 0x11, 0xC8]);
    assert_eq!(emit(|b| b.sbb_rr64(RAX, RCX)), vec![0x48, 0x19, 0xC8]);
    assert_eq!(emit(|b| b.cmc()), vec![0xF5]);
    assert_eq!(emit(|b| b.xor_rr64(RDX, RDX)), vec![0x48, 0x31, 0xD2]);
    assert_eq!(emit(|b| b.or_rr64(RDX, RCX)), vec![0x48, 0x09, 0xCA]);
    assert_eq!(emit(|b| b.and_rr64(RCX, RDI)), vec![0x48, 0x21, 0xF9]);
    assert_eq!(emit(|b| b.cmp_rr64(RAX, RCX)), vec![0x48, 0x39, 0xC8]);
    assert_eq!(emit(|b| b.test_rr64(RAX, RAX)), vec![0x48, 0x85, 0xC0]);
    assert_eq!(emit(|b| b.test_rr64(R10, RAX)), vec![0x49, 0x85, 0xC2]);
    assert_eq!(emit(|b| b.add_ri64(RAX, 8)), vec![0x48, 0x81, 0xC0, 8, 0, 0, 0]);
    assert_eq!(emit(|b| b.sub_ri64(RAX, 8)), vec![0x48, 0x81, 0xE8, 8, 0, 0, 0]);
    assert_eq!(emit(|b| b.and_ri64(RCX, 1)), vec![0x48, 0x81, 0xE1, 1, 0, 0, 0]);
    assert_eq!(emit(|b| b.or_ri64(RCX, 1)), vec![0x48, 0x81, 0xC9, 1, 0, 0, 0]);
    assert_eq!(emit(|b| b.xor_ri64(RDI, 1)), vec![0x48, 0x81, 0xF7, 1, 0, 0, 0]);
    assert_eq!(emit(|b| b.cmp_ri64(R10, 0)), vec![0x49, 0x81, 0xFA, 0, 0, 0, 0]);
    assert_eq!(emit(|b| b.add_ri32(RAX, 1)), vec![0x81, 0xC0, 1, 0, 0, 0]);
    assert_eq!(emit(|b| b.sub_ri32(R10, 1)), vec![0x41, 0x81, 0xEA, 1, 0, 0, 0]);
    // Without REX.B, `neg r10` would negate RDX.
    assert_eq!(emit(|b| b.neg_r64(R10)), vec![0x49, 0xF7, 0xDA]);
    assert_eq!(emit(|b| b.neg_r64(RAX)), vec![0x48, 0xF7, 0xD8]);
    assert_eq!(emit(|b| b.not_r64(RAX)), vec![0x48, 0xF7, 0xD0]);
    assert_eq!(emit(|b| b.zero_ext_r32(RAX)), vec![0x89, 0xC0]);
    assert_eq!(emit(|b| b.zero_ext_r32(R10)), vec![0x45, 0x89, 0xD2]);
}

#[test]
fn shifts_and_rotates() {
    assert_eq!(emit(|b| b.shl_cl64(RAX)), vec![0x48, 0xD3, 0xE0]);
    assert_eq!(emit(|b| b.shr_cl64(RAX)), vec![0x48, 0xD3, 0xE8]);
    assert_eq!(emit(|b| b.sar_cl64(RAX)), vec![0x48, 0xD3, 0xF8]);
    assert_eq!(emit(|b| b.ror_cl64(R10)), vec![0x49, 0xD3, 0xCA]);
    assert_eq!(emit(|b| b.shl_ri8(RCX, 29)), vec![0x48, 0xC1, 0xE1, 0x1D]);
    assert_eq!(emit(|b| b.shr_ri8(RCX, 11)), vec![0x48, 0xC1, 0xE9, 0x0B]);
    assert_eq!(emit(|b| b.sar_ri8(RCX, 63)), vec![0x48, 0xC1, 0xF9, 0x3F]);
    assert_eq!(emit(|b| b.ror_ri8(RCX, 8)), vec![0x48, 0xC1, 0xC9, 0x08]);
    assert_eq!(emit(|b| b.sar32_ri8(RAX, 1)), vec![0xC1, 0xF8, 0x01]);
    assert_eq!(emit(|b| b.sar32_ri8(R10, 1)), vec![0x41, 0xC1, 0xFA, 0x01]);
    assert_eq!(emit(|b| b.ror32_ri8(RAX, 8)), vec![0xC1, 0xC8, 0x08]);
    assert_eq!(emit(|b| b.rol16_ri8(RAX, 8)), vec![0x66, 0xC1, 0xC0, 0x08]);
    assert_eq!(emit(|b| b.rol16_ri8(R10, 8)), vec![0x66, 0x41, 0xC1, 0xC2, 0x08]);
    assert_eq!(emit(|b| b.bswap_r32(RCX)), vec![0x0F, 0xC9]);
    assert_eq!(emit(|b| b.bswap_r64(RCX)), vec![0x48, 0x0F, 0xC9]);
    assert_eq!(emit(|b| b.bswap_r32(R10)), vec![0x41, 0x0F, 0xCA]);
    assert_eq!(emit(|b| b.bswap_r64(R10)), vec![0x49, 0x0F, 0xCA]);
}

#[test]
fn flags_and_selects() {
    assert_eq!(emit(|b| b.setcc_rm8(4, RAX)), vec![0x0F, 0x94, 0xC0]);
    assert_eq!(emit(|b| b.setcc_rm8(0x17, R10)), vec![0x41, 0x0F, 0x97, 0xC2]);
    assert_eq!(emit(|b| b.movzx_r32_r8(RAX, RAX)), vec![0x0F, 0xB6, 0xC0]);
    // SIL as a byte register takes a bare REX prefix (without it: DH)
    assert_eq!(emit(|b| b.movzx_r32_r8(RAX, RSI)), vec![0x40, 0x0F, 0xB6, 0xC6]);
    assert_eq!(emit(|b| b.setcc_rm8(4, RSI)), vec![0x40, 0x0F, 0x94, 0xC6]);
    assert_eq!(emit(|b| b.cmov_rr64(0x45, RAX, RCX)), vec![0x48, 0x0F, 0x45, 0xC1]);
    assert_eq!(emit(|b| b.cmov_rr64(0x44, R10, RCX)), vec![0x4C, 0x0F, 0x44, 0xD1]);
}

#[test]
fn control_flow() {
    let mut buf = CodeBuf::new();
    buf.ret();
    let off = buf.jmp_rel32();
    assert_eq!(off, 2);
    let off2 = buf.jcc_rel32(0x84);
    assert_eq!(off2, 8);
    let off3 = buf.call_rel32();
    assert_eq!(off3, 13);
    assert_eq!(
        buf.as_slice(),
        &[0xC3, 0xE9, 0, 0, 0, 0, 0x0F, 0x84, 0, 0, 0, 0, 0xE8, 0, 0, 0, 0][..]
    );
    assert_eq!(emit(|b| b.jne_rel8(1)), vec![0x75, 1]);
    assert_eq!(emit(|b| b.jz_rel8(0xFE)), vec![0x74, 0xFE]);
    assert_eq!(emit(|b| b.call_r64(RAX)), vec![0xFF, 0xD0]);
    assert_eq!(emit(|b| b.call_r64(R10)), vec![0x41, 0xFF, 0xD2]);
}

#[test]
fn stack_operations() {
    assert_eq!(emit(|b| b.push(RAX)), vec![0x50]);
    assert_eq!(emit(|b| b.push(R10)), vec![0x41, 0x52]);
    assert_eq!(emit(|b| b.pop(RDX)), vec![0x5A]);
    assert_eq!(emit(|b| b.pop(R10)), vec![0x41, 0x5A]);
    assert_eq!(emit(|b| b.pushfq()), vec![0x9C]);
    assert_eq!(emit(|b| b.popfq()), vec![0x9D]);
}

#[test]
fn align_to_pads_with_nops() {
    let mut buf = CodeBuf::new();
    buf.ret();
    buf.ret();
    buf.ret();
    buf.align_to(16);
    assert_eq!(buf.len(), 16);
    assert!(buf.as_slice()[3..].iter().all(|&x| x == 0x90));
    buf.align_to(16);
    assert_eq!(buf.len(), 16);
    buf.align_to(1);
    assert_eq!(buf.len(), 16);
    let mut empty = CodeBuf::new();
    empty.align_to(8);
    assert_eq!(empty.len(), 0);
}

#[test]
fn patched_jump_lands_on_target() {
    // Code laid out at host offset 0x1000; the jmp's rel32 field is at +1.
    let from = 0x1000usize;
    let mut image = vec![0u8; 0x1000];
    let mut buf = CodeBuf::new();
    let off = buf.jmp_rel32();
    image.extend_from_slice(buf.as_slice());
    for target in [0x1005usize, 0x1100, 0x10, 0x1000 + 5 + 0x7fff_fff0] {
        patch_rel32(&mut image, off, from, target);
        let at = from + off;
        let disp = i32::from_le_bytes([image[at], image[at + 1], image[at + 2], image[at + 3]]);
        let next = (from + off + 4) as i64;
        assert_eq!(next + disp as i64, target as i64);
        assert_eq!(image[from], 0xE9);
    }
    // A jump back to offset 0 from a field at 2 (next instruction at 6).
    let mut v = vec![0u8; 8];
    patch_rel32(&mut v, 2, 0, 0);
    assert_eq!(v, vec![0, 0, 0xFA, 0xFF, 0xFF, 0xFF, 0, 0]);
}

#[test]
fn clone_keeps_the_bytes() {
    let mut buf = CodeBuf::new();
    buf.ret();
    let copy = buf.clone();
    assert_eq!(copy.as_slice(), &[0xC3][..]);
}
