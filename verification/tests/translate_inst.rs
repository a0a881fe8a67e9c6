use arm64jit::decode::Inst;
use arm64jit::translate::{
    load_nzcv_to_eflags, store_nzcv, translate, Fixup, HostLinks, ShiftKind, PC_OFF,
};
use arm64jit::x86::{patch_rel32, CodeBuf, RAX, RBX, RCX};

const HOST: HostLinks = HostLinks {
    svc_entry: 0x1122_3344_5566_7788,
    sha_entry: 0x99aa_bbcc_ddee_ff00,
    svc_next_off: 0x900,
    redirect_off: 0x908,
    tpidr_off: 0x910,
    cntvct_off: 0x918,
};

fn lower(pc: u64, inst: Inst) -> (Result<(), String>, Vec<u8>, Vec<(u64, usize, u8)>) {
    let mut buf = CodeBuf::new();
    let mut fixups: Vec<Fixup> = Vec::new();
    let r = translate(&mut buf, pc, inst, &mut fixups, HOST);
    let fx = fixups.iter().map(|f| (f.target_pc, f.disp_off, f.cc)).collect();
    (r, buf.as_slice().to_vec(), fx)
}

fn bytes(r: (Result<(), String>, Vec<u8>, Vec<(u64, usize, u8)>)) -> Vec<u8> {
    assert_eq!(r.0, Ok(()));
    assert!(r.2.is_empty());
    r.1
}

fn nzcv_store() -> Vec<u8> {
    let mut b = CodeBuf::new();
    store_nzcv(&mut b);
    b.as_slice().to_vec()
}

fn nzcv_load() -> Vec<u8> {
    let mut b = CodeBuf::new();
    load_nzcv_to_eflags(&mut b);
    b.as_slice().to_vec()
}

#[test]
fn movz_uses_the_short_immediate() {
    let inst = Inst::MoveWide { rd: 1, imm16: 0x1234, hw: 1, opc: 0, sf: true };
    assert_eq!(
        bytes(lower(0, inst)),
        vec![0x48, 0xC7, 0xC0, 0x00, 0x00, 0x34, 0x12, 0x48, 0x89, 0x43, 0x08]
    );
}

#[test]
fn movn_w_zero_extends() {
    // movn w0, #2 writes 0x00000000fffffffd.
    let inst = Inst::MoveWide { rd: 0, imm16: 2, hw: 0, opc: 2, sf: false };
    assert_eq!(
        bytes(lower(0, inst)),
        vec![0x48, 0xB8, 0xFD, 0xFF, 0xFF, 0xFF, 0, 0, 0, 0, 0x48, 0x89, 0x03]
    );
}

#[test]
fn movk_replaces_one_field() {
    let inst = Inst::MoveWide { rd: 3, imm16: 2, hw: 1, opc: 1, sf: true };
    let mut want = vec![0x48, 0x8B, 0x43, 0x18];
    want.extend([0x48, 0xB9, 0xFF, 0xFF, 0x00, 0x00, 0xFF, 0xFF, 0xFF, 0xFF]);
    want.extend([0x48, 0x21, 0xC8]);
    want.extend([0x48, 0xB9, 0x00, 0x00, 0x02, 0x00, 0x00, 0x00, 0x00, 0x00]);
    want.extend([0x48, 0x09, 0xC8]);
    want.extend([0x48, 0x89, 0x43, 0x18]);
    assert_eq!(bytes(lower(0, inst)), want);
}

#[test]
fn sub_sp_writes_the_stack_pointer() {
    let inst =
        Inst::AddSubImm { rd: 31, rn: 31, imm12: 0x20, shift12: false, sub: true, s: false, sf: true };
    assert_eq!(
        bytes(lower(0, inst)),
        vec![
            0x48, 0x8B, 0x83, 0xF8, 0, 0, 0, 0x48, 0x81, 0xE8, 0x20, 0, 0, 0, 0x48, 0x89, 0x83,
            0xF8, 0, 0, 0
        ]
    );
}

#[test]
fn cmp_w_sets_flags_and_writes_nothing() {
    let inst = Inst::AddSubImm { rd: 31, rn: 0, imm12: 1, shift12: false, sub: true, s: true, sf: false };
    let mut want = vec![0x48, 0x8B, 0x03];
    want.extend([0x48, 0xC1, 0xE0, 0x20, 0x48, 0xC1, 0xE8, 0x20]);
    want.extend([0x81, 0xE8, 1, 0, 0, 0]);
    want.extend(nzcv_store());
    assert_eq!(bytes(lower(0, inst)), want);
}

#[test]
fn adds_complements_the_carry() {
    // adds x0, x1, #1, lsl #12
    let inst = Inst::AddSubImm { rd: 0, rn: 1, imm12: 1, shift12: true, sub: false, s: true, sf: true };
    let mut want = vec![0x48, 0x8B, 0x43, 0x08];
    want.extend([0x48, 0x81, 0xC0, 0x00, 0x10, 0, 0]);
    want.push(0xF5);
    want.extend(nzcv_store());
    want.extend([0x48, 0x89, 0x03]);
    assert_eq!(bytes(lower(0, inst)), want);
}

#[test]
fn neg_reads_xzr_and_shifts() {
    // neg x6, x6, lsl #2 = sub x6, xzr, x6, lsl #2 (shifted form: rn 31 is XZR)
    let inst = Inst::AddSubReg {
        rd: 6,
        rn: 31,
        rm: 6,
        sub: true,
        s: false,
        shift: ShiftKind::Lsl,
        sh_amt: 2,
        sf: true,
        sp_operand: false,
    };
    let mut want = vec![0x48, 0xB8, 0, 0, 0, 0, 0, 0, 0, 0];
    want.extend([0x48, 0x8B, 0x4B, 0x30]);
    want.extend([0x48, 0xC1, 0xE1, 0x02]);
    want.extend([0x48, 0x29, 0xC8]);
    want.extend([0x48, 0x89, 0x43, 0x30]);
    assert_eq!(bytes(lower(0, inst)), want);
}

#[test]
fn add_extended_reads_sp() {
    // add sp, sp, w1, uxtw #2
    let inst = Inst::AddSubExt { rd: 31, rn: 31, rm: 1, sub: false, s: false, sf: true, opt: 2, shift: 2 };
    let mut want = vec![0x48, 0x8B, 0x43, 0x08];
    want.extend([0x89, 0xC0]);
    want.extend([0x48, 0xC1, 0xE0, 0x02]);
    want.extend([0x48, 0x8B, 0xBB, 0xF8, 0, 0, 0]);
    want.extend([0x48, 0x01, 0xF8]);
    want.extend([0x48, 0x89, 0x83, 0xF8, 0, 0, 0]);
    assert_eq!(bytes(lower(0, inst)), want);
}

#[test]
fn sbc_uses_the_stored_borrow() {
    let inst = Inst::AddCarry { rd: 2, rn: 0, rm: 1, sf: true, s: false, sub: true };
    let mut want = vec![0x48, 0x8B, 0x03, 0x48, 0x8B, 0x4B, 0x08];
    want.extend(nzcv_load());
    want.extend([0x48, 0x19, 0xC8]);
    want.extend([0x48, 0x89, 0x43, 0x10]);
    assert_eq!(bytes(lower(0, inst)), want);
}

#[test]
fn orr_alias_of_mov() {
    // mov x1, x2 = orr x1, xzr, x2
    let inst = Inst::LogicReg {
        rd: 1,
        rn: 31,
        rm: 2,
        op: 1,
        s: false,
        shift: ShiftKind::Lsl,
        sh_amt: 0,
        sf: true,
    };
    let mut want = vec![0x48, 0xB8, 0, 0, 0, 0, 0, 0, 0, 0];
    want.extend([0x48, 0x8B, 0x4B, 0x10]);
    want.extend([0x48, 0x09, 0xC8]);
    want.extend([0x48, 0x89, 0x43, 0x08]);
    assert_eq!(bytes(lower(0, inst)), want);
}

#[test]
fn unimplemented_logical_ops_are_refused() {
    let inst = Inst::LogicReg {
        rd: 1,
        rn: 2,
        rm: 3,
        op: 3,
        s: false,
        shift: ShiftKind::Lsl,
        sh_amt: 0,
        sf: true,
    };
    let (r, code, fx) = lower(0, inst);
    assert_eq!(r, Err("LogicReg op 3 not implemented".to_string()));
    // the operands were loaded before the refusal
    assert_eq!(code, vec![0x48, 0x8B, 0x43, 0x10, 0x48, 0x8B, 0x4B, 0x18]);
    assert!(fx.is_empty());
    let inst = Inst::LogicImm { rd: 1, rn: 2, mask: 0xff, op: 7, sf: true };
    let (r, code, _) = lower(0, inst);
    assert_eq!(r, Err("LogicImm op 7 not implemented".to_string()));
    assert_eq!(code, vec![0x48, 0x8B, 0x43, 0x10, 0x48, 0xB9, 0xFF, 0, 0, 0, 0, 0, 0, 0]);
}

#[test]
fn ands_immediate_sets_flags() {
    // tst w2, #0xff = ands wzr, w2, #0xff
    let inst = Inst::LogicImm { rd: 31, rn: 2, mask: 0xff, op: 3, sf: false };
    let mut want = vec![0x48, 0x8B, 0x43, 0x10, 0x48, 0xB9, 0xFF, 0, 0, 0, 0, 0, 0, 0];
    want.extend([0x48, 0x21, 0xC8]);
    want.extend(nzcv_store());
    want.extend([0x89, 0xC0]);
    assert_eq!(bytes(lower(0, inst)), want);
}

#[test]
fn loads_and_stores_with_scaled_offsets() {
    // ldr x0, [x1, #16]
    let inst = Inst::LdStrImm { rt: 0, rn: 1, imm: 2, size: 8, ld: true, sext: false };
    assert_eq!(
        bytes(lower(0, inst)),
        vec![0x48, 0x8B, 0x53, 0x08, 0x48, 0x8D, 0x52, 0x10, 0x48, 0x8B, 0x02, 0x48, 0x89, 0x03]
    );
    // strb wzr, [sp]: the source is XZR, no offset
    let inst = Inst::LdStrImm { rt: 31, rn: 31, imm: 0, size: 1, ld: false, sext: false };
    assert_eq!(
        bytes(lower(0, inst)),
        vec![0x48, 0x8B, 0x93, 0xF8, 0, 0, 0, 0x48, 0xB8, 0, 0, 0, 0, 0, 0, 0, 0, 0x88, 0x02]
    );
    // ldrsw x3, [x2, #4]
    let inst = Inst::LdStrImm { rt: 3, rn: 2, imm: 1, size: 4, ld: true, sext: true };
    assert_eq!(
        bytes(lower(0, inst)),
        vec![
            0x48, 0x8B, 0x53, 0x10, 0x48, 0x8D, 0x52, 0x04, 0x8B, 0x02, 0x48, 0x63, 0xC0, 0x48,
            0x89, 0x43, 0x18
        ]
    );
    // ldr xzr loads and discards
    let inst = Inst::LdStrImm { rt: 31, rn: 0, imm: 0, size: 8, ld: true, sext: false };
    assert_eq!(bytes(lower(0, inst)), vec![0x48, 0x8B, 0x13, 0x48, 0x8B, 0x02]);
}

#[test]
fn unimplemented_access_sizes_are_refused() {
    let inst = Inst::LdStrImm { rt: 0, rn: 1, imm: 0, size: 8, ld: true, sext: true };
    let (r, code, _) = lower(0x1000, inst);
    assert_eq!(r, Err("LdStrImm sign-extend size 8 not implemented (pc 0x1000)".to_string()));
    assert_eq!(code, vec![0x48, 0x8B, 0x53, 0x08]);
    let inst = Inst::LdStrImm { rt: 0, rn: 1, imm: 0, size: 16, ld: false, sext: false };
    let (r, _, _) = lower(0x1000, inst);
    assert_eq!(r, Err("LdStrImm size 16 not implemented".to_string()));
}

#[test]
fn ret_returns_to_the_dispatcher() {
    assert_eq!(PC_OFF, 256);
    assert_eq!(
        bytes(lower(0, Inst::Ret)),
        vec![
            0x48, 0x8B, 0x83, 0xF0, 0, 0, 0, 0x48, 0x89, 0x83, 0x00, 0x01, 0, 0, 0x48, 0x8B,
            0x03, 0xC3
        ]
    );
    assert_eq!(
        bytes(lower(0, Inst::Br { rn: 5 })),
        vec![0x48, 0x8B, 0x43, 0x28, 0x48, 0x89, 0x83, 0x00, 0x01, 0, 0, 0xC3]
    );
}

#[test]
fn blr_links_then_branches() {
    let mut want = vec![0x48, 0xB8, 0x04, 0x20, 0, 0, 0, 0, 0, 0];
    want.extend([0x48, 0x89, 0x83, 0xF0, 0, 0, 0]);
    want.extend([0x48, 0x8B, 0x43, 0x08, 0x48, 0x89, 0x83, 0x00, 0x01, 0, 0, 0xC3]);
    assert_eq!(bytes(lower(0x2000, Inst::Blr { rn: 1 })), want);
}

#[test]
fn branches_record_fixups() {
    let mut buf = CodeBuf::new();
    let mut fixups: Vec<Fixup> = Vec::new();
    translate(&mut buf, 0x1000, Inst::Hint, &mut fixups, HOST).unwrap();
    translate(&mut buf, 0x1000, Inst::B { imm: 0x40, link: false }, &mut fixups, HOST).unwrap();
    translate(&mut buf, 0x1004, Inst::B { imm: -8, link: true }, &mut fixups, HOST).unwrap();
    let code = buf.as_slice().to_vec();
    let mut want = vec![0xE9, 0, 0, 0, 0];
    want.extend([0x48, 0xB8, 0x08, 0x10, 0, 0, 0, 0, 0, 0]);
    want.extend([0x48, 0x89, 0x83, 0xF0, 0, 0, 0]);
    want.extend([0xE8, 0, 0, 0, 0]);
    assert_eq!(code, want);
    assert_eq!(fixups.len(), 2);
    assert_eq!((fixups[0].target_pc, fixups[0].disp_off, fixups[0].cc), (0x1040, 1, 0xff));
    assert_eq!((fixups[1].target_pc, fixups[1].disp_off, fixups[1].cc), (0xffc, 23, 0xfe));
}

#[test]
fn compare_and_test_branches() {
    let (r, code, fx) = lower(0x100, Inst::Cbz { rt: 2, imm: 0x20, nonzero: true });
    assert_eq!(r, Ok(()));
    assert_eq!(code, vec![0x48, 0x8B, 0x43, 0x10, 0x48, 0x85, 0xC0, 0x0F, 0x85, 0, 0, 0, 0]);
    assert_eq!(fx, vec![(0x120, 9, 0x85)]);
    let (_, code, fx) = lower(0x100, Inst::Tbz { rt: 1, bit: 3, imm: -0x10, nonzero: false });
    let mut want = vec![0x48, 0x8B, 0x43, 0x08];
    want.extend([0x48, 0xB9, 0x08, 0, 0, 0, 0, 0, 0, 0]);
    want.extend([0x48, 0x85, 0xC8, 0x0F, 0x84, 0, 0, 0, 0]);
    assert_eq!(code, want);
    assert_eq!(fx, vec![(0xf0, 19, 0x84)]);
    // a bit number past 63 tests nothing
    let (_, code, _) = lower(0x100, Inst::Tbz { rt: 31, bit: 64, imm: 4, nonzero: true });
    assert_eq!(&code[10..20], &[0x48, 0xB9, 0, 0, 0, 0, 0, 0, 0, 0]);
}

#[test]
fn conditional_branches() {
    let (r, code, fx) = lower(0x400, Inst::BCond { cond: 0, imm: 8 });
    assert_eq!(r, Ok(()));
    let mut want = nzcv_load();
    let field = want.len() + 2;
    want.extend([0x0F, 0x84, 0, 0, 0, 0]);
    assert_eq!(code, want);
    assert_eq!(fx, vec![(0x408, field, 0x84)]);
    // AL is a plain jmp, NV emits nothing
    let (_, code, fx) = lower(0x400, Inst::BCond { cond: 0xE, imm: 8 });
    assert_eq!(code, vec![0xE9, 0, 0, 0, 0]);
    assert_eq!(fx, vec![(0x408, 1, 0xff)]);
    let (r, code, fx) = lower(0x400, Inst::BCond { cond: 0xF, imm: 8 });
    assert_eq!(r, Ok(()));
    assert!(code.is_empty() && fx.is_empty());
    let (r, code, fx) = lower(0x400, Inst::BCond { cond: 0x1A, imm: 8 });
    assert_eq!(r, Err("B.cond unsupported cond 1a".to_string()));
    assert!(code.is_empty() && fx.is_empty());
}

#[test]
fn pc_relative_addresses() {
    assert_eq!(
        bytes(lower(0x1000, Inst::Adr { rd: 0, imm: -4 })),
        vec![0x48, 0xB8, 0xFC, 0x0F, 0, 0, 0, 0, 0, 0, 0x48, 0x89, 0x03]
    );
    assert_eq!(
        bytes(lower(0x1234, Inst::Adrp { rd: 2, imm: 0x2000 })),
        vec![0x48, 0xB8, 0x00, 0x30, 0, 0, 0, 0, 0, 0, 0x48, 0x89, 0x43, 0x10]
    );
}

#[test]
fn no_op_classes_emit_nothing() {
    for inst in [Inst::Hint, Inst::WaitBarrier, Inst::SmeNoop] {
        assert!(bytes(lower(0, inst)).is_empty());
    }
    assert_eq!(
        bytes(lower(0, Inst::SveCntd { rd: 4 })),
        vec![0x48, 0xB8, 2, 0, 0, 0, 0, 0, 0, 0, 0x48, 0x89, 0x43, 0x20]
    );
    assert!(bytes(lower(0, Inst::SveCntd { rd: 31 })).is_empty());
    // addvl with rn 31 reads it as XZR (ldg_src); -16 bytes is one vector length
    assert_eq!(
        bytes(lower(0, Inst::AddVectorLen { rd: 0, rn: 31, imm_bytes: -16 })),
        vec![
            0x48, 0xB8, 0, 0, 0, 0, 0, 0, 0, 0, 0x48, 0x81, 0xC0, 0xF0, 0xFF, 0xFF, 0xFF, 0x48,
            0x89, 0x03
        ]
    );
}

#[test]
fn pre_and_post_indexed_accesses() {
    // ldr x0, [x1], #8: access at x1, then x1 += 8
    let inst = Inst::LdStrImmWb {
        rt: 0,
        rn: 1,
        imm9: 8,
        size: 8,
        ld: true,
        sext: false,
        writeback: true,
        pre: false,
    };
    assert_eq!(
        bytes(lower(0, inst)),
        vec![
            0x48, 0x8B, 0x53, 0x08, 0x48, 0x8B, 0x02, 0x48, 0x89, 0x03, 0x48, 0x8B, 0x43, 0x08,
            0x48, 0x81, 0xC0, 0x08, 0, 0, 0, 0x48, 0x89, 0x43, 0x08
        ]
    );
    // str x0, [sp, #-16]!: access at sp - 16, then sp -= 16
    let inst = Inst::LdStrImmWb {
        rt: 0,
        rn: 31,
        imm9: -16,
        size: 8,
        ld: false,
        sext: false,
        writeback: true,
        pre: true,
    };
    let mut want = vec![0x48, 0x8B, 0x93, 0xF8, 0, 0, 0];
    want.extend([0x48, 0x8B, 0x03, 0x48, 0x89, 0x42, 0xF0]);
    want.extend([0x48, 0x8B, 0x83, 0xF8, 0, 0, 0]);
    want.extend([0x48, 0x81, 0xC0, 0xF0, 0xFF, 0xFF, 0xFF]);
    want.extend([0x48, 0x89, 0x83, 0xF8, 0, 0, 0]);
    assert_eq!(bytes(lower(0, inst)), want);
    // a refused size does not update the base
    let inst = Inst::LdStrImmWb {
        rt: 0,
        rn: 1,
        imm9: 8,
        size: 8,
        ld: true,
        sext: true,
        writeback: true,
        pre: false,
    };
    let (r, code, _) = lower(0, inst);
    assert_eq!(r, Err("LdStrImmWb sign-extend size 8 not implemented".to_string()));
    assert_eq!(code, vec![0x48, 0x8B, 0x53, 0x08]);
}

#[test]
fn exclusive_and_ordered_accesses() {
    // stxr w2, x0, [x1]: the store, then status 0 in w2
    let inst = Inst::LdExr { size: 3, ld: false, rs: 2, rt: 0, rn: 1 };
    assert_eq!(
        bytes(lower(0, inst)),
        vec![
            0x48, 0x8B, 0x53, 0x08, 0x48, 0x8B, 0x03, 0x48, 0x89, 0x02, 0x48, 0xB8, 0, 0, 0, 0,
            0, 0, 0, 0, 0x48, 0x89, 0x43, 0x10
        ]
    );
    // ldar w0, [x1]
    let inst = Inst::AcqRel { size: 2, ld: true, rt: 0, rn: 1 };
    assert_eq!(bytes(lower(0, inst)), vec![0x48, 0x8B, 0x53, 0x08, 0x8B, 0x02, 0x48, 0x89, 0x03]);
    let (r, code, _) = lower(0, Inst::AcqRel { size: 5, ld: true, rt: 0, rn: 1 });
    assert_eq!(r, Err("AcqRel size 5 not implemented".to_string()));
    assert_eq!(code, vec![0x48, 0x8B, 0x53, 0x08]);
    let (r, _, _) = lower(0, Inst::LdExr { size: 4, ld: false, rs: 2, rt: 0, rn: 1 });
    assert_eq!(r, Err("LdExr size 4 not implemented".to_string()));
}

#[test]
fn multiplies_and_divides() {
    assert_eq!(
        bytes(lower(0, Inst::MulHigh { rd: 0, rn: 1, rm: 2, signed: false })),
        vec![0x48, 0x8B, 0x43, 0x08, 0x48, 0x8B, 0x4B, 0x10, 0x48, 0xF7, 0xE1, 0x48, 0x89, 0x13]
    );
    // madd x0, x1, x2, x3
    let inst = Inst::MulDiv { div: false, signed: false, rd: 0, rn: 1, rm: 2, ra: 3, sf: true };
    assert_eq!(
        bytes(lower(0, inst)),
        vec![
            0x48, 0x8B, 0x43, 0x08, 0x48, 0x8B, 0x4B, 0x10, 0x48, 0x0F, 0xAF, 0xC1, 0x48, 0x8B,
            0x7B, 0x18, 0x48, 0x01, 0xF8, 0x48, 0x89, 0x03
        ]
    );
    // msub w0, w1, w2, w3 = w3 - w1 * w2
    let inst = Inst::MulDiv { div: false, signed: true, rd: 0, rn: 1, rm: 2, ra: 3, sf: false };
    assert_eq!(
        bytes(lower(0, inst)),
        vec![
            0x48, 0x8B, 0x43, 0x08, 0x48, 0x8B, 0x4B, 0x10, 0x48, 0x0F, 0xAF, 0xC1, 0x48, 0x8B,
            0x7B, 0x18, 0x48, 0x29, 0xC7, 0x48, 0x89, 0xF8, 0x89, 0xC0, 0x48, 0x89, 0x03
        ]
    );
    // sdiv w0, w1, w2
    let inst = Inst::MulDiv { div: true, signed: true, rd: 0, rn: 1, rm: 2, ra: 31, sf: false };
    assert_eq!(
        bytes(lower(0, inst)),
        vec![
            0x48, 0x8B, 0x43, 0x08, 0x48, 0x63, 0xC0, 0x48, 0x99, 0x48, 0x8B, 0x4B, 0x10, 0x48,
            0x63, 0xC9, 0x48, 0xF7, 0xF9, 0x89, 0xC0, 0x48, 0x89, 0x03
        ]
    );
    // umull x0, w1, w2
    let inst = Inst::MulLong { rd: 0, rn: 1, rm: 2, ra: 31, signed: false, sub: false };
    assert_eq!(
        bytes(lower(0, inst)),
        vec![
            0x48, 0x8B, 0x43, 0x08, 0x89, 0xC0, 0x48, 0x8B, 0x4B, 0x10, 0x89, 0xC9, 0x48, 0x0F,
            0xAF, 0xC1, 0x48, 0x89, 0x03
        ]
    );
    // udiv w2, w0, w1 (Div class): 32-bit div
    assert_eq!(
        bytes(lower(0, Inst::Div { rd: 2, rn: 0, rm: 1, signed: false, is_x: false })),
        vec![
            0x48, 0x8B, 0x03, 0x48, 0x8B, 0x4B, 0x08, 0x48, 0x31, 0xD2, 0xF7, 0xF1, 0x48, 0x89,
            0x43, 0x10
        ]
    );
}

#[test]
fn shifts_rotates_and_extracts() {
    // asr w0, w1, w2
    assert_eq!(
        bytes(lower(0, Inst::VarShiftVar { rd: 0, rn: 1, rm: 2, op: 2, sf: false })),
        vec![
            0x48, 0x8B, 0x43, 0x08, 0x48, 0x8B, 0x4B, 0x10, 0x48, 0x81, 0xE1, 0x1F, 0, 0, 0,
            0x48, 0x63, 0xC0, 0x48, 0xD3, 0xF8, 0x89, 0xC0, 0x48, 0x89, 0x03
        ]
    );
    assert_eq!(
        bytes(lower(0, Inst::Ror { rd: 0, rn: 1, rot: 8, sf: true })),
        vec![0x48, 0x8B, 0x43, 0x08, 0x48, 0xC1, 0xC8, 0x08, 0x48, 0x89, 0x03]
    );
    // extr x0, x1, x2, #16: x2 >> 16 | x1 << 48
    assert_eq!(
        bytes(lower(0, Inst::Extr { rd: 0, rn: 1, rm: 2, lsb: 16, sf: true })),
        vec![
            0x48, 0x8B, 0x43, 0x10, 0x48, 0xC1, 0xE8, 0x10, 0x4C, 0x8B, 0x53, 0x08, 0x49, 0xC1,
            0xE2, 0x30, 0x4C, 0x09, 0xD0, 0x48, 0x89, 0x03
        ]
    );
}

#[test]
fn conditional_select() {
    // cset w0, eq = csinc w0, wzr, wzr, ne
    let inst = Inst::CSel { rd: 0, rn: 31, rm: 31, cond: 1, op: 1, sf: false };
    let mut want = vec![0x48, 0xBF, 0, 0, 0, 0, 0, 0, 0, 0];
    want.extend([0x49, 0xBA, 0, 0, 0, 0, 0, 0, 0, 0]);
    want.extend([0x49, 0x81, 0xC2, 1, 0, 0, 0]);
    want.extend([0x89, 0xFF, 0x45, 0x89, 0xD2]);
    want.extend(nzcv_load());
    want.extend([0x4C, 0x0F, 0x45, 0xD7]);
    want.extend([0x4C, 0x89, 0x13]);
    assert_eq!(bytes(lower(0, inst)), want);
    let (r, _, _) = lower(0, Inst::CSel { rd: 0, rn: 1, rm: 2, cond: 0, op: 4, sf: true });
    assert_eq!(r, Err("CSel op 4 not implemented".to_string()));
    let (r, _, _) = lower(0, Inst::CSel { rd: 0, rn: 1, rm: 2, cond: 0x10, op: 0, sf: true });
    assert_eq!(r, Err("CSel: bad cond 0x10".to_string()));
}

#[test]
fn breakpoints_halt() {
    let halt = vec![0x48, 0xB8, 0, 0, 0, 0, 0, 0, 0, 0, 0x48, 0x89, 0x83, 0x00, 0x01, 0, 0];
    assert_eq!(bytes(lower(0, Inst::Brk { imm: 0 })), halt);
    assert_eq!(bytes(lower(0, Inst::Udf { imm: 7 })), halt);
}

#[test]
fn bitfield_aliases() {
    // lsr x0, x1, #4 = ubfm x0, x1, #4, #63
    let inst = Inst::BitField { rd: 0, rn: 1, immr: 4, imms: 63, sf: true, arith: false, insert: false };
    assert_eq!(
        bytes(lower(0, inst)),
        vec![0x48, 0x8B, 0x43, 0x08, 0x48, 0xC1, 0xE8, 0x04, 0x48, 0x89, 0x03]
    );
    // lsl w0, w1, #3 = ubfm w0, w1, #29, #28
    let inst = Inst::BitField { rd: 0, rn: 1, immr: 29, imms: 28, sf: false, arith: false, insert: false };
    assert_eq!(
        bytes(lower(0, inst)),
        vec![0x48, 0x8B, 0x43, 0x08, 0x89, 0xC0, 0x48, 0xC1, 0xE0, 0x03, 0x89, 0xC0, 0x48, 0x89, 0x03]
    );
    // sxtw x0, w1 = sbfm x0, x1, #0, #31: the 32-bit mask needs the imm64 form
    let inst = Inst::BitField { rd: 0, rn: 1, immr: 0, imms: 31, sf: true, arith: true, insert: false };
    let mut want = vec![0x48, 0x8B, 0x43, 0x08, 0x48, 0xC1, 0xE8, 0x00];
    want.extend([0x48, 0xB9, 0xFF, 0xFF, 0xFF, 0xFF, 0, 0, 0, 0, 0x48, 0x21, 0xC8]);
    want.extend([0x48, 0xC1, 0xE0, 0x20, 0x48, 0xC1, 0xF8, 0x20, 0x48, 0x89, 0x03]);
    assert_eq!(bytes(lower(0, inst)), want);
    // ubfx w0, w1, #8, #8 = ubfm w0, w1, #8, #15
    let inst = Inst::BitField { rd: 0, rn: 1, immr: 8, imms: 15, sf: false, arith: false, insert: false };
    assert_eq!(
        bytes(lower(0, inst)),
        vec![
            0x48, 0x8B, 0x43, 0x08, 0x89, 0xC0, 0x48, 0xC1, 0xE8, 0x08, 0x48, 0x81, 0xE0, 0xFF, 0,
            0, 0, 0x89, 0xC0, 0x48, 0x89, 0x03
        ]
    );
    // bfi x0, x1, #8, #4 = bfm x0, x1, #56, #3
    let inst = Inst::BitField { rd: 0, rn: 1, immr: 56, imms: 3, sf: true, arith: false, insert: true };
    let mut want = vec![0x48, 0x8B, 0x43, 0x08, 0x48, 0xC1, 0xE0, 0x08, 0x4C, 0x8B, 0x13];
    want.extend([0x48, 0xB9, 0x00, 0x0F, 0, 0, 0, 0, 0, 0, 0x48, 0x21, 0xC8]);
    want.extend([0x48, 0xF7, 0xD1, 0x49, 0x21, 0xCA, 0x49, 0x09, 0xC2, 0x4C, 0x89, 0xD0]);
    want.extend([0x48, 0x89, 0x03]);
    assert_eq!(bytes(lower(0, inst)), want);
}

#[test]
fn count_leading_zeros() {
    assert_eq!(
        bytes(lower(0, Inst::ClzCls { rd: 0, rn: 1, sf: true, cls: false })),
        vec![0x48, 0x8B, 0x43, 0x08, 0xF3, 0x48, 0x0F, 0xBD, 0xC0, 0x48, 0x89, 0x03]
    );
    assert_eq!(
        bytes(lower(0, Inst::ClzCls { rd: 0, rn: 1, sf: false, cls: false })),
        vec![0x48, 0x8B, 0x43, 0x08, 0x89, 0xC0, 0xF3, 0x0F, 0xBD, 0xC0, 0x48, 0x89, 0x03]
    );
    assert!(bytes(lower(0, Inst::ClzCls { rd: 31, rn: 1, sf: true, cls: false })).is_empty());
    let (r, code, _) = lower(0, Inst::ClzCls { rd: 0, rn: 1, sf: true, cls: true });
    assert_eq!(r, Err("CLS (count leading sign) not implemented".to_string()));
    assert!(code.is_empty());
}

#[test]
fn cache_and_tag_maintenance() {
    assert_eq!(
        bytes(lower(0, Inst::CacheMaintain { zva: true, rt: 2 })),
        vec![
            0x48, 0x8B, 0x43, 0x10, 0x48, 0xB9, 0, 0, 0, 0, 0, 0, 0, 0, 0x48, 0x89, 0x08, 0x48,
            0x89, 0x48, 0x08
        ]
    );
    assert!(bytes(lower(0, Inst::CacheMaintain { zva: false, rt: 2 })).is_empty());
    assert_eq!(
        bytes(lower(0, Inst::MteTag { load: true, rt: 3, rn: 0, wb: false, wb_off: 0 })),
        vec![0x48, 0xB8, 0, 0, 0, 0, 0, 0, 0, 0, 0x48, 0x89, 0x43, 0x18]
    );
    assert_eq!(
        bytes(lower(0, Inst::MteTag { load: false, rt: 0, rn: 2, wb: true, wb_off: 32 })),
        vec![0x48, 0x8B, 0x43, 0x10, 0x48, 0x81, 0xC0, 0x20, 0, 0, 0, 0x48, 0x89, 0x43, 0x10]
    );
    assert_eq!(
        bytes(lower(0, Inst::MteTag { load: false, rt: 0, rn: 2, wb: true, wb_off: -16 })),
        vec![0x48, 0x8B, 0x43, 0x10, 0x48, 0x81, 0xE8, 0x10, 0, 0, 0, 0x48, 0x89, 0x43, 0x10]
    );
    assert_eq!(
        bytes(lower(0, Inst::MteTag { load: false, rt: 0, rn: 2, wb: true, wb_off: 0x1_0000_0000 })),
        vec![
            0x48, 0x8B, 0x43, 0x10, 0x48, 0xB9, 0, 0, 0, 0, 1, 0, 0, 0, 0x48, 0x01, 0xC8, 0x48,
            0x89, 0x43, 0x10
        ]
    );
    assert!(bytes(lower(0, Inst::MteTag { load: false, rt: 0, rn: 2, wb: false, wb_off: 32 })).is_empty());
}

#[test]
fn register_offset_accesses() {
    // ldr w0, [x1, w2, uxtw #2]
    let inst = Inst::LdStrReg { rt: 0, rn: 1, rm: 2, size: 4, ld: true, shift: true, sext: false, index_ext: 2 };
    assert_eq!(
        bytes(lower(0, inst)),
        vec![
            0x48, 0x8B, 0x43, 0x08, 0x48, 0x8B, 0x4B, 0x10, 0x89, 0xC9, 0x48, 0x01, 0xC9, 0x48,
            0x01, 0xC9, 0x48, 0x01, 0xC8, 0x8B, 0x08, 0x48, 0x89, 0x0B
        ]
    );
    // str x3, [x1, x2]
    let inst = Inst::LdStrReg { rt: 3, rn: 1, rm: 2, size: 8, ld: false, shift: false, sext: false, index_ext: 3 };
    assert_eq!(
        bytes(lower(0, inst)),
        vec![
            0x48, 0x8B, 0x43, 0x08, 0x48, 0x8B, 0x4B, 0x10, 0x48, 0x01, 0xC8, 0x48, 0x8B, 0x4B,
            0x18, 0x48, 0x89, 0x08
        ]
    );
    let inst = Inst::LdStrReg { rt: 3, rn: 1, rm: 2, size: 16, ld: false, shift: false, sext: false, index_ext: 3 };
    let (r, _, _) = lower(0, inst);
    assert_eq!(r, Err("LdStrReg size 16 not implemented".to_string()));
}

#[test]
fn register_pairs() {
    // stp x29, x30, [sp, #-16]!
    let inst = Inst::LdStPair {
        rt: 29,
        rt2: 30,
        rn: 31,
        imm: -16,
        ld: false,
        writeback: true,
        preidx: true,
        size_64: true,
        q128: false,
        fp_d: false,
        fp_s: false,
        sext: false,
    };
    let mut want = vec![0x48, 0x8B, 0x93, 0xF8, 0, 0, 0];
    want.extend([0x48, 0x8B, 0x83, 0xE8, 0, 0, 0, 0x48, 0x89, 0x42, 0xF0]);
    want.extend([0x48, 0x8B, 0x83, 0xF0, 0, 0, 0, 0x48, 0x89, 0x42, 0xF8]);
    want.extend([0x48, 0x8B, 0x8B, 0xF8, 0, 0, 0, 0x48, 0x8D, 0x49, 0xF0]);
    want.extend([0x48, 0x89, 0x8B, 0xF8, 0, 0, 0]);
    assert_eq!(bytes(lower(0, inst)), want);
    // ldp d0, d1, [x0]: the low 8 bytes of each vector slot
    let inst = Inst::LdStPair {
        rt: 0,
        rt2: 1,
        rn: 0,
        imm: 0,
        ld: true,
        writeback: false,
        preidx: false,
        size_64: false,
        q128: false,
        fp_d: true,
        fp_s: false,
        sext: false,
    };
    assert_eq!(
        bytes(lower(0, inst)),
        vec![
            0x48, 0x8B, 0x13, 0x48, 0x8B, 0x02, 0x48, 0x89, 0x83, 0x10, 0x01, 0, 0, 0x48, 0x8B,
            0x42, 0x08, 0x48, 0x89, 0x83, 0x20, 0x01, 0, 0
        ]
    );
}

#[test]
fn byte_reversals() {
    assert_eq!(
        bytes(lower(0, Inst::Rev { rd: 0, rn: 1, op: 2, sf: true })),
        vec![0x48, 0x8B, 0x43, 0x08, 0x48, 0x0F, 0xC8, 0x48, 0x89, 0x03]
    );
    assert_eq!(
        bytes(lower(0, Inst::Rev { rd: 0, rn: 1, op: 2, sf: false })),
        vec![0x48, 0x8B, 0x43, 0x08, 0x0F, 0xC8, 0x89, 0xC0, 0x48, 0x89, 0x03]
    );
    assert_eq!(
        bytes(lower(0, Inst::Rev { rd: 0, rn: 1, op: 3, sf: true })),
        vec![0x48, 0x8B, 0x43, 0x08, 0x48, 0xC1, 0xC8, 0x20, 0x48, 0x89, 0x03]
    );
    assert!(bytes(lower(0, Inst::Rev { rd: 31, rn: 1, op: 2, sf: true })).is_empty());
    // rbit x: six swap steps of 30 bytes each
    let code = bytes(lower(0, Inst::Rev { rd: 0, rn: 1, op: 0, sf: true }));
    assert_eq!(code.len(), 4 + 6 * 30 + 3);
    assert_eq!(
        &code[4..30],
        &[
            0x48, 0x89, 0xC1, 0x48, 0xC1, 0xE9, 0x01, 0x49, 0xBA, 0x55, 0x55, 0x55, 0x55, 0x55,
            0x55, 0x55, 0x55, 0x4C, 0x21, 0xD1, 0x4C, 0x21, 0xD0, 0x48, 0xC1, 0xE0
        ]
    );
}

#[test]
fn fixups_name_the_trailing_rel32_field() {
    let cases = [
        (0x1000u64, Inst::B { imm: 0x40, link: false }, 0x1040u64),
        (0x1000, Inst::B { imm: -0x100, link: true }, 0xf00),
        (0x2000, Inst::Cbz { rt: 3, imm: 8, nonzero: false }, 0x2008),
        (0x2000, Inst::Tbz { rt: 31, bit: 5, imm: 12, nonzero: true }, 0x200c),
        (0x3000, Inst::BCond { cond: 0xB, imm: -4 }, 0x2ffc),
        (0x3000, Inst::BCond { cond: 0xE, imm: 16 }, 0x3010),
    ];
    for (pc, inst, target) in cases {
        let mut buf = CodeBuf::new();
        let mut fixups: Vec<Fixup> = Vec::new();
        // some code before, so the field offset counts from the buffer start
        translate(&mut buf, pc, Inst::MoveWide { rd: 1, imm16: 7, hw: 0, opc: 0, sf: true }, &mut fixups, HOST)
            .unwrap();
        translate(&mut buf, pc, inst, &mut fixups, HOST).unwrap();
        let mut code = buf.as_slice().to_vec();
        assert_eq!(fixups.len(), 1);
        let f = fixups[0];
        assert_eq!(f.target_pc, target);
        assert_eq!(f.disp_off + 4, code.len());
        assert_eq!(&code[f.disp_off..], &[0, 0, 0, 0]);
        // patched, the jump counts from the end of the code
        patch_rel32(&mut code, f.disp_off, 0, 0x500);
        let disp = i32::from_le_bytes(code[f.disp_off..].try_into().unwrap());
        assert_eq!(code.len() as i64 + disp as i64, 0x500);
    }
}

fn code_of(f: impl FnOnce(&mut CodeBuf)) -> Vec<u8> {
    let mut b = CodeBuf::new();
    f(&mut b);
    b.as_slice().to_vec()
}

#[test]
fn vector_loads_and_stores() {
    // ldr q1, [x2, #16]
    let want = code_of(|b| {
        b.mov_load64(RAX, RBX, 16);
        b.lea64(RAX, RAX, 16);
        b.movdqu_load(0, RAX, 0);
        b.movdqu_store(RBX, 272 + 16, 0);
    });
    assert_eq!(bytes(lower(0, Inst::VecLdStImm { vt: 1, rn: 2, imm: 1, ld: true })), want);
    // str q3, [x0, x1]
    let want = code_of(|b| {
        b.mov_load64(RAX, RBX, 0);
        b.mov_load64(RCX, RBX, 8);
        b.add_rr64(RAX, RCX);
        b.movdqu_load(0, RBX, 272 + 48);
        b.movdqu_store(RAX, 0, 0);
    });
    assert_eq!(bytes(lower(0, Inst::VecLdStrReg { vt: 3, rn: 0, rm: 1, ld: false })), want);
    // ldr q0, [x4], #32: access at x4, then x4 += 32
    let want = code_of(|b| {
        b.mov_load64(RAX, RBX, 32);
        b.movdqu_load(0, RAX, 0);
        b.movdqu_store(RBX, 272, 0);
        b.mov_load64(RCX, RBX, 32);
        b.lea64(RCX, RCX, 32);
        b.mov_store64(RBX, 32, RCX);
    });
    assert_eq!(bytes(lower(0, Inst::VecLdStIndexed { vt: 0, rn: 4, imm9: 32, ld: true, pre: false })), want);
    let want = code_of(|b| {
        b.mov_load64(RAX, RBX, 32);
        b.lea64(RAX, RAX, -16);
        b.movdqu_load(0, RBX, 272);
        b.movdqu_store(RAX, 0, 0);
    });
    assert_eq!(bytes(lower(0, Inst::VecLdStImmUnscaled { vt: 0, rn: 4, imm9: -16, ld: false })), want);
}

#[test]
fn scalar_fp_loads_and_stores() {
    // ldr s3, [x1, #8]
    assert_eq!(
        bytes(lower(0, Inst::FpLdStImm { vt: 3, rn: 1, imm: 2, size: 4, ld: true })),
        vec![
            0x48, 0x8B, 0x53, 0x08, 0x48, 0x8D, 0x52, 0x08, 0x8B, 0x02, 0x89, 0x83, 0x40, 0x01, 0,
            0
        ]
    );
    let (r, _, _) = lower(0, Inst::FpLdStImm { vt: 3, rn: 1, imm: 2, size: 3, ld: true });
    assert_eq!(r, Err("FpLdStImm size 3 not implemented".to_string()));
    let (r, code, _) = lower(0, Inst::FpLdStImmUnscaled { vt: 3, rn: 1, imm9: -4, size: 16, ld: true });
    assert_eq!(r, Err("fp_scalar_xfer size 16 not implemented".to_string()));
    assert_eq!(code, vec![0x48, 0x8B, 0x53, 0x08, 0x48, 0x8D, 0x52, 0xFC]);
    // str d0, [x2], #8: the store at x2, then x2 += 8 through RCX
    assert_eq!(
        bytes(lower(0, Inst::FpLdStImmWb { vt: 0, rn: 2, imm9: 8, size: 8, ld: false, pre: false })),
        vec![
            0x48, 0x8B, 0x53, 0x10, 0x48, 0x8B, 0x83, 0x10, 0x01, 0, 0, 0x48, 0x89, 0x02, 0x48,
            0x8B, 0x4B, 0x10, 0x48, 0x8D, 0x49, 0x08, 0x48, 0x89, 0x4B, 0x10
        ]
    );
    // a refused size leaves the base alone
    let (r, code, _) = lower(0, Inst::FpLdStImmWb { vt: 0, rn: 2, imm9: 8, size: 5, ld: false, pre: true });
    assert_eq!(r, Err("fp_scalar_xfer size 5 not implemented".to_string()));
    assert_eq!(code, vec![0x48, 0x8B, 0x53, 0x10, 0x48, 0x8D, 0x52, 0x08]);
}

#[test]
fn conditional_compare_jumps_over_its_paths() {
    // ccmp x1, #3, #0b0100, ne
    let inst = Inst::CcMp { rn: 1, rm: 0, imm: 3, nzcv: 4, cond: 1, cmn: false, sf: true, is_reg: false };
    let not_taken = vec![0x48, 0xB8, 0, 0, 0, 0x40, 0, 0, 0, 0, 0x89, 0x83, 0x08, 0x01, 0, 0];
    let mut taken = vec![0x48, 0x8B, 0x43, 0x08, 0x48, 0xB9, 3, 0, 0, 0, 0, 0, 0, 0, 0x48, 0x29, 0xC8];
    taken.extend(nzcv_store());
    let mut want = nzcv_load();
    want.extend([0x0F, 0x85]);
    want.extend(((not_taken.len() + 5) as u32).to_le_bytes());
    want.extend(not_taken.iter());
    want.push(0xE9);
    want.extend((taken.len() as u32).to_le_bytes());
    want.extend(taken.iter());
    assert_eq!(bytes(lower(0, inst)), want);
    let (r, code, _) = lower(0, Inst::CcMp { rn: 1, rm: 0, imm: 3, nzcv: 4, cond: 0xE, cmn: false, sf: true, is_reg: false });
    assert_eq!(r, Err("CcMp: bad cond 0xe".to_string()));
    assert!(code.is_empty());
}

#[test]
fn fp_register_moves() {
    // fmov x0, d1
    let want = code_of(|b| {
        b.mov_load64(RAX, RBX, 272 + 16);
        b.mov_store64(RBX, 0, RAX);
    });
    assert_eq!(bytes(lower(0, Inst::FmovGp { f: true, sz: true, half: false, rd: 0, rn: 1 })), want);
    // fmov s2, w3
    let want = code_of(|b| {
        b.mov_load64(RAX, RBX, 24);
        b.mov_store32(RBX, 272 + 32, RAX);
    });
    assert_eq!(bytes(lower(0, Inst::FmovGp { f: false, sz: false, half: false, rd: 2, rn: 3 })), want);
    // fmov d0, #1.0 by its bit pattern
    let want = code_of(|b| {
        b.mov_ri64(RAX, 0x3ff0_0000_0000_0000);
        b.mov_store64(RBX, 272, RAX);
    });
    assert_eq!(bytes(lower(0, Inst::FmovImm { rd: 0, double: true, value_bits: 0x3ff0_0000_0000_0000 })), want);
    let want = code_of(|b| {
        b.mov_ri32(RAX, 0x3c00);
        b.mov_store16(RBX, 272 + 16, RAX);
    });
    assert_eq!(bytes(lower(0, Inst::FmovImm16 { rd: 1, value_bits: 0x3c00 })), want);
    let want = code_of(|b| {
        b.mov_load32(RAX, RBX, 272 + 16);
        b.mov_store32(RBX, 272, RAX);
    });
    assert_eq!(bytes(lower(0, Inst::FmovFp { rd: 0, rn: 1, sz: false })), want);
    // movi v1.2d, #0 and orr v1 with an immediate
    let want = code_of(|b| {
        b.mov_ri64(RAX, 0);
        b.mov_store64(RBX, 288, RAX);
        b.mov_ri64(RAX, 0);
        b.mov_store64(RBX, 296, RAX);
    });
    assert_eq!(bytes(lower(0, Inst::VecMovi { vd: 1, lo: 0, hi: 0, kind: 0 })), want);
    let want = code_of(|b| {
        for (off, m) in [(288, 0xff), (296, 0xff00)] {
            b.mov_load64(RAX, RBX, off);
            b.mov_ri64(RCX, m);
            b.or_rr64(RAX, RCX);
            b.mov_store64(RBX, off, RAX);
        }
    });
    assert_eq!(bytes(lower(0, Inst::VecMovi { vd: 1, lo: 0xff, hi: 0xff00, kind: 2 })), want);
}

#[test]
fn fp_compare_and_select() {
    let mut store_fp = CodeBuf::new();
    arm64jit::translate::store_nzcv_fp(&mut store_fp);
    // fcmp d1, d2
    let mut want = code_of(|b| {
        b.movq_load(0, RBX, 272 + 16);
        b.movq_load(1, RBX, 272 + 32);
        b.comisd(0, 1);
    });
    want.extend(store_fp.as_slice().iter());
    assert_eq!(bytes(lower(0, Inst::FpCompare { rn: 1, rm: 2, against_zero: false, sz: true, half: false })), want);
    // fcmp s1, #0.0
    let mut want = code_of(|b| {
        b.mov_load32(RAX, RBX, 272 + 16);
        b.movd_xmm_r32(0, RAX);
        b.pxor_xmm(1, 1);
        b.comiss(0, 1);
    });
    want.extend(store_fp.as_slice().iter());
    assert_eq!(bytes(lower(0, Inst::FpCompare { rn: 1, rm: 0, against_zero: true, sz: false, half: false })), want);
    // fcmp h1, h2 promotes the halves with vcvtph2ps
    let code = bytes(lower(0, Inst::FpCompare { rn: 1, rm: 2, against_zero: false, sz: false, half: true }));
    assert!(code.windows(5).any(|w| w == [0xC4, 0xE2, 0x79, 0x13, 0xC0]));
    assert!(code.windows(5).any(|w| w == [0xC4, 0xE2, 0x79, 0x13, 0xC9]));
    // fcsel d0, d1, d2, lt
    let mut want = code_of(|b| {
        b.mov_load64(arm64jit::x86::RDI, RBX, 272 + 16);
        b.mov_load64(arm64jit::x86::R10, RBX, 272 + 32);
    });
    want.extend(nzcv_load());
    want.extend(code_of(|b| {
        b.cmov_rr64(0x8c - 0x40, arm64jit::x86::R10, arm64jit::x86::RDI);
        b.mov_store64(RBX, 272, arm64jit::x86::R10);
    }));
    assert_eq!(bytes(lower(0, Inst::FcsSel { rd: 0, rn: 1, rm: 2, cond: 0xB, sz: true })), want);
    let (r, _, _) = lower(0, Inst::FcsSel { rd: 0, rn: 1, rm: 2, cond: 0x11, sz: true });
    assert_eq!(r, Err("FcSel: bad cond 0x11".to_string()));
}

#[test]
fn atomic_updates() {
    // ldclr w1, w3, [x2]: not + and, 32-bit forms
    let want = code_of(|b| {
        b.mov_load64(arm64jit::x86::RDX, RBX, 16);
        b.mov_load32(RAX, arm64jit::x86::RDX, 0);
        b.mov_rr64(arm64jit::x86::RDI, RAX);
        b.mov_load64(RCX, RBX, 8);
        b.zero_ext_r32(RCX);
        b.not_r64(RCX);
        b.and_rr64(RAX, RCX);
        b.mov_store32(arm64jit::x86::RDX, 0, RAX);
    });
    let mut want = want;
    want.extend([0x48, 0xC1, 0xE7, 0x20, 0x48, 0xC1, 0xEF, 0x20]); // zext_w(rdi)
    want.extend([0x48, 0x89, 0xF8, 0x48, 0x89, 0x43, 0x18]);
    assert_eq!(bytes(lower(0, Inst::LseAtomic { op: 1, size64: false, rs: 1, rn: 2, rt: 3 })), want);
}

#[test]
fn fp_register_offset_accesses() {
    // ldr d0, [x1, x2, lsl #3]
    let want = code_of(|b| {
        b.mov_load64(arm64jit::x86::RDX, RBX, 8);
        b.mov_load64(RAX, RBX, 16);
        for _ in 0..3 {
            b.add_rr64(RAX, RAX);
        }
        b.add_rr64(arm64jit::x86::RDX, RAX);
        b.mov_load64(RAX, arm64jit::x86::RDX, 0);
        b.mov_store64(RBX, 272, RAX);
    });
    let inst = Inst::FpLdStrReg { vt: 0, rn: 1, rm: 2, size: 8, ld: true, shift: true, index_ext: 3 };
    assert_eq!(bytes(lower(0, inst)), want);
    let inst = Inst::FpLdStrReg { vt: 0, rn: 1, rm: 2, size: 16, ld: true, shift: true, index_ext: 3 };
    let (r, _, _) = lower(0, inst);
    assert_eq!(r, Err("FpLdStrReg size 16 not implemented".to_string()));
}

#[test]
fn scalar_fp_arithmetic() {
    // fadd d0, d1, d2
    let want = code_of(|b| {
        b.movq_load(0, RBX, 272 + 16);
        b.movq_load(1, RBX, 272 + 32);
        b.addsd(0, 1);
        b.movq_store(RBX, 272, 0);
    });
    assert_eq!(bytes(lower(0, Inst::FpScalar { rd: 0, rn: 1, rm: 2, op: 5, sz: true, half: false })), want);
    // fdiv s0, s1, s2
    let mut want = code_of(|b| {
        b.mov_load32(RAX, RBX, 272 + 16);
        b.movd_xmm_r32(0, RAX);
        b.mov_load32(RAX, RBX, 272 + 32);
        b.movd_xmm_r32(1, RAX);
    });
    want.extend([0xF3, 0x0F, 0x5E, 0xC1]);
    want.extend(code_of(|b| {
        b.movd_r32_xmm(RAX, 0);
        b.mov_store32(RBX, 272, RAX);
    }));
    assert_eq!(bytes(lower(0, Inst::FpScalar { rd: 0, rn: 1, rm: 2, op: 7, sz: false, half: false })), want);
    // fneg d3, d4 flips bit 63
    let want = code_of(|b| {
        b.mov_load64(RAX, RBX, 272 + 64);
        b.mov_ri64(RCX, 0x8000_0000_0000_0000);
        b.xor_rr64(RAX, RCX);
        b.mov_store64(RBX, 272 + 48, RAX);
    });
    assert_eq!(bytes(lower(0, Inst::FpScalar { rd: 3, rn: 4, rm: 0, op: 2, sz: true, half: false })), want);
    // fmul h0, h1, h2 promotes, multiplies as single, demotes
    let code = bytes(lower(0, Inst::FpScalar { rd: 0, rn: 1, rm: 2, op: 4, sz: false, half: true }));
    assert!(code.windows(4).any(|w| w == [0xF3, 0x0F, 0x59, 0xC1]));
    assert!(code.windows(6).any(|w| w == [0xC4, 0xE3, 0x79, 0x1D, 0xC0, 0x00]));
    let (r, code, _) = lower(0, Inst::FpScalar { rd: 0, rn: 1, rm: 2, op: 1, sz: false, half: false });
    assert_eq!(r, Err("FpScalar single-precision (sz=0) op 1 not implemented".to_string()));
    assert!(code.is_empty());
    let (r, _, _) = lower(0, Inst::FpScalar { rd: 0, rn: 1, rm: 2, op: 3, sz: true, half: false });
    assert_eq!(r, Err("FpScalar op 3 not implemented".to_string()));
}

#[test]
fn svc_calls_the_dispatcher() {
    let code = bytes(lower(0x1000, Inst::Svc { imm: 0 }));
    let mut want: Vec<u8> = vec![0x48, 0xB8, 0x04, 0x10, 0, 0, 0, 0, 0, 0]; // rax = pc + 4
    want.extend([0x48, 0x89, 0x83, 0x00, 0x09, 0, 0]); // svc_next = rax
    want.extend([0x48, 0x89, 0xDF]); // rdi = rbx
    want.extend([0x48, 0xB8, 0x88, 0x77, 0x66, 0x55, 0x44, 0x33, 0x22, 0x11]);
    want.extend([0x48, 0x81, 0xEC, 8, 0, 0, 0]); // sub rsp, 8
    want.extend([0xFF, 0xD0]); // call rax
    want.extend([0x48, 0x81, 0xC4, 8, 0, 0, 0]); // add rsp, 8
    want.extend([0x48, 0x8B, 0x8B, 0x08, 0x09, 0, 0]); // rcx = redirect_request
    want.extend([0x48, 0x85, 0xC9, 0x75, 0x10]);
    want.extend([0x48, 0x89, 0x03]); // x0 = rax
    want.extend([0x48, 0x8B, 0x83, 0x00, 0x01, 0, 0]); // rax = state.pc
    want.extend([0x48, 0x85, 0xC0, 0x75, 0x02, 0xC3, 0xC3]);
    assert_eq!(code, want);
    // the redirect branch lands on the second `ret`, the pc branch past both
    let first_jne = 56;
    assert_eq!(code[first_jne], 0x75);
    assert_eq!(first_jne + 2 + code[first_jne + 1] as usize, code.len() - 1);
    let second_jne = code.len() - 4;
    assert_eq!(code[second_jne], 0x75);
    assert_eq!(second_jne + 2 + code[second_jne + 1] as usize, code.len());
}

#[test]
fn system_register_reads_and_writes() {
    // mrs x1, tpidr_el0 / msr tpidr_el0, x1
    assert_eq!(
        bytes(lower(0, Inst::SysReg { sysreg: 0, rt: 1, read: true })),
        vec![0x48, 0x8B, 0x83, 0x10, 0x09, 0, 0, 0x48, 0x89, 0x43, 0x08]
    );
    assert_eq!(
        bytes(lower(0, Inst::SysReg { sysreg: 0, rt: 1, read: false })),
        vec![0x48, 0x8B, 0x43, 0x08, 0x48, 0x89, 0x83, 0x10, 0x09, 0, 0]
    );
    // msr tpidr_el0, xzr stores nothing; any rt == 31 emits nothing
    for sysreg in 0..12u8 {
        for read in [false, true] {
            assert_eq!(bytes(lower(0, Inst::SysReg { sysreg, rt: 31, read })), Vec::<u8>::new());
        }
    }
    // mrs x2, cntfrq_el0 = 100 MHz
    assert_eq!(
        bytes(lower(0, Inst::SysReg { sysreg: 1, rt: 2, read: true })),
        vec![0x48, 0xB8, 0x00, 0xE1, 0xF5, 0x05, 0, 0, 0, 0, 0x48, 0x89, 0x43, 0x10]
    );
    // mrs x3, cntvct_el0
    assert_eq!(
        bytes(lower(0, Inst::SysReg { sysreg: 3, rt: 3, read: true })),
        vec![0x48, 0x8B, 0x83, 0x18, 0x09, 0, 0, 0x48, 0x89, 0x43, 0x18]
    );
    // mrs x1, nzcv / msr nzcv, x1
    assert_eq!(
        bytes(lower(0, Inst::SysReg { sysreg: 4, rt: 1, read: true })),
        vec![0x8B, 0x83, 0x08, 0x01, 0, 0, 0x48, 0x89, 0x43, 0x08]
    );
    assert_eq!(
        bytes(lower(0, Inst::SysReg { sysreg: 4, rt: 1, read: false })),
        vec![
            0x48, 0x8B, 0x43, 0x08, 0x48, 0x81, 0xE0, 0x0F, 0, 0, 0, 0x48, 0xC1, 0xE0, 28, 0x89,
            0x83, 0x08, 0x01, 0, 0,
        ]
    );
    // dczid, gcspr/tpidr2/midr, ctr read as constants; fpcr and read-only writes emit nothing
    let konst = |v: u64| {
        let mut b = vec![0x48, 0xB8];
        b.extend(v.to_le_bytes());
        b.extend([0x48, 0x89, 0x43, 0x08]);
        b
    };
    assert_eq!(bytes(lower(0, Inst::SysReg { sysreg: 5, rt: 1, read: true })), konst(4));
    for sysreg in [6u8, 7, 8] {
        assert_eq!(bytes(lower(0, Inst::SysReg { sysreg, rt: 1, read: true })), konst(0));
        assert_eq!(bytes(lower(0, Inst::SysReg { sysreg, rt: 1, read: false })), Vec::<u8>::new());
    }
    assert_eq!(bytes(lower(0, Inst::SysReg { sysreg: 10, rt: 1, read: true })), konst(0x0002_0002));
    for sysreg in [1u8, 3, 5, 9, 10] {
        assert_eq!(bytes(lower(0, Inst::SysReg { sysreg, rt: 1, read: false })), Vec::<u8>::new());
    }
    assert_eq!(bytes(lower(0, Inst::SysReg { sysreg: 9, rt: 1, read: true })), Vec::<u8>::new());
}

#[test]
fn sha_calls_the_helper_and_addv_refuses_odd_shapes() {
    let code = bytes(lower(0, Inst::Sha { mode: 2, rd: 1, rn: 3, rm: 4 }));
    let mut want: Vec<u8> = vec![0x48, 0x89, 0xDF]; // rdi = rbx
    want.extend([0x48, 0xBE, 0x04, 0x03, 0x01, 0x02, 0, 0, 0, 0]); // rsi = packed op
    want.extend([0x48, 0xB8, 0x00, 0xFF, 0xEE, 0xDD, 0xCC, 0xBB, 0xAA, 0x99]);
    want.extend([0x48, 0x81, 0xEC, 8, 0, 0, 0, 0xFF, 0xD0, 0x48, 0x81, 0xC4, 8, 0, 0, 0]);
    assert_eq!(code, want);
    let r = lower(0, Inst::Addv { rd: 0, rn: 1, size: 4, q: false });
    assert_eq!(r.0, Err("Addv unsupported size=4 q=false".to_string()));
    assert!(r.1.is_empty());
    let r = lower(0, Inst::Addv { rd: 0, rn: 1, size: 8, q: true });
    assert_eq!(r.0, Err("Addv unsupported size=8 q=true".to_string()));
    let r = lower(0x1000, Inst::Simd4s { rd: 1, rn: 2, rm: 3, op: 2 });
    assert_eq!(r.0, Err("translate: unhandled Simd4s { rd: 1, rn: 2, rm: 3, op: 2 } at guest pc 0x1000".to_string()));
}
