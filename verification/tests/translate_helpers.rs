use arm64jit::translate::{
    apply_shift_const, fp_scalar_xfer, ldg, ldg_src, load_nzcv_to_eflags, mov_guest_imm,
    permute_source, slot, stg, stg0, stg_if_writable, store_nzcv, store_nzcv_fp, x86_cc_for_cond,
    zext_w, Fixup, ShiftKind, NZCV_OFF, PERMSCRATCH_OFF, VECTOR_BASE,
};
use arm64jit::x86::{CodeBuf, RAX, RBX, RCX, RDI, RDX, R10};

fn emit(f: impl FnOnce(&mut CodeBuf)) -> Vec<u8> {
    let mut buf = CodeBuf::new();
    f(&mut buf);
    buf.as_slice().to_vec()
}

#[test]
fn cpu_state_layout() {
    assert_eq!(NZCV_OFF, 264);
    assert_eq!(VECTOR_BASE, 272);
    assert_eq!(PERMSCRATCH_OFF, 0x800);
    assert_eq!(slot(0), 0);
    assert_eq!(slot(3), 24);
    assert_eq!(slot(31), 248);
    // d29 lives at VECTOR_BASE + 29*16 = 0x2e0.
    assert_eq!(VECTOR_BASE + 29 * 16, 0x2e0);
}

#[test]
fn guest_register_access() {
    assert_eq!(emit(|b| ldg(b, RAX, 1)), vec![0x48, 0x8B, 0x43, 0x08]);
    assert_eq!(emit(|b| ldg(b, R10, 31)), vec![0x4C, 0x8B, 0x93, 0xF8, 0, 0, 0]);
    assert_eq!(emit(|b| stg(b, 2, RCX)), vec![0x48, 0x89, 0x4B, 0x10]);
    assert_eq!(
        emit(|b| stg0(b, 0)),
        vec![0x48, 0xB8, 0, 0, 0, 0, 0, 0, 0, 0, 0x48, 0x89, 0x03]
    );
}

#[test]
fn store_source_31_is_zero_register() {
    // `str xzr, [..]` stores zero, never the SP slot.
    assert_eq!(emit(|b| ldg_src(b, 31)), vec![0x48, 0xB8, 0, 0, 0, 0, 0, 0, 0, 0]);
    assert_eq!(emit(|b| ldg_src(b, 5)), vec![0x48, 0x8B, 0x43, 0x28]);
}

#[test]
fn load_into_zero_register_writes_nothing() {
    assert_eq!(emit(|b| stg_if_writable(b, 31)), Vec::<u8>::new());
    assert_eq!(emit(|b| stg_if_writable(b, 30)), vec![0x48, 0x89, 0x83, 0xF0, 0, 0, 0]);
}

#[test]
fn zext_w_is_shift_pair() {
    assert_eq!(
        emit(|b| zext_w(b, RAX)),
        vec![0x48, 0xC1, 0xE0, 0x20, 0x48, 0xC1, 0xE8, 0x20]
    );
}

#[test]
fn guest_immediates_choose_the_short_form_when_exact() {
    // 5 sign-extends from 32 bits: mov rax, imm32; mov [rbx+16], rax
    assert_eq!(
        emit(|b| mov_guest_imm(b, 2, 5)),
        vec![0x48, 0xC7, 0xC0, 5, 0, 0, 0, 0x48, 0x89, 0x43, 0x10]
    );
    // -1 also sign-extends from 32 bits.
    assert_eq!(
        emit(|b| mov_guest_imm(b, 0, u64::MAX)),
        vec![0x48, 0xC7, 0xC0, 0xFF, 0xFF, 0xFF, 0xFF, 0x48, 0x89, 0x03]
    );
    // 0xffff_ffff does not (the imm32 form would give -1): imm64.
    assert_eq!(
        emit(|b| mov_guest_imm(b, 0, 0xffff_ffff)),
        vec![0x48, 0xB8, 0xFF, 0xFF, 0xFF, 0xFF, 0, 0, 0, 0, 0x48, 0x89, 0x03]
    );
    assert_eq!(
        emit(|b| mov_guest_imm(b, 0, 0x1_0000_0000)),
        vec![0x48, 0xB8, 0, 0, 0, 0, 1, 0, 0, 0, 0x48, 0x89, 0x03]
    );
}

#[test]
fn condition_codes() {
    let expected = [0x84u8, 0x85, 0x83, 0x82, 0x88, 0x89, 0x80, 0x81, 0x87, 0x86, 0x8d, 0x8c, 0x8f, 0x8e];
    for (cond, cc) in expected.iter().enumerate() {
        assert_eq!(x86_cc_for_cond(cond as u8), Some(*cc));
    }
    assert_eq!(x86_cc_for_cond(14), None);
    assert_eq!(x86_cc_for_cond(15), None);
    assert_eq!(x86_cc_for_cond(200), None);
}

#[test]
fn inverse_conditions_map_to_inverse_jumps() {
    for cond in 0u8..14 {
        let a = x86_cc_for_cond(cond).unwrap();
        let b = x86_cc_for_cond(cond ^ 1).unwrap();
        assert_eq!(a ^ 1, b);
    }
}

#[test]
fn shifted_register_operands() {
    assert_eq!(emit(|b| apply_shift_const(b, RCX, ShiftKind::Lsl, 0, true)), Vec::<u8>::new());
    assert_eq!(
        emit(|b| apply_shift_const(b, RCX, ShiftKind::Lsl, 3, true)),
        vec![0x48, 0xC1, 0xE1, 0x03]
    );
    assert_eq!(
        emit(|b| apply_shift_const(b, RCX, ShiftKind::Lsr, 3, false)),
        vec![0x48, 0xC1, 0xE9, 0x03]
    );
    assert_eq!(
        emit(|b| apply_shift_const(b, RCX, ShiftKind::Asr, 31, true)),
        vec![0x48, 0xC1, 0xF9, 0x1F]
    );
    // 32-bit ASR sign-extends bit 31 first.
    assert_eq!(
        emit(|b| apply_shift_const(b, RCX, ShiftKind::Asr, 31, false)),
        vec![0x48, 0x63, 0xC9, 0x48, 0xC1, 0xF9, 0x1F]
    );
    assert_eq!(
        emit(|b| apply_shift_const(b, RCX, ShiftKind::Ror, 8, true)),
        vec![0x48, 0xC1, 0xC9, 0x08]
    );
    // 32-bit ROR rotates within 32 bits
    assert_eq!(
        emit(|b| apply_shift_const(b, RCX, ShiftKind::Ror, 8, false)),
        vec![0xC1, 0xC9, 0x08]
    );
    // a high register takes REX.R and REX.B in the sign extension
    assert_eq!(
        emit(|b| apply_shift_const(b, R10, ShiftKind::Asr, 31, false)),
        vec![0x4D, 0x63, 0xD2, 0x49, 0xC1, 0xFA, 0x1F]
    );
}

#[test]
fn nzcv_sequences() {
    let s = emit(store_nzcv);
    // push rax; push rcx; push rdx; pushfq; pop rax; xor rdx, rdx
    assert_eq!(&s[..8], &[0x50, 0x51, 0x52, 0x9C, 0x58, 0x48, 0x31, 0xD2][..]);
    // ... mov [rbx+264], edx; pop rdx; pop rcx; pop rax
    assert_eq!(&s[s.len() - 9..], &[0x89, 0x93, 0x08, 0x01, 0, 0, 0x5A, 0x59, 0x58][..]);
    // C: mov, and, shl, or; V/Z/N: mov, shr, and, shl, or
    assert_eq!(s.len(), 8 + (3 + 7 + 4 + 3) + 3 * (3 + 4 + 7 + 4 + 3) + 9);

    let f = emit(store_nzcv_fp);
    assert_eq!(&f[..8], &[0x50, 0x51, 0x52, 0x9C, 0x58, 0x48, 0x31, 0xD2][..]);
    assert_eq!(&f[f.len() - 9..], &[0x89, 0x93, 0x08, 0x01, 0, 0, 0x5A, 0x59, 0x58][..]);
    // RDI holds !PF: mov rdi, rax; shr rdi, 2
    let mov_rdi = [0x48u8, 0x89, 0xC7, 0x48, 0xC1, 0xEF, 0x02];
    assert!(f.windows(7).any(|w| w == mov_rdi));

    let l = emit(load_nzcv_to_eflags);
    // push rax; push rcx; mov ecx, [rbx+264]; mov rdx, 0x202
    assert_eq!(
        &l[..18],
        &[0x50, 0x51, 0x8B, 0x8B, 0x08, 0x01, 0, 0, 0x48, 0xBA, 0x02, 0x02, 0, 0, 0, 0, 0, 0][..]
    );
    // pop rcx; pop rax; push rdx; popfq
    assert_eq!(&l[l.len() - 4..], &[0x59, 0x58, 0x52, 0x9D][..]);
}

#[test]
fn permute_source_snapshots_aliased_sources() {
    let mut buf = CodeBuf::new();
    assert_eq!(permute_source(&mut buf, 3, 4, false), VECTOR_BASE + 4 * 16);
    assert_eq!(buf.len(), 0);
    assert_eq!(permute_source(&mut buf, 4, 4, false), PERMSCRATCH_OFF);
    assert_eq!(permute_source(&mut buf, 31, 31, true), PERMSCRATCH_OFF + 16);
    let bytes = buf.as_slice();
    // mov rax, [rbx + 0x150]; mov [rbx + 0x800], rax; mov rax, [rbx + 0x158]; mov [rbx + 0x808], rax
    assert_eq!(
        &bytes[..28],
        &[
            0x48, 0x8B, 0x83, 0x50, 0x01, 0, 0, 0x48, 0x89, 0x83, 0x00, 0x08, 0, 0, 0x48, 0x8B,
            0x83, 0x58, 0x01, 0, 0, 0x48, 0x89, 0x83, 0x08, 0x08, 0, 0,
        ][..]
    );
    assert_eq!(bytes.len(), 56);
}

#[test]
fn scalar_transfers() {
    assert_eq!(
        emit(|b| fp_scalar_xfer(b, RDX, 0x110, 8, true).unwrap()),
        vec![0x48, 0x8B, 0x02, 0x48, 0x89, 0x83, 0x10, 0x01, 0, 0]
    );
    assert_eq!(
        emit(|b| fp_scalar_xfer(b, RDX, 0x110, 8, false).unwrap()),
        vec![0x48, 0x8B, 0x83, 0x10, 0x01, 0, 0, 0x48, 0x89, 0x02]
    );
    assert_eq!(
        emit(|b| fp_scalar_xfer(b, RDX, 0x110, 4, true).unwrap()),
        vec![0x8B, 0x02, 0x89, 0x83, 0x10, 0x01, 0, 0]
    );
    assert_eq!(
        emit(|b| fp_scalar_xfer(b, RDX, 0x110, 2, false).unwrap()),
        vec![0x0F, 0xB7, 0x83, 0x10, 0x01, 0, 0, 0x66, 0x89, 0x02]
    );
    assert_eq!(
        emit(|b| fp_scalar_xfer(b, RDI, 0x110, 1, true).unwrap()),
        vec![0x0F, 0xB6, 0x07, 0x88, 0x83, 0x10, 0x01, 0, 0]
    );
}

#[test]
fn scalar_transfer_rejects_other_sizes() {
    let mut buf = CodeBuf::new();
    assert_eq!(
        fp_scalar_xfer(&mut buf, RDX, 0x110, 3, true),
        Err("fp_scalar_xfer size 3 not implemented".to_string())
    );
    assert_eq!(
        fp_scalar_xfer(&mut buf, RDX, 0x110, 16, false),
        Err("fp_scalar_xfer size 16 not implemented".to_string())
    );
    assert_eq!(
        fp_scalar_xfer(&mut buf, RDX, 0x110, 200, false),
        Err("fp_scalar_xfer size 200 not implemented".to_string())
    );
    assert_eq!(
        fp_scalar_xfer(&mut buf, RDX, 0x110, 0, false),
        Err("fp_scalar_xfer size 0 not implemented".to_string())
    );
    assert_eq!(buf.len(), 0);
}

#[test]
fn fixup_records_a_branch() {
    let f = Fixup { target_pc: 0x4000, disp_off: 12, cc: 0x84 };
    let g = f;
    assert_eq!(g.target_pc, 0x4000);
    assert_eq!(g.disp_off, 12);
    assert_eq!(g.cc, 0x84);
    assert!(format!("{:?}", f).contains("Fixup"));
    let _ = RBX;
}
