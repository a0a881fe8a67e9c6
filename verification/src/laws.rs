//! What the translator's fixed sequences compute, stated over the machine
//! model of `crate::machine`, and what the condition-code mapping means.
use vstd::prelude::*;
use crate::machine::{
    exec_alu, exec_alu_imm, exec_lea, exec_load16, exec_load32, exec_load64, exec_load8, exec_mov,
    exec_mov_imm32, exec_mov_imm64, exec_movsxd, exec_pop, exec_popfq, exec_push, exec_pushfq,
    exec_ror32, exec_shift, exec_store16, exec_store32, exec_store64, exec_store8, lemma_byte_bounds,
    lemma_read_bound, lemma_read_split, lemma_read_write, lemma_read_write_disjoint,
    lemma_prog_bytes_concat, lemma_run_concat, lemma_take_all, lemma_write_frame, prog_bytes,
    read_mem, reg_ok, run, run_next, run_start, sext32, write_mem, byte_bound, alu, sub_flags,
    sub_overflows, add_flags, add_overflows, exec_cmc, exec_cmov, exec_not, exec_neg, flag, cf, pf, zf, sf, of, x86_cond, AluOp,
    Machine, Op, ShiftOp, FpOrder, comisd_flags,
};
use crate::decode::Inst;
use crate::translate::{
    cond_cc, guest_imm_prog, ldg_prog, ldg_src_prog, load_nzcv_to_eflags_prog, permute_off,
    permute_prog, shift_const_prog, slot_ok, slot_of, stg0_prog, stg_if_writable_prog, stg_prog,
    store_nzcv_fp_prog, store_nzcv_prog, vslot_of, xfer_prog, xfer_size_ok, zext_w_prog,
    ShiftKind, NZCV_OFF, HostLinks, branch_target, inst_bytes, inst_fixups, ld_str_imm_prog, ldst_access_prog,
    ldst_addr_prog, ldst_core_prog, ldst_off, movk_clear, wide_shift, link_bytes, ldg_src_bytes,
    jcc_bytes, call_bytes, add_sub_imm_value, adr_value, adrp_value, PC_OFF, ret_bytes,
    svc_bytes, svc_call_bytes, svc_return_bytes, stg_bytes, test_bytes, csel_bytes,
};
use crate::x86::{enc_mov_load64, mem_base_ok, RAX, RBX, RCX, RDI, RDX, R10};

verus! {

/// The packed AArch64 NZCV word: N in bit 31, Z in 30, C in 29, V in 28.
pub open spec fn nzcv_word(n: bool, z: bool, c: bool, v: bool) -> u32 {
    (if n {
        0x8000_0000u32
    } else {
        0u32
    }) | (if z {
        0x4000_0000u32
    } else {
        0u32
    }) | (if c {
        0x2000_0000u32
    } else {
        0u32
    }) | (if v {
        0x1000_0000u32
    } else {
        0u32
    })
}

/// The RFLAGS image that `load_nzcv_to_eflags` builds from the word `w`.
proof fn lemma_eflags_image(w: u64)
    ensures
        ({
            let e = ((0x202u64 | ((w >> 29u64) & 1)) | (((w >> 28u64) & 1) << 11u64)) | ((w
                >> 24u64) & 0xc0);
            &&& cf(e) == flag(w, 29)
            &&& of(e) == flag(w, 28)
            &&& zf(e) == flag(w, 30)
            &&& sf(e) == flag(w, 31)
            &&& !pf(e)
        }),
{
    assert({
        let e = ((0x202u64 | ((w >> 29u64) & 1)) | (((w >> 28u64) & 1) << 11u64)) | ((w >> 24u64)
            & 0xc0);
        &&& (((e >> 0u64) & 1 == 1) == ((w >> 29u64) & 1 == 1))
        &&& (((e >> 11u64) & 1 == 1) == ((w >> 28u64) & 1 == 1))
        &&& (((e >> 6u64) & 1 == 1) == ((w >> 30u64) & 1 == 1))
        &&& (((e >> 7u64) & 1 == 1) == ((w >> 31u64) & 1 == 1))
        &&& !((e >> 2u64) & 1 == 1)
    }) by (bit_vector);
}

/// `load_nzcv_to_eflags` sets CF, ZF, SF and OF to the C, Z, N and V bits of
/// the word at `CpuState.nzcv` (and clears PF), preserves every register but
/// RDX, which is left holding the RFLAGS image, and leaves the stack and
/// memory as they were.
pub proof fn law_load_nzcv_to_eflags(m: Machine)
    requires
        m.wf(),
    ensures
        ({
            let w = read_mem(m.mem, m.addr(RBX, NZCV_OFF), 4) as u64;
            &&& run(load_nzcv_to_eflags_prog(), m) matches Some(m2)
            &&& m2.flags matches Some(e)
            &&& m2.regs == m.regs.update(RDX as int, e)
            &&& m2.stack == m.stack
            &&& m2.mem == m.mem
            &&& cf(e) == flag(w, 29)
            &&& of(e) == flag(w, 28)
            &&& zf(e) == flag(w, 30)
            &&& sf(e) == flag(w, 31)
            &&& !pf(e)
        }),
{
    let prog = load_nzcv_to_eflags_prog();
    run_start(prog, m);
    let m1 = exec_push(m, RAX);
    run_next(prog, 0, m, m, m1);
    let m2 = exec_push(m1, RCX);
    run_next(prog, 1, m, m1, m2);
    let m3 = exec_load32(m2, RCX, RBX, NZCV_OFF);
    run_next(prog, 2, m, m2, m3);
    let m4 = exec_mov_imm64(m3, RDX, 0x202);
    run_next(prog, 3, m, m3, m4);
    let m5 = exec_mov(m4, RAX, RCX);
    run_next(prog, 4, m, m4, m5);
    let m6 = exec_shift(m5, ShiftOp::Shr, RAX, 29);
    run_next(prog, 5, m, m5, m6);
    let m7 = exec_alu_imm(m6, AluOp::And, RAX, 1);
    run_next(prog, 6, m, m6, m7);
    let m8 = exec_alu(m7, AluOp::Or, RDX, RAX);
    run_next(prog, 7, m, m7, m8);
    let m9 = exec_mov(m8, RAX, RCX);
    run_next(prog, 8, m, m8, m9);
    let m10 = exec_shift(m9, ShiftOp::Shr, RAX, 28);
    run_next(prog, 9, m, m9, m10);
    let m11 = exec_alu_imm(m10, AluOp::And, RAX, 1);
    run_next(prog, 10, m, m10, m11);
    let m12 = exec_shift(m11, ShiftOp::Shl, RAX, 11);
    run_next(prog, 11, m, m11, m12);
    let m13 = exec_alu(m12, AluOp::Or, RDX, RAX);
    run_next(prog, 12, m, m12, m13);
    let m14 = exec_mov(m13, RAX, RCX);
    run_next(prog, 13, m, m13, m14);
    let m15 = exec_shift(m14, ShiftOp::Shr, RAX, 24);
    run_next(prog, 14, m, m14, m15);
    let m16 = exec_alu_imm(m15, AluOp::And, RAX, 0xc0);
    run_next(prog, 15, m, m15, m16);
    let m17 = exec_alu(m16, AluOp::Or, RDX, RAX);
    run_next(prog, 16, m, m16, m17);
    let m18 = exec_pop(m17, RCX);
    run_next(prog, 17, m, m17, m18);
    let m19 = exec_pop(m18, RAX);
    run_next(prog, 18, m, m18, m19);
    let m20 = exec_push(m19, RDX);
    run_next(prog, 19, m, m19, m20);
    let m21 = exec_popfq(m20);
    run_next(prog, 20, m, m20, m21);
    lemma_take_all(prog);
    let w = read_mem(m.mem, m.addr(RBX, NZCV_OFF), 4) as u64;
    assert(m3.reg(RCX) == w);
    lemma_eflags_image(w);
    assert(m21.regs =~= m.regs.update(RDX as int, m21.flags.unwrap()));
}

/// The NZCV word that `store_nzcv` computes from the RFLAGS value `f`.
proof fn lemma_nzcv_pack(f: u64, x: u64)
    ensures
        ((((x ^ x) | ((f & 1) << 29u64)) | (((f >> 11u64) & 1) << 28u64)) | (((f >> 6u64) & 1)
            << 30u64)) | (((f >> 7u64) & 1) << 31u64) == nzcv_word(sf(f), zf(f), cf(f), of(f)) as u64,
{
    assert(((((x ^ x) | ((f & 1) << 29u64)) | (((f >> 11u64) & 1) << 28u64)) | (((f >> 6u64) & 1)
        << 30u64)) | (((f >> 7u64) & 1) << 31u64) == nzcv_word(
        (f >> 7u64) & 1 == 1,
        (f >> 6u64) & 1 == 1,
        (f >> 0u64) & 1 == 1,
        (f >> 11u64) & 1 == 1,
    ) as u64) by (bit_vector);
}

/// `store_nzcv` writes the NZCV word N = SF, Z = ZF, C = CF, V = OF of the
/// live flags to `CpuState.nzcv`, and leaves every register and the stack as
/// they were; the flags are left unspecified.
pub proof fn law_store_nzcv(m: Machine)
    requires
        m.wf(),
        m.flags is Some,
    ensures
        ({
            let f = m.flags.unwrap();
            &&& run(store_nzcv_prog(), m) matches Some(m2)
            &&& m2.regs == m.regs
            &&& m2.stack == m.stack
            &&& m2.flags is None
            &&& m2.mem == write_mem(
                m.mem,
                m.addr(RBX, NZCV_OFF),
                nzcv_word(sf(f), zf(f), cf(f), of(f)) as nat,
                4,
            )
        }),
{
    let prog = store_nzcv_prog();
    run_start(prog, m);
    let m1 = exec_push(m, RAX);
    run_next(prog, 0, m, m, m1);
    let m2 = exec_push(m1, RCX);
    run_next(prog, 1, m, m1, m2);
    let m3 = exec_push(m2, RDX);
    run_next(prog, 2, m, m2, m3);
    let m4 = exec_pushfq(m3);
    run_next(prog, 3, m, m3, m4);
    let m5 = exec_pop(m4, RAX);
    run_next(prog, 4, m, m4, m5);
    let m6 = exec_alu(m5, AluOp::Xor, RDX, RDX);
    run_next(prog, 5, m, m5, m6);
    let m7 = exec_mov(m6, RCX, RAX);
    run_next(prog, 6, m, m6, m7);
    let m8 = exec_alu_imm(m7, AluOp::And, RCX, 1);
    run_next(prog, 7, m, m7, m8);
    let m9 = exec_shift(m8, ShiftOp::Shl, RCX, 29);
    run_next(prog, 8, m, m8, m9);
    let m10 = exec_alu(m9, AluOp::Or, RDX, RCX);
    run_next(prog, 9, m, m9, m10);
    let m11 = exec_mov(m10, RCX, RAX);
    run_next(prog, 10, m, m10, m11);
    let m12 = exec_shift(m11, ShiftOp::Shr, RCX, 11);
    run_next(prog, 11, m, m11, m12);
    let m13 = exec_alu_imm(m12, AluOp::And, RCX, 1);
    run_next(prog, 12, m, m12, m13);
    let m14 = exec_shift(m13, ShiftOp::Shl, RCX, 28);
    run_next(prog, 13, m, m13, m14);
    let m15 = exec_alu(m14, AluOp::Or, RDX, RCX);
    run_next(prog, 14, m, m14, m15);
    let m16 = exec_mov(m15, RCX, RAX);
    run_next(prog, 15, m, m15, m16);
    let m17 = exec_shift(m16, ShiftOp::Shr, RCX, 6);
    run_next(prog, 16, m, m16, m17);
    let m18 = exec_alu_imm(m17, AluOp::And, RCX, 1);
    run_next(prog, 17, m, m17, m18);
    let m19 = exec_shift(m18, ShiftOp::Shl, RCX, 30);
    run_next(prog, 18, m, m18, m19);
    let m20 = exec_alu(m19, AluOp::Or, RDX, RCX);
    run_next(prog, 19, m, m19, m20);
    let m21 = exec_mov(m20, RCX, RAX);
    run_next(prog, 20, m, m20, m21);
    let m22 = exec_shift(m21, ShiftOp::Shr, RCX, 7);
    run_next(prog, 21, m, m21, m22);
    let m23 = exec_alu_imm(m22, AluOp::And, RCX, 1);
    run_next(prog, 22, m, m22, m23);
    let m24 = exec_shift(m23, ShiftOp::Shl, RCX, 31);
    run_next(prog, 23, m, m23, m24);
    let m25 = exec_alu(m24, AluOp::Or, RDX, RCX);
    run_next(prog, 24, m, m24, m25);
    let m26 = exec_store32(m25, RBX, NZCV_OFF, RDX);
    run_next(prog, 25, m, m25, m26);
    let m27 = exec_pop(m26, RDX);
    run_next(prog, 26, m, m26, m27);
    let m28 = exec_pop(m27, RCX);
    run_next(prog, 27, m, m27, m28);
    let m29 = exec_pop(m28, RAX);
    run_next(prog, 28, m, m28, m29);
    lemma_take_all(prog);
    let f = m.flags.unwrap();
    lemma_nzcv_pack(f, m.reg(RDX));
    assert(m29.regs =~= m.regs);
}

/// The NZCV word that `store_nzcv_fp` computes from the RFLAGS value `f`.
proof fn lemma_nzcv_pack_fp(f: u64, x: u64)
    ensures
        ((((x ^ x) | (((f >> 2u64) & 1) << 28u64)) | (((f & 1) & (((f >> 2u64) & 1) ^ 1))
            << 29u64)) | (((((f >> 6u64) & 1) & (((f >> 2u64) & 1) ^ 1))) << 30u64)) | (((f & 1)
            & (((f >> 6u64) & 1) ^ 1)) << 31u64) == nzcv_word(
            cf(f) && !zf(f),
            zf(f) && !pf(f),
            cf(f) && !pf(f),
            pf(f),
        ) as u64,
{
    assert(((((x ^ x) | (((f >> 2u64) & 1) << 28u64)) | (((f & 1) & (((f >> 2u64) & 1) ^ 1))
        << 29u64)) | (((((f >> 6u64) & 1) & (((f >> 2u64) & 1) ^ 1))) << 30u64)) | (((f & 1) & (((f
        >> 6u64) & 1) ^ 1)) << 31u64) == nzcv_word(
        (f >> 0u64) & 1 == 1 && !((f >> 6u64) & 1 == 1),
        (f >> 6u64) & 1 == 1 && !((f >> 2u64) & 1 == 1),
        (f >> 0u64) & 1 == 1 && !((f >> 2u64) & 1 == 1),
        (f >> 2u64) & 1 == 1,
    ) as u64) by (bit_vector);
}

/// `store_nzcv_fp` writes the NZCV word N = CF && !ZF, Z = ZF && !PF,
/// C = CF && !PF, V = PF of the flags of a floating-point compare to
/// `CpuState.nzcv`, leaves every register but RDI and the stack as they were,
/// and leaves the flags unspecified.
pub proof fn law_store_nzcv_fp(m: Machine)
    requires
        m.wf(),
        m.flags is Some,
    ensures
        ({
            let f = m.flags.unwrap();
            &&& run(store_nzcv_fp_prog(), m) matches Some(m2)
            &&& m2.regs == m.regs.update(RDI as int, m2.reg(RDI))
            &&& m2.stack == m.stack
            &&& m2.flags is None
            &&& m2.mem == write_mem(
                m.mem,
                m.addr(RBX, NZCV_OFF),
                nzcv_word(cf(f) && !zf(f), zf(f) && !pf(f), cf(f) && !pf(f), pf(f)) as nat,
                4,
            )
        }),
{
    let prog = store_nzcv_fp_prog();
    run_start(prog, m);
    let m1 = exec_push(m, RAX);
    run_next(prog, 0, m, m, m1);
    let m2 = exec_push(m1, RCX);
    run_next(prog, 1, m, m1, m2);
    let m3 = exec_push(m2, RDX);
    run_next(prog, 2, m, m2, m3);
    let m4 = exec_pushfq(m3);
    run_next(prog, 3, m, m3, m4);
    let m5 = exec_pop(m4, RAX);
    run_next(prog, 4, m, m4, m5);
    let m6 = exec_alu(m5, AluOp::Xor, RDX, RDX);
    run_next(prog, 5, m, m5, m6);
    let m7 = exec_mov(m6, RCX, RAX);
    run_next(prog, 6, m, m6, m7);
    let m8 = exec_shift(m7, ShiftOp::Shr, RCX, 2);
    run_next(prog, 7, m, m7, m8);
    let m9 = exec_alu_imm(m8, AluOp::And, RCX, 1);
    run_next(prog, 8, m, m8, m9);
    let m10 = exec_shift(m9, ShiftOp::Shl, RCX, 28);
    run_next(prog, 9, m, m9, m10);
    let m11 = exec_alu(m10, AluOp::Or, RDX, RCX);
    run_next(prog, 10, m, m10, m11);
    let m12 = exec_mov(m11, RCX, RAX);
    run_next(prog, 11, m, m11, m12);
    let m13 = exec_alu_imm(m12, AluOp::And, RCX, 1);
    run_next(prog, 12, m, m12, m13);
    let m14 = exec_mov(m13, RDI, RAX);
    run_next(prog, 13, m, m13, m14);
    let m15 = exec_shift(m14, ShiftOp::Shr, RDI, 2);
    run_next(prog, 14, m, m14, m15);
    let m16 = exec_alu_imm(m15, AluOp::And, RDI, 1);
    run_next(prog, 15, m, m15, m16);
    let m17 = exec_alu_imm(m16, AluOp::Xor, RDI, 1);
    run_next(prog, 16, m, m16, m17);
    let m18 = exec_alu(m17, AluOp::And, RCX, RDI);
    run_next(prog, 17, m, m17, m18);
    let m19 = exec_shift(m18, ShiftOp::Shl, RCX, 29);
    run_next(prog, 18, m, m18, m19);
    let m20 = exec_alu(m19, AluOp::Or, RDX, RCX);
    run_next(prog, 19, m, m19, m20);
    let m21 = exec_mov(m20, RCX, RAX);
    run_next(prog, 20, m, m20, m21);
    let m22 = exec_shift(m21, ShiftOp::Shr, RCX, 6);
    run_next(prog, 21, m, m21, m22);
    let m23 = exec_alu_imm(m22, AluOp::And, RCX, 1);
    run_next(prog, 22, m, m22, m23);
    let m24 = exec_mov(m23, RDI, RAX);
    run_next(prog, 23, m, m23, m24);
    let m25 = exec_shift(m24, ShiftOp::Shr, RDI, 2);
    run_next(prog, 24, m, m24, m25);
    let m26 = exec_alu_imm(m25, AluOp::And, RDI, 1);
    run_next(prog, 25, m, m25, m26);
    let m27 = exec_alu_imm(m26, AluOp::Xor, RDI, 1);
    run_next(prog, 26, m, m26, m27);
    let m28 = exec_alu(m27, AluOp::And, RCX, RDI);
    run_next(prog, 27, m, m27, m28);
    let m29 = exec_shift(m28, ShiftOp::Shl, RCX, 30);
    run_next(prog, 28, m, m28, m29);
    let m30 = exec_alu(m29, AluOp::Or, RDX, RCX);
    run_next(prog, 29, m, m29, m30);
    let m31 = exec_mov(m30, RCX, RAX);
    run_next(prog, 30, m, m30, m31);
    let m32 = exec_alu_imm(m31, AluOp::And, RCX, 1);
    run_next(prog, 31, m, m31, m32);
    let m33 = exec_mov(m32, RDI, RAX);
    run_next(prog, 32, m, m32, m33);
    let m34 = exec_shift(m33, ShiftOp::Shr, RDI, 6);
    run_next(prog, 33, m, m33, m34);
    let m35 = exec_alu_imm(m34, AluOp::And, RDI, 1);
    run_next(prog, 34, m, m34, m35);
    let m36 = exec_alu_imm(m35, AluOp::Xor, RDI, 1);
    run_next(prog, 35, m, m35, m36);
    let m37 = exec_alu(m36, AluOp::And, RCX, RDI);
    run_next(prog, 36, m, m36, m37);
    let m38 = exec_shift(m37, ShiftOp::Shl, RCX, 31);
    run_next(prog, 37, m, m37, m38);
    let m39 = exec_alu(m38, AluOp::Or, RDX, RCX);
    run_next(prog, 38, m, m38, m39);
    let m40 = exec_store32(m39, RBX, NZCV_OFF, RDX);
    run_next(prog, 39, m, m39, m40);
    let m41 = exec_pop(m40, RDX);
    run_next(prog, 40, m, m40, m41);
    let m42 = exec_pop(m41, RCX);
    run_next(prog, 41, m, m41, m42);
    let m43 = exec_pop(m42, RAX);
    run_next(prog, 42, m, m42, m43);
    lemma_take_all(prog);
    let f = m.flags.unwrap();
    lemma_nzcv_pack_fp(f, m.reg(RDX));
    assert(m43.regs =~= m.regs.update(RDI as int, m43.reg(RDI)));
}

/// The C, Z, N and V bits of a packed NZCV word are the flags it was packed
/// from.
proof fn lemma_nzcv_bits(n: bool, z: bool, c: bool, v: bool)
    ensures
        flag(nzcv_word(n, z, c, v) as u64, 31) == n,
        flag(nzcv_word(n, z, c, v) as u64, 30) == z,
        flag(nzcv_word(n, z, c, v) as u64, 29) == c,
        flag(nzcv_word(n, z, c, v) as u64, 28) == v,
{
    assert({
        let w = nzcv_word(n, z, c, v) as u64;
        &&& ((w >> 31u64) & 1 == 1) == n
        &&& ((w >> 30u64) & 1 == 1) == z
        &&& ((w >> 29u64) & 1 == 1) == c
        &&& ((w >> 28u64) & 1 == 1) == v
    }) by (bit_vector);
}

/// Storing the live flags with `store_nzcv` and loading them back with
/// `load_nzcv_to_eflags` restores CF, ZF, SF and OF; every register but RDX
/// (left holding the RFLAGS image) and the stack are as before.
pub proof fn law_nzcv_roundtrip(m: Machine)
    requires
        m.wf(),
        m.flags is Some,
    ensures
        ({
            let f = m.flags.unwrap();
            &&& run(store_nzcv_prog() + load_nzcv_to_eflags_prog(), m) matches Some(m2)
            &&& m2.flags matches Some(e)
            &&& cf(e) == cf(f)
            &&& zf(e) == zf(f)
            &&& sf(e) == sf(f)
            &&& of(e) == of(f)
            &&& m2.regs == m.regs.update(RDX as int, e)
            &&& m2.stack == m.stack
        }),
{
    let f = m.flags.unwrap();
    lemma_run_concat(store_nzcv_prog(), load_nzcv_to_eflags_prog(), m);
    law_store_nzcv(m);
    let m1 = run(store_nzcv_prog(), m).unwrap();
    law_load_nzcv_to_eflags(m1);
    let a = m.addr(RBX, NZCV_OFF);
    assert(m1.addr(RBX, NZCV_OFF) == a);
    let w = nzcv_word(sf(f), zf(f), cf(f), of(f));
    lemma_byte_bounds();
    lemma_read_write(m.mem, a, w as nat, 4);
    lemma_nzcv_bits(sf(f), zf(f), cf(f), of(f));
}

/// The N, Z, C, V bits of a 32-bit word, read as flags and packed again by
/// `nzcv_word`, are the word with its low 28 bits cleared.
proof fn lemma_nzcv_word_of(w: u64)
    requires
        w < 0x1_0000_0000,
    ensures
        nzcv_word(flag(w, 31), flag(w, 30), flag(w, 29), flag(w, 28)) as u64 == w & 0xF000_0000,
        w & 0xF000_0000 < 0x1_0000_0000,
{
    assert(((if (w >> 31u64) & 1 == 1 {
        0x8000_0000u32
    } else {
        0u32
    }) | (if (w >> 30u64) & 1 == 1 {
        0x4000_0000u32
    } else {
        0u32
    }) | (if (w >> 29u64) & 1 == 1 {
        0x2000_0000u32
    } else {
        0u32
    }) | (if (w >> 28u64) & 1 == 1 {
        0x1000_0000u32
    } else {
        0u32
    })) as u64 == w & 0xF000_0000 && w & 0xF000_0000 < 0x1_0000_0000) by (bit_vector)
        requires
            w < 0x1_0000_0000,
    ;
}

/// Loading the stored NZCV into RFLAGS with `load_nzcv_to_eflags` and
/// storing it back with `store_nzcv` keeps its N, Z, C and V bits and clears
/// the low 28; nothing else in memory changes, and every register but RDX
/// and the stack are as before.
pub proof fn law_nzcv_load_store(m: Machine)
    requires
        m.wf(),
    ensures
        ({
            let a = m.addr(RBX, NZCV_OFF);
            let w = read_mem(m.mem, a, 4) as u64;
            &&& run(load_nzcv_to_eflags_prog() + store_nzcv_prog(), m) matches Some(m2)
            &&& m2.mem == write_mem(m.mem, a, (w & 0xF000_0000) as nat, 4)
            &&& read_mem(m2.mem, a, 4) == (w & 0xF000_0000) as nat
            &&& m2.regs == m.regs.update(RDX as int, m2.reg(RDX))
            &&& m2.stack == m.stack
        }),
{
    let a = m.addr(RBX, NZCV_OFF);
    lemma_run_concat(load_nzcv_to_eflags_prog(), store_nzcv_prog(), m);
    law_load_nzcv_to_eflags(m);
    let m1 = run(load_nzcv_to_eflags_prog(), m).unwrap();
    let e = m1.flags.unwrap();
    law_store_nzcv(m1);
    let m2 = run(store_nzcv_prog(), m1).unwrap();
    lemma_byte_bounds();
    lemma_read_bound(m.mem, a, 4);
    let w = read_mem(m.mem, a, 4) as u64;
    lemma_nzcv_word_of(w);
    assert(m1.addr(RBX, NZCV_OFF) == a);
    let v = w & 0xF000_0000;
    lemma_read_write(m.mem, a, v as nat, 4);
    assert(m2.reg(RDX) == e);
}

/// Whether AArch64 condition `cond` (EQ = 0 .. LE = 13, AL = 14, NV = 15)
/// holds for the flags N, Z, C, V.
pub open spec fn arm_cond(cond: u8, n: bool, z: bool, c: bool, v: bool) -> bool {
    if cond == 0 {
        z
    } else if cond == 1 {
        !z
    } else if cond == 2 {
        c
    } else if cond == 3 {
        !c
    } else if cond == 4 {
        n
    } else if cond == 5 {
        !n
    } else if cond == 6 {
        v
    } else if cond == 7 {
        !v
    } else if cond == 8 {
        c && !z
    } else if cond == 9 {
        !(c && !z)
    } else if cond == 10 {
        n == v
    } else if cond == 11 {
        n != v
    } else if cond == 12 {
        !z && n == v
    } else if cond == 13 {
        !(!z && n == v)
    } else {
        true
    }
}

/// For every AArch64 condition but AL/NV, `x86_cc_for_cond` picks the x86
/// condition that holds exactly when the AArch64 condition holds for
/// N = SF, Z = ZF, V = OF and C = !CF (CF holds the borrow of a subtraction,
/// the inverse of the AArch64 carry). AL and NV have no x86 condition.
pub proof fn law_cond_cc(cond: u8, e: u64)
    ensures
        cond < 14 ==> (cond_cc(cond) matches Some(cc) && x86_cond(cc, e) == arm_cond(
            cond,
            sf(e),
            zf(e),
            !cf(e),
            of(e),
        )),
        cond >= 14 ==> cond_cc(cond) is None,
{
    if cond < 14 {
        let cc = cond_cc(cond).unwrap();
        assert(cc % 16 == [4u8, 5, 3, 2, 8, 9, 0, 1, 7, 6, 13, 12, 15, 14]@[cond as int]);
    }
}

/// Conditions that differ only in bit 0 are each other's negation, on both
/// sides of the mapping.
pub proof fn law_cond_cc_negation(cond: u8, e: u64)
    requires
        cond < 14,
    ensures
        cond_cc(cond ^ 1) matches Some(cc1) && cond_cc(cond) matches Some(cc) && x86_cond(cc1, e)
            == !x86_cond(cc, e),
{
    assert(cond ^ 1 == if cond % 2 == 0 {
        (cond + 1) as u8
    } else {
        (cond - 1) as u8
    }) by (bit_vector)
        requires
            cond < 14,
    ;
}

/// After `store_nzcv` has packed the flags `f` of a flag-setting x86
/// instruction and `load_nzcv_to_eflags` has loaded them back, the `jcc`
/// that `x86_cc_for_cond` picks for AArch64 condition `cond` is taken exactly
/// when `cond` holds for N = SF, Z = ZF, C = !CF and V = OF of `f` (AL and
/// NV are not mapped).
pub proof fn law_branch_after_roundtrip(m: Machine, cond: u8)
    requires
        m.wf(),
        m.flags is Some,
        cond < 14,
    ensures
        ({
            let f = m.flags.unwrap();
            &&& run(store_nzcv_prog() + load_nzcv_to_eflags_prog(), m) matches Some(m2)
            &&& m2.flags matches Some(e)
            &&& cond_cc(cond) matches Some(cc)
            &&& x86_cond(cc, e) == arm_cond(cond, sf(f), zf(f), !cf(f), of(f))
        }),
{
    law_nzcv_roundtrip(m);
    let e = run(store_nzcv_prog() + load_nzcv_to_eflags_prog(), m).unwrap().flags.unwrap();
    law_cond_cc(cond, e);
}

/// The AArch64 `fcmp` NZCV for each outcome: 1000 for less, 0110 for equal,
/// 0010 for greater, 0011 for unordered.
pub open spec fn fp_compare_nzcv(o: FpOrder) -> (bool, bool, bool, bool) {
    match o {
        FpOrder::Less => (true, false, false, false),
        FpOrder::Equal => (false, true, true, false),
        FpOrder::Greater => (false, false, true, false),
        FpOrder::Unordered => (false, false, true, true),
    }
}

/// For each outcome of a compare, the word `store_nzcv_fp` stores is the
/// AArch64 `fcmp` NZCV of that outcome, with C kept in the borrow sense
/// (inverted) like the integer flags.
pub proof fn law_fp_compare_nzcv(o: FpOrder, f: u64)
    requires
        comisd_flags(o, f),
    ensures
        ({
            let (n, z, c, v) = fp_compare_nzcv(o);
            nzcv_word(cf(f) && !zf(f), zf(f) && !pf(f), cf(f) && !pf(f), pf(f)) == nzcv_word(
                n,
                z,
                !c,
                v,
            )
        }),
{
}

// ---- guest registers ----

/// The value of guest register `g`: the quadword at `[RBX + 8*g]`.
pub open spec fn guest_reg(m: Machine, g: u32) -> nat {
    read_mem(m.mem, m.addr(RBX, slot_of(g)), 8)
}

/// `ldg(x, g)` loads guest register `g` into `x` and changes nothing else.
pub proof fn law_ldg(m: Machine, x: u8, g: u32)
    requires
        m.wf(),
        reg_ok(x),
    ensures
        run(ldg_prog(x, g), m) == Some(m.set_reg(x, guest_reg(m, g) as u64)),
{
    let prog = ldg_prog(x, g);
    run_start(prog, m);
    let m1 = exec_load64(m, x, RBX, slot_of(g));
    run_next(prog, 0, m, m, m1);
    lemma_take_all(prog);
}

/// `stg(g, x)` stores `x` into guest register `g` and changes nothing else.
pub proof fn law_stg(m: Machine, g: u32, x: u8)
    requires
        m.wf(),
        reg_ok(x),
    ensures
        run(stg_prog(g, x), m) == Some(
            Machine { mem: write_mem(m.mem, m.addr(RBX, slot_of(g)), m.reg(x) as nat, 8), ..m },
        ),
{
    let prog = stg_prog(g, x);
    run_start(prog, m);
    let m1 = exec_store64(m, RBX, slot_of(g), x);
    run_next(prog, 0, m, m, m1);
    lemma_take_all(prog);
}

/// A guest register reads back the value last stored to it: `stg(g, x)`
/// then `ldg(y, g)` leaves `y` equal to the old `x`.
pub proof fn law_stg_then_ldg(m: Machine, g: u32, x: u8, y: u8)
    requires
        m.wf(),
        reg_ok(x),
        reg_ok(y),
    ensures
        run(stg_prog(g, x) + ldg_prog(y, g), m) matches Some(m2) && m2.reg(y) == m.reg(x),
{
    lemma_run_concat(stg_prog(g, x), ldg_prog(y, g), m);
    law_stg(m, g, x);
    let m1 = run(stg_prog(g, x), m).unwrap();
    law_ldg(m1, y, g);
    lemma_byte_bounds();
    lemma_read_write(m.mem, m.addr(RBX, slot_of(g)), m.reg(x) as nat, 8);
}

/// Distinct guest registers occupy disjoint quadwords.
proof fn lemma_slots_disjoint(m: Machine, g: u32, h: u32)
    requires
        slot_ok(g),
        slot_ok(h),
        g != h,
    ensures
        m.addr(RBX, slot_of(g)) + 8 <= m.addr(RBX, slot_of(h)) || m.addr(RBX, slot_of(h)) + 8
            <= m.addr(RBX, slot_of(g)),
{
    assert(g != h ==> g as i32 != h as i32) by (bit_vector);
    let big: int = 0x1_0000_0000_0000_0000;
    let x = m.reg(RBX) + slot_of(g);
    let y = m.reg(RBX) + slot_of(h);
    vstd::arithmetic::div_mod::lemma_fundamental_div_mod(x, big);
    vstd::arithmetic::div_mod::lemma_fundamental_div_mod(y, big);
    let k = y / big - x / big;
    assert(x % big - y % big == (x - y) + big * k);
    assert(-big < x % big - y % big < big);
    assert(-big * 2 < big * k < big * 2);
    assert(-2 < k < 2);
}

/// `stg(g, x)` makes guest register `g` read `x` and leaves every other guest
/// register as it was.
pub proof fn law_stg_frame(m: Machine, g: u32, h: u32, x: u8)
    requires
        m.wf(),
        reg_ok(x),
        slot_ok(g),
        slot_ok(h),
    ensures
        run(stg_prog(g, x), m) matches Some(m1) && guest_reg(m1, g) == m.reg(x) && (h != g
            ==> guest_reg(m1, h) == guest_reg(m, h)),
{
    law_stg(m, g, x);
    lemma_byte_bounds();
    lemma_read_write(m.mem, m.addr(RBX, slot_of(g)), m.reg(x) as nat, 8);
    if h != g {
        lemma_slots_disjoint(m, g, h);
        lemma_read_write_disjoint(
            m.mem,
            m.addr(RBX, slot_of(g)),
            m.reg(x) as nat,
            8,
            m.addr(RBX, slot_of(h)),
            8,
        );
    }
}

/// `stg0(g)` makes guest register `g` read zero (through RAX, which is left
/// zero).
pub proof fn law_stg0(m: Machine, g: u32)
    requires
        m.wf(),
    ensures
        run(stg0_prog(g), m) matches Some(m1) && guest_reg(m1, g) == 0 && m1.reg(RAX) == 0
            && m1.regs == m.regs.update(RAX as int, 0) && m1.stack == m.stack && m1.flags
            == m.flags,
{
    let prog = stg0_prog(g);
    run_start(prog, m);
    let m1 = exec_mov_imm64(m, RAX, 0);
    run_next(prog, 0, m, m, m1);
    let m2 = exec_store64(m1, RBX, slot_of(g), RAX);
    run_next(prog, 1, m, m1, m2);
    lemma_take_all(prog);
    lemma_byte_bounds();
    lemma_read_write(m1.mem, m1.addr(RBX, slot_of(g)), 0, 8);
}

/// The value of a store's source field `g`: XZR (zero) for 31, else guest
/// register `g`.
pub open spec fn store_source(m: Machine, g: u32) -> nat {
    if g == 31 {
        0
    } else {
        guest_reg(m, g)
    }
}

/// `ldg_src(g)` loads the value of the store source `g` into RAX: zero for
/// register 31 (XZR, never SP).
pub proof fn law_ldg_src(m: Machine, g: u32)
    requires
        m.wf(),
    ensures
        run(ldg_src_prog(g), m) == Some(m.set_reg(RAX, store_source(m, g) as u64)),
{
    let prog = ldg_src_prog(g);
    run_start(prog, m);
    if g == 31 {
        let m1 = exec_mov_imm64(m, RAX, 0);
        run_next(prog, 0, m, m, m1);
    } else {
        let m1 = exec_load64(m, RAX, RBX, slot_of(g));
        run_next(prog, 0, m, m, m1);
    }
    lemma_take_all(prog);
}

/// `stg_if_writable(g)` stores RAX to guest register `g`, except that a load
/// into register 31 (XZR) writes nothing at all.
pub proof fn law_stg_if_writable(m: Machine, g: u32)
    requires
        m.wf(),
    ensures
        g == 31 ==> run(stg_if_writable_prog(g), m) == Some(m),
        g != 31 ==> run(stg_if_writable_prog(g), m) == run(stg_prog(g, RAX), m),
{
    if g != 31 {
        assert(stg_if_writable_prog(g) == stg_prog(g, RAX));
    } else {
        assert(stg_if_writable_prog(g).len() == 0);
    }
}

/// `mov_guest_imm(rd, val)` makes guest register `rd` read `val`, leaving
/// `val` in RAX and every other register, the stack and the flags alone.
pub proof fn law_mov_guest_imm(m: Machine, rd: u32, val: u64)
    requires
        m.wf(),
    ensures
        run(guest_imm_prog(rd, val), m) matches Some(m1) && guest_reg(m1, rd) == val
            && m1.regs == m.regs.update(RAX as int, val) && m1.stack == m.stack && m1.flags
            == m.flags,
{
    let prog = guest_imm_prog(rd, val);
    run_start(prog, m);
    let m1 = if sext32(val as u32) == val {
        exec_mov_imm32(m, RAX, val as u32)
    } else {
        exec_mov_imm64(m, RAX, val)
    };
    run_next(prog, 0, m, m, m1);
    let m2 = exec_store64(m1, RBX, slot_of(rd), RAX);
    run_next(prog, 1, m, m1, m2);
    lemma_take_all(prog);
    lemma_byte_bounds();
    lemma_read_write(m1.mem, m1.addr(RBX, slot_of(rd)), val as nat, 8);
}

/// `zext_w(r)` clears bits 63..32 of `r` and keeps bits 31..0.
pub proof fn law_zext_w(m: Machine, r: u8)
    requires
        m.wf(),
        reg_ok(r),
    ensures
        run(zext_w_prog(r), m) matches Some(m1) && m1.reg(r) == m.reg(r) & 0xffff_ffff
            && m1.regs == m.regs.update(r as int, m1.reg(r)) && m1.mem == m.mem && m1.stack
            == m.stack,
{
    let prog = zext_w_prog(r);
    run_start(prog, m);
    let m1 = exec_shift(m, ShiftOp::Shl, r, 32);
    run_next(prog, 0, m, m, m1);
    let m2 = exec_shift(m1, ShiftOp::Shr, r, 32);
    run_next(prog, 1, m, m1, m2);
    lemma_take_all(prog);
    let v = m.reg(r);
    assert((v << 32u64) >> 32u64 == v & 0xffff_ffff) by (bit_vector);
    assert(m2.regs =~= m.regs.update(r as int, m2.reg(r)));
}

/// AArch64 shift of a 64-bit operand by `amt` (0..64).
pub open spec fn arm_shift64(kind: ShiftKind, v: u64, amt: u64) -> u64 {
    match kind {
        ShiftKind::Lsl => v << amt,
        ShiftKind::Lsr => v >> amt,
        ShiftKind::Asr => ((v as i64) >> amt) as u64,
        ShiftKind::Ror => if amt == 0 {
            v
        } else {
            (v >> amt) | (v << (64 - amt) as u64)
        },
    }
}

/// AArch64 shift of a 32-bit operand by `amt` (0..32).
pub open spec fn arm_shift32(kind: ShiftKind, w: u32, amt: u32) -> u32 {
    match kind {
        ShiftKind::Lsl => w << amt,
        ShiftKind::Lsr => w >> amt,
        ShiftKind::Asr => ((w as i32) >> amt) as u32,
        ShiftKind::Ror => if amt == 0 {
            w
        } else {
            (w >> amt) | (w << (32 - amt) as u32)
        },
    }
}

/// Bit facts for the 32-bit shifts: on a zero-extended operand, the low 32
/// bits of the 64-bit shifts (the ASR after a sign extension from bit 31)
/// are the 32-bit shifts.
proof fn lemma_shift32(v: u64, c: u64)
    by (bit_vector)
    requires
        v < 0x1_0000_0000,
        c < 32,
    ensures
        (v << c) as u32 == (v as u32) << (c as u32),
        (v >> c) as u32 == (v as u32) >> (c as u32),
        ((((v as u32) as i32 as i64 as u64) as i64 >> c) as u64) as u32 == (((v as u32) as i32)
            >> (c as u32)) as u32,
        v << 0u64 == v,
        (v as u32) << 0u32 == v as u32,
{
}

/// `apply_shift_const(x, kind, amt, sf)` replaces `x` by the AArch64 shift of
/// its value and touches no other register. For a 64-bit operation (`sf`,
/// `amt` < 64) the result is the 64-bit shift; for a 32-bit one (a
/// zero-extended operand, `amt` < 32) its low 32 bits are the 32-bit shift,
/// ASR and ROR included.
pub proof fn law_shift_const(m: Machine, x: u8, kind: ShiftKind, amt: u8, sf: bool)
    requires
        m.wf(),
        reg_ok(x),
        sf ==> amt < 64,
        !sf ==> amt < 32 && m.reg(x) < 0x1_0000_0000,
    ensures
        run(shift_const_prog(x, kind, amt, sf), m) matches Some(m1) && m1.regs == m.regs.update(
            x as int,
            m1.reg(x),
        ) && m1.mem == m.mem && m1.stack == m.stack && (sf ==> m1.reg(x) == arm_shift64(
            kind,
            m.reg(x),
            amt as u64,
        )) && (!sf ==> m1.reg(x) as u32 == arm_shift32(
            kind,
            m.reg(x) as u32,
            amt as u32,
        )),
{
    let prog = shift_const_prog(x, kind, amt, sf);
    let v = m.reg(x);
    run_start(prog, m);
    if amt == 0 {
        assert(prog.len() == 0);
        assert(m.regs =~= m.regs.update(x as int, v));
        let w = v as u32;
        assert(v << 0u64 == v && v >> 0u64 == v && ((v as i64) >> 0u64) as u64 == v && w << 0u32 == w
            && w >> 0u32 == w && ((w as i32) >> 0u32) as u32 == w) by (bit_vector);
    } else {
        assert(amt % 64 == amt);
        let m_last = match kind {
            ShiftKind::Lsl => {
                let m1 = exec_shift(m, ShiftOp::Shl, x, amt);
                run_next(prog, 0, m, m, m1);
                m1
            },
            ShiftKind::Lsr => {
                let m1 = exec_shift(m, ShiftOp::Shr, x, amt);
                run_next(prog, 0, m, m, m1);
                m1
            },
            ShiftKind::Asr => if sf {
                let m1 = exec_shift(m, ShiftOp::Sar, x, amt);
                run_next(prog, 0, m, m, m1);
                m1
            } else {
                let m1 = exec_movsxd(m, x, x);
                run_next(prog, 0, m, m, m1);
                let m2 = exec_shift(m1, ShiftOp::Sar, x, amt);
                run_next(prog, 1, m, m1, m2);
                m2
            },
            ShiftKind::Ror => if sf {
                let m1 = exec_shift(m, ShiftOp::Ror, x, amt);
                run_next(prog, 0, m, m, m1);
                m1
            } else {
                let m1 = exec_ror32(m, x, amt);
                run_next(prog, 0, m, m, m1);
                m1
            },
        };
        lemma_take_all(prog);
        assert(m_last.regs =~= m.regs.update(x as int, m_last.reg(x)));
        if !sf {
            lemma_shift32(v, amt as u64);
        }
    }
}

/// The address of `[RBX + d]` for an offset inside `CpuState`, when
/// `CpuState` does not reach the top of the address space.
proof fn lemma_state_addr(m: Machine, d: i32)
    requires
        m.reg(RBX) + 0x1000 < 0x1_0000_0000_0000_0000,
        0 <= d < 0x1000,
    ensures
        m.addr(RBX, d) == m.reg(RBX) + d,
{
    vstd::arithmetic::div_mod::lemma_small_mod(
        (m.reg(RBX) + d) as nat,
        0x1_0000_0000_0000_0000nat,
    );
}

/// After `permute_source(rd, src, hi)` the 16 bytes at the returned offset
/// hold the former contents of vector register `src`, and `src` itself is
/// unchanged; when `src` aliases `rd` the copy goes through RAX, the only
/// register it changes. (Vector registers are v0..v31; `CpuState` is taken
/// not to wrap around the top of the address space.)
pub proof fn law_permute_source(m: Machine, rd: u8, src: u8, hi: bool)
    requires
        m.wf(),
        src < 32,
        m.reg(RBX) + 0x1000 < 0x1_0000_0000_0000_0000,
    ensures
        run(permute_prog(rd, src, hi), m) matches Some(m1) && read_mem(
            m1.mem,
            m1.addr(RBX, permute_off(rd, src, hi)),
            16,
        ) == read_mem(m.mem, m.addr(RBX, vslot_of(src)), 16) && read_mem(
            m1.mem,
            m1.addr(RBX, vslot_of(src)),
            16,
        ) == read_mem(m.mem, m.addr(RBX, vslot_of(src)), 16) && m1.regs == m.regs.update(
            RAX as int,
            m1.reg(RAX),
        ),
{
    let prog = permute_prog(rd, src, hi);
    run_start(prog, m);
    if src != rd {
        assert(prog.len() == 0);
        assert(m.regs =~= m.regs.update(RAX as int, m.reg(RAX)));
    } else {
        let o = vslot_of(src);
        let t = permute_off(rd, src, hi);
        let o8 = (o + 8) as i32;
        let t8 = (t + 8) as i32;
        let base = m.reg(RBX) as int;
        lemma_state_addr(m, o);
        lemma_state_addr(m, o8);
        lemma_state_addr(m, t);
        lemma_state_addr(m, t8);
        let m1 = exec_load64(m, RAX, RBX, o);
        run_next(prog, 0, m, m, m1);
        let m2 = exec_store64(m1, RBX, t, RAX);
        run_next(prog, 1, m, m1, m2);
        let m3 = exec_load64(m2, RAX, RBX, o8);
        run_next(prog, 2, m, m2, m3);
        let m4 = exec_store64(m3, RBX, t8, RAX);
        run_next(prog, 3, m, m3, m4);
        lemma_take_all(prog);
        let v0 = read_mem(m.mem, base + o, 8);
        let v1 = read_mem(m.mem, base + o8, 8);
        lemma_byte_bounds();
        lemma_read_bound(m.mem, base + o, 8);
        lemma_read_bound(m.mem, base + o8, 8);
        // the first store leaves the second half of the source alone
        lemma_read_write_disjoint(m.mem, base + t, v0, 8, base + o8, 8);
        // reading back the copy
        lemma_read_write(m2.mem, base + t8, v1, 8);
        lemma_read_write_disjoint(m2.mem, base + t8, v1, 8, base + t, 8);
        lemma_read_write(m.mem, base + t, v0, 8);
        lemma_read_split(m4.mem, base + t, 8, 8);
        lemma_read_split(m.mem, base + o, 8, 8);
        // the source is untouched
        lemma_read_write_disjoint(m.mem, base + t, v0, 8, base + o, 16);
        lemma_read_write_disjoint(m2.mem, base + t8, v1, 8, base + o, 16);
        assert(m4.regs =~= m.regs.update(RAX as int, m4.reg(RAX)));
    }
}

/// `fp_scalar_xfer` copies `size` bytes from `[addr]` to the low bytes of
/// the vector slot at `[RBX + vslot]` (`ld`), or back; every other byte of
/// memory, the rest of the 16-byte slot included, is unchanged, and RAX is
/// left holding the value copied. The source is read before the destination
/// is written, so the two ranges may overlap. A store needs an address
/// register other than RAX, which the copy goes through.
pub proof fn law_fp_scalar_xfer(m: Machine, addr: u8, vslot: i32, size: u8, ld: bool)
    requires
        m.wf(),
        reg_ok(addr),
        mem_base_ok(addr),
        !ld ==> addr != RAX,
        xfer_size_ok(size),
    ensures
        ({
            let src = if ld {
                m.addr(addr, 0)
            } else {
                m.addr(RBX, vslot)
            };
            let dst = if ld {
                m.addr(RBX, vslot)
            } else {
                m.addr(addr, 0)
            };
            &&& run(xfer_prog(addr, vslot, size, ld), m) matches Some(m1)
            &&& read_mem(m1.mem, dst, size as nat) == read_mem(m.mem, src, size as nat)
            &&& forall|x: int| !(dst <= x < dst + size) ==> #[trigger] m1.mem[x] == m.mem[x]
            &&& m1.regs == m.regs.update(RAX as int, read_mem(m.mem, src, size as nat) as u64)
        }),
{
    let prog = xfer_prog(addr, vslot, size, ld);
    let src = if ld {
        m.addr(addr, 0)
    } else {
        m.addr(RBX, vslot)
    };
    let dst = if ld {
        m.addr(RBX, vslot)
    } else {
        m.addr(addr, 0)
    };
    let n = size as nat;
    let r = read_mem(m.mem, src, n);
    run_start(prog, m);
    lemma_byte_bounds();
    lemma_read_bound(m.mem, src, n);
    let mut mf = m;
    if size == 8 {
        if ld {
            let m1 = exec_load64(m, RAX, addr, 0);
            run_next(prog, 0, m, m, m1);
            let m2 = exec_store64(m1, RBX, vslot, RAX);
            run_next(prog, 1, m, m1, m2);
            mf = m2;
        } else {
            let m1 = exec_load64(m, RAX, RBX, vslot);
            run_next(prog, 0, m, m, m1);
            let m2 = exec_store64(m1, addr, 0, RAX);
            run_next(prog, 1, m, m1, m2);
            mf = m2;
        }
    } else if size == 4 {
        if ld {
            let m1 = exec_load32(m, RAX, addr, 0);
            run_next(prog, 0, m, m, m1);
            let m2 = exec_store32(m1, RBX, vslot, RAX);
            run_next(prog, 1, m, m1, m2);
            mf = m2;
        } else {
            let m1 = exec_load32(m, RAX, RBX, vslot);
            run_next(prog, 0, m, m, m1);
            let m2 = exec_store32(m1, addr, 0, RAX);
            run_next(prog, 1, m, m1, m2);
            mf = m2;
        }
    } else if size == 2 {
        if ld {
            let m1 = exec_load16(m, RAX, addr, 0);
            run_next(prog, 0, m, m, m1);
            let m2 = exec_store16(m1, RBX, vslot, RAX);
            run_next(prog, 1, m, m1, m2);
            mf = m2;
        } else {
            let m1 = exec_load16(m, RAX, RBX, vslot);
            run_next(prog, 0, m, m, m1);
            let m2 = exec_store16(m1, addr, 0, RAX);
            run_next(prog, 1, m, m1, m2);
            mf = m2;
        }
    } else if size == 1 {
        if ld {
            let m1 = exec_load8(m, RAX, addr, 0);
            run_next(prog, 0, m, m, m1);
            let m2 = exec_store8(m1, RBX, vslot, RAX);
            run_next(prog, 1, m, m1, m2);
            mf = m2;
        } else {
            let m1 = exec_load8(m, RAX, RBX, vslot);
            run_next(prog, 0, m, m, m1);
            let m2 = exec_store8(m1, addr, 0, RAX);
            run_next(prog, 1, m, m1, m2);
            mf = m2;
        }
    }
    lemma_take_all(prog);
    assert(mf.mem == write_mem(m.mem, dst, r, n));
    assert(mf.regs =~= m.regs.update(RAX as int, r as u64));
    lemma_read_write(m.mem, dst, r, n);
    assert forall|x: int| !(dst <= x < dst + size) implies #[trigger] mf.mem[x] == m.mem[x] by {
        lemma_write_frame(m.mem, dst, r, n, x);
    }
}

/// After a floating-point compare with outcome `o` whose flags
/// `store_nzcv_fp` has packed and `load_nzcv_to_eflags` has loaded back, the
/// `jcc` that `x86_cc_for_cond` picks for AArch64 condition `cond` is taken
/// exactly when `cond` holds for the `fcmp` NZCV of `o`; in particular every
/// ordered condition (EQ, GT, GE, LT, LE, and LS for `<=`) is false on an
/// unordered (NaN) compare. AL and NV are not mapped.
pub proof fn law_fp_branch(m: Machine, o: FpOrder, cond: u8)
    requires
        m.wf(),
        m.flags matches Some(f) && comisd_flags(o, f),
        cond < 14,
    ensures
        ({
            let (n, z, c, v) = fp_compare_nzcv(o);
            &&& run(store_nzcv_fp_prog() + load_nzcv_to_eflags_prog(), m) matches Some(m2)
            &&& m2.flags matches Some(e)
            &&& cond_cc(cond) matches Some(cc)
            &&& x86_cond(cc, e) == arm_cond(cond, n, z, c, v)
        }),
{
    let f = m.flags.unwrap();
    lemma_run_concat(store_nzcv_fp_prog(), load_nzcv_to_eflags_prog(), m);
    law_store_nzcv_fp(m);
    let m1 = run(store_nzcv_fp_prog(), m).unwrap();
    law_load_nzcv_to_eflags(m1);
    let a = m.addr(RBX, NZCV_OFF);
    assert(m1.addr(RBX, NZCV_OFF) == a);
    let w = nzcv_word(cf(f) && !zf(f), zf(f) && !pf(f), cf(f) && !pf(f), pf(f));
    lemma_byte_bounds();
    lemma_read_write(m.mem, a, w as nat, 4);
    lemma_nzcv_bits(cf(f) && !zf(f), zf(f) && !pf(f), cf(f) && !pf(f), pf(f));
    law_fp_compare_nzcv(o, f);
    let e = run(store_nzcv_fp_prog() + load_nzcv_to_eflags_prog(), m).unwrap().flags.unwrap();
    law_cond_cc(cond, e);
}


// ---- translated instructions ----

/// The branch offset of a B, CBZ, TBZ or B.cond, else 0.
pub open spec fn branch_offset(inst: Inst) -> i64 {
    match inst {
        Inst::B { imm, .. } => imm,
        Inst::Cbz { imm, .. } => imm,
        Inst::Tbz { imm, .. } => imm,
        Inst::BCond { imm, .. } => imm,
        _ => 0,
    }
}

/// `translate` records at most one fixup per instruction, and it names the
/// rel32 field that ends the instruction's code: four zero bytes whose end
/// is the address the displacement counts from, aimed at `pc` plus the
/// branch offset.
pub proof fn law_fixup_field(pc: u64, host: HostLinks, inst: Inst, at: int)
    requires
        0 <= at,
        at + inst_bytes(pc, inst, host).len() <= usize::MAX,
    ensures
        inst_fixups(pc, inst, at).len() <= 1,
        inst_fixups(pc, inst, at).len() == 1 ==> ({
            let f = inst_fixups(pc, inst, at)[0];
            let code = inst_bytes(pc, inst, host);
            &&& f.disp_off + 4 == at + code.len()
            &&& code.subrange(f.disp_off - at, code.len() as int) == seq![0u8, 0u8, 0u8, 0u8]
            &&& f.target_pc == branch_target(pc, branch_offset(inst))
        }),
{
    let code = inst_bytes(pc, inst, host);
    let fx = inst_fixups(pc, inst, at);
    match inst {
        Inst::B { imm, link } => {
            if link {
                let a = link_bytes(pc);
                assert(code == a + call_bytes());
                assert(code.subrange(a.len() + 1int, code.len() as int) =~= seq![0u8, 0u8, 0u8, 0u8]);
            } else {
                assert(code.subrange(1, code.len() as int) =~= seq![0u8, 0u8, 0u8, 0u8]);
            }
        },
        Inst::Cbz { rt, imm, nonzero } => {
            let a = ldg_src_bytes(rt) + crate::x86::enc_binop(0x85, RAX, RAX);
            assert(code =~= a + jcc_bytes(if nonzero { 0x85u8 } else { 0x84u8 }));
            assert(code.subrange(a.len() + 2int, code.len() as int) =~= seq![0u8, 0u8, 0u8, 0u8]);
        },
        Inst::Tbz { rt, bit, imm, nonzero } => {
            let a = ldg_src_bytes(rt) + crate::x86::enc_mov_ri64(RCX, crate::translate::tbz_mask(bit))
                + crate::x86::enc_binop(0x85, RAX, RCX);
            assert(code =~= a + jcc_bytes(if nonzero { 0x85u8 } else { 0x84u8 }));
            assert(code.subrange(a.len() + 2int, code.len() as int) =~= seq![0u8, 0u8, 0u8, 0u8]);
        },
        Inst::BCond { cond, imm } => {
            if cond == 0xE {
                assert(code.subrange(1, code.len() as int) =~= seq![0u8, 0u8, 0u8, 0u8]);
            } else if cond != 0xF {
                if let Some(cc) = cond_cc(cond) {
                    let a = prog_bytes(load_nzcv_to_eflags_prog());
                    assert(code == a + jcc_bytes(cc));
                    assert(code.subrange(a.len() + 2int, code.len() as int) =~= seq![
                        0u8,
                        0u8,
                        0u8,
                        0u8,
                    ]);
                }
            }
        },
        _ => {},
    }
}

/// The bits MOVK computes: the 16-bit field at `shift` holds the immediate
/// and the bits that `clear` keeps are the old ones.
proof fn lemma_movk_bits(old: u64, imm: u64, sh: u32, clear: u64, sf: bool)
    requires
        sh <= 48,
        imm <= 0xffff,
        clear == (if sf {
            !(0xffffu64 << sh)
        } else {
            !(0xffffu64 << sh) & 0xffff_ffff
        }),
    ensures
        ((old & clear) | (imm << sh)) >> sh & 0xffff == imm,
        ((old & clear) | (imm << sh)) & clear == old & clear,
{
    assert(((old & clear) | (imm << sh)) >> sh & 0xffff == imm) by (bit_vector)
        requires
            sh <= 48,
            imm <= 0xffff,
            clear == (if sf {
                !(0xffffu64 << sh)
            } else {
                !(0xffffu64 << sh) & 0xffff_ffff
            }),
    ;
    assert(((old & clear) | (imm << sh)) & clear == old & clear) by (bit_vector)
        requires
            sh <= 48,
            imm <= 0xffff,
            clear == (if sf {
                !(0xffffu64 << sh)
            } else {
                !(0xffffu64 << sh) & 0xffff_ffff
            }),
    ;
}

/// MOVK as a program of the model: the old value masked, or-ed with the
/// shifted immediate, stored back.
pub open spec fn movk_prog(rd: u8, imm16: u16, hw: u8, sf: bool) -> Seq<Op> {
    seq![
        Op::Load64(RAX, RBX, slot_of(rd as u32)),
        Op::MovImm64(RCX, movk_clear(hw, sf)),
        Op::AluRR(AluOp::And, RAX, RCX),
        Op::MovImm64(RCX, (imm16 as u64) << wide_shift(hw)),
        Op::AluRR(AluOp::Or, RAX, RCX),
        Op::Store64(RBX, slot_of(rd as u32), RAX),
    ]
}

/// MOVK writes `imm16` into bits `[16*hw, 16*hw + 16)` of guest register
/// `rd` and keeps every other bit it does not clear: all of them for an X
/// destination, the rest of the low 32 for a W destination.
pub proof fn law_translate_movk(m: Machine, pc: u64, host: HostLinks, rd: u8, imm16: u16, hw: u8, sf: bool)
    requires
        m.wf(),
        hw < 4,
    ensures
        inst_bytes(pc, Inst::MoveWide { rd, imm16, hw, opc: 1, sf }, host) == prog_bytes(
            movk_prog(rd, imm16, hw, sf),
        ),
        run(movk_prog(rd, imm16, hw, sf), m) matches Some(m1) && ({
            let r = guest_reg(m1, rd as u32) as u64;
            let old = guest_reg(m, rd as u32) as u64;
            &&& guest_reg(m1, rd as u32) < 0x1_0000_0000_0000_0000
            &&& (r >> wide_shift(hw)) & 0xffff == imm16 as u64
            &&& r & movk_clear(hw, sf) == old & movk_clear(hw, sf)
        }),
{
    let prog = movk_prog(rd, imm16, hw, sf);
    reveal_with_fuel(prog_bytes, 7);
    assert(inst_bytes(pc, Inst::MoveWide { rd, imm16, hw, opc: 1, sf }, host) =~= prog_bytes(prog));
    let g = slot_of(rd as u32);
    let clear = movk_clear(hw, sf);
    let bits = (imm16 as u64) << wide_shift(hw);
    run_start(prog, m);
    let m1 = exec_load64(m, RAX, RBX, g);
    run_next(prog, 0, m, m, m1);
    let m2 = exec_mov_imm64(m1, RCX, clear);
    run_next(prog, 1, m, m1, m2);
    let m3 = exec_alu(m2, AluOp::And, RAX, RCX);
    run_next(prog, 2, m, m2, m3);
    let m4 = exec_mov_imm64(m3, RCX, bits);
    run_next(prog, 3, m, m3, m4);
    let m5 = exec_alu(m4, AluOp::Or, RAX, RCX);
    run_next(prog, 4, m, m4, m5);
    let m6 = exec_store64(m5, RBX, g, RAX);
    run_next(prog, 5, m, m5, m6);
    lemma_take_all(prog);
    lemma_byte_bounds();
    let old = guest_reg(m, rd as u32) as u64;
    assert(m5.reg(RAX) == (old & clear) | bits);
    assert(m5.addr(RBX, g) == m.addr(RBX, g));
    lemma_read_write(m5.mem, m5.addr(RBX, g), m5.reg(RAX) as nat, 8);
    assert(wide_shift(hw) <= 48);
    lemma_movk_bits(old, imm16 as u64, wide_shift(hw), clear, sf);
}

/// The address `x[rn] + off` (modulo 2^64) of a load or store.
pub open spec fn ldst_address(m: Machine, rn: u8, off: i32) -> int {
    (guest_reg(m, rn as u32) + off) % 0x1_0000_0000_0000_0000
}

/// The address part leaves `x[rn] + off` in RDX and changes nothing else.
proof fn lemma_ldst_addr(m: Machine, rn: u8, off: i32)
    requires
        m.wf(),
    ensures
        run(ldst_addr_prog(rn, off), m) == Some(m.set_reg(RDX, ldst_address(m, rn, off) as u64)),
{
    let prog = ldst_addr_prog(rn, off);
    let g = slot_of(rn as u32);
    let v = guest_reg(m, rn as u32);
    lemma_byte_bounds();
    lemma_read_bound(m.mem, m.addr(RBX, g), 8);
    run_start(prog, m);
    let m1 = exec_load64(m, RDX, RBX, g);
    run_next(prog, 0, m, m, m1);
    if off != 0 {
        let m2 = exec_lea(m1, RDX, RDX, off);
        run_next(prog, 1, m, m1, m2);
        lemma_take_all(prog);
        assert(m2.regs =~= m.set_reg(RDX, ldst_address(m, rn, off) as u64).regs);
    } else {
        lemma_take_all(prog);
        assert(v % 0x1_0000_0000_0000_0000 == v);
        assert(m1.regs =~= m.set_reg(RDX, ldst_address(m, rn, off) as u64).regs);
    }
}

/// A zero-extending load (LDR, LDRH, LDRB and the W loads) of an implemented
/// size writes the `size` bytes at `x[rn] + imm*size` to guest register `rt`.
pub proof fn law_translate_load(m: Machine, pc: u64, host: HostLinks, rt: u8, rn: u8, imm: u32, size: u8)
    requires
        m.wf(),
        size == 1 || size == 2 || size == 4 || size == 8,
        rt != 31,
    ensures
        inst_bytes(pc, Inst::LdStrImm { rt, rn, imm, size, ld: true, sext: false }, host) == prog_bytes(
            ld_str_imm_prog(rt, rn, imm, size, true, false),
        ),
        run(ld_str_imm_prog(rt, rn, imm, size, true, false), m) matches Some(m1) && guest_reg(
            m1,
            rt as u32,
        ) == read_mem(m.mem, ldst_address(m, rn, ldst_off(imm, size)), size as nat),
{
    let off = ldst_off(imm, size);
    let a = ldst_address(m, rn, off);
    let n = size as nat;
    let addr = ldst_addr_prog(rn, off);
    let core = ldst_core_prog(size, true, false, 0);
    let wb = stg_if_writable_prog(rt as u32);
    lemma_run_concat(addr, core + wb, m);
    lemma_ldst_addr(m, rn, off);
    let m1 = m.set_reg(RDX, a as u64);
    assert(0 <= a < 0x1_0000_0000_0000_0000);
    assert(m1.addr(RDX, 0) == a);
    lemma_run_concat(core, wb, m1);
    run_start(core, m1);
    let m2 = if size == 8 {
        exec_load64(m1, RAX, RDX, 0)
    } else if size == 4 {
        exec_load32(m1, RAX, RDX, 0)
    } else if size == 2 {
        exec_load16(m1, RAX, RDX, 0)
    } else {
        exec_load8(m1, RAX, RDX, 0)
    };
    run_next(core, 0, m1, m1, m2);
    lemma_take_all(core);
    lemma_byte_bounds();
    lemma_read_bound(m.mem, a, n);
    assert(read_mem(m.mem, a, n) < 0x1_0000_0000_0000_0000);
    assert(m2.reg(RAX) == read_mem(m.mem, a, n));
    law_stg_if_writable(m2, rt as u32);
    law_stg(m2, rt as u32, RAX);
    lemma_read_write(m2.mem, m2.addr(RBX, slot_of(rt as u32)), m2.reg(RAX) as nat, 8);
}

/// A store (STR, STRH, STRB and the W stores) of an implemented size writes
/// the low `size` bytes of the source `rt` (31 is XZR) at `x[rn] + imm*size`.
pub proof fn law_translate_store(m: Machine, pc: u64, host: HostLinks, rt: u8, rn: u8, imm: u32, size: u8)
    requires
        m.wf(),
        size == 1 || size == 2 || size == 4 || size == 8,
    ensures
        inst_bytes(pc, Inst::LdStrImm { rt, rn, imm, size, ld: false, sext: false }, host) == prog_bytes(
            ld_str_imm_prog(rt, rn, imm, size, false, false),
        ),
        run(ld_str_imm_prog(rt, rn, imm, size, false, false), m) matches Some(m1) && read_mem(
            m1.mem,
            ldst_address(m, rn, ldst_off(imm, size)),
            size as nat,
        ) == store_source(m, rt as u32) % byte_bound(size as nat),
{
    let off = ldst_off(imm, size);
    let a = ldst_address(m, rn, off);
    let n = size as nat;
    let addr = ldst_addr_prog(rn, off);
    let src = ldg_src_prog(rt as u32);
    let core = ldst_core_prog(size, false, false, 0);
    lemma_run_concat(addr, src + core, m);
    lemma_ldst_addr(m, rn, off);
    let m1 = m.set_reg(RDX, a as u64);
    assert(0 <= a < 0x1_0000_0000_0000_0000);
    lemma_run_concat(src, core, m1);
    law_ldg_src(m1, rt as u32);
    assert(store_source(m1, rt as u32) == store_source(m, rt as u32));
    let v = store_source(m, rt as u32);
    lemma_byte_bounds();
    if rt != 31 {
        lemma_read_bound(m.mem, m.addr(RBX, slot_of(rt as u32)), 8);
    }
    assert(v < 0x1_0000_0000_0000_0000);
    let m2 = m1.set_reg(RAX, v as u64);
    assert(m2.addr(RDX, 0) == a);
    run_start(core, m2);
    let m3 = if size == 8 {
        exec_store64(m2, RDX, 0, RAX)
    } else if size == 4 {
        exec_store32(m2, RDX, 0, RAX)
    } else if size == 2 {
        exec_store16(m2, RDX, 0, RAX)
    } else {
        exec_store8(m2, RDX, 0, RAX)
    };
    run_next(core, 0, m2, m2, m3);
    lemma_take_all(core);
    let w = if size == 8 {
        v
    } else {
        v % byte_bound(n)
    };
    assert(v % byte_bound(8) == v);
    lemma_read_write(m2.mem, a, w, n);
}

/// MOVZ and MOVN write their immediate (MOVN its complement, zero-extended
/// from 32 bits for a W destination) to guest register `rd`.
pub proof fn law_translate_mov_wide_imm(
    m: Machine,
    pc: u64, host: HostLinks,
    rd: u8,
    imm16: u16,
    hw: u8,
    opc: u8,
    sf: bool,
)
    requires
        m.wf(),
        hw < 4,
        opc != 1,
    ensures
        ({
            let val = (imm16 as u64) << wide_shift(hw);
            let want = if opc != 2 {
                val
            } else if sf {
                !val
            } else {
                !val & 0xffff_ffff
            };
            &&& inst_bytes(pc, Inst::MoveWide { rd, imm16, hw, opc, sf }, host) == prog_bytes(
                guest_imm_prog(rd as u32, want),
            )
            &&& run(guest_imm_prog(rd as u32, want), m) matches Some(m1) && guest_reg(m1, rd as u32)
                == want
        }),
{
    let val = (imm16 as u64) << wide_shift(hw);
    let want = if opc != 2 {
        val
    } else if sf {
        !val
    } else {
        !val & 0xffff_ffff
    };
    law_mov_guest_imm(m, rd as u32, want);
}

/// The program of ADR/ADRP: the address as an imm64, stored to `rd`.
pub open spec fn const_prog(rd: u8, v: u64) -> Seq<Op> {
    seq![Op::MovImm64(RAX, v), Op::Store64(RBX, slot_of(rd as u32), RAX)]
}

/// ADR writes `pc + imm` and ADRP `(pc & !0xfff) + imm` (modulo 2^64) to
/// guest register `rd`.
pub proof fn law_translate_adr(m: Machine, pc: u64, host: HostLinks, rd: u8, imm: i64, page: bool)
    requires
        m.wf(),
    ensures
        ({
            let v = if page {
                adrp_value(pc, imm)
            } else {
                adr_value(pc, imm)
            };
            let inst = if page {
                Inst::Adrp { rd, imm }
            } else {
                Inst::Adr { rd, imm }
            };
            &&& inst_bytes(pc, inst, host) == prog_bytes(const_prog(rd, v))
            &&& run(const_prog(rd, v), m) matches Some(m1) && guest_reg(m1, rd as u32) == v
        }),
{
    let v = if page {
        adrp_value(pc, imm)
    } else {
        adr_value(pc, imm)
    };
    let prog = const_prog(rd, v);
    reveal_with_fuel(prog_bytes, 3);
    let inst = if page {
        Inst::Adrp { rd, imm }
    } else {
        Inst::Adr { rd, imm }
    };
    assert(inst_bytes(pc, inst, host) =~= prog_bytes(prog));
    run_start(prog, m);
    let m1 = exec_mov_imm64(m, RAX, v);
    run_next(prog, 0, m, m, m1);
    let m2 = exec_store64(m1, RBX, slot_of(rd as u32), RAX);
    run_next(prog, 1, m, m1, m2);
    lemma_take_all(prog);
    lemma_byte_bounds();
    lemma_read_write(m1.mem, m1.addr(RBX, slot_of(rd as u32)), v as nat, 8);
}

/// The program of a 64-bit ADD/SUB (immediate) that sets no flags.
pub open spec fn add_sub_imm_prog(rd: u8, rn: u8, imm: u32, sub: bool) -> Seq<Op> {
    seq![
        Op::Load64(RAX, RBX, slot_of(rn as u32)),
        Op::AluRI(if sub { AluOp::Sub } else { AluOp::Add }, RAX, imm),
        Op::Store64(RBX, slot_of(rd as u32), RAX),
    ]
}

/// A 64-bit ADD/SUB (immediate) without flags writes `x[rn] + imm` (or
/// `- imm`) modulo 2^64 to `rd`, register 31 being SP in both places.
pub proof fn law_translate_add_sub_imm(
    m: Machine,
    pc: u64, host: HostLinks,
    rd: u8,
    rn: u8,
    imm12: u16,
    shift12: bool,
    sub: bool,
)
    requires
        m.wf(),
    ensures
        ({
            let imm = add_sub_imm_value(imm12, shift12);
            let inst = Inst::AddSubImm { rd, rn, imm12, shift12, sub, s: false, sf: true };
            let v = guest_reg(m, rn as u32);
            &&& inst_bytes(pc, inst, host) == prog_bytes(add_sub_imm_prog(rd, rn, imm, sub))
            &&& run(add_sub_imm_prog(rd, rn, imm, sub), m) matches Some(m1) && guest_reg(
                m1,
                rd as u32,
            ) == (if sub {
                v - imm
            } else {
                v + imm
            }) % 0x1_0000_0000_0000_0000
        }),
{
    let imm = add_sub_imm_value(imm12, shift12);
    let prog = add_sub_imm_prog(rd, rn, imm, sub);
    let inst = Inst::AddSubImm { rd, rn, imm12, shift12, sub, s: false, sf: true };
    reveal_with_fuel(prog_bytes, 4);
    assert(inst_bytes(pc, inst, host) =~= prog_bytes(prog));
    let op = if sub {
        AluOp::Sub
    } else {
        AluOp::Add
    };
    run_start(prog, m);
    let m1 = exec_load64(m, RAX, RBX, slot_of(rn as u32));
    run_next(prog, 0, m, m, m1);
    let m2 = exec_alu_imm(m1, op, RAX, imm);
    run_next(prog, 1, m, m1, m2);
    let m3 = exec_store64(m2, RBX, slot_of(rd as u32), RAX);
    run_next(prog, 2, m, m2, m3);
    lemma_take_all(prog);
    lemma_byte_bounds();
    let v = guest_reg(m, rn as u32);
    lemma_read_bound(m.mem, m.addr(RBX, slot_of(rn as u32)), 8);
    lemma_imm12_bound(imm12, shift12, imm);
    assert(sext32(imm) == imm);
    lemma_read_write(m2.mem, m2.addr(RBX, slot_of(rd as u32)), m2.reg(RAX) as nat, 8);
}

/// A 16-bit immediate, shifted by 0 or 12, is below 2^28.
proof fn lemma_imm12_bound(imm12: u16, shift12: bool, imm: u32)
    by (bit_vector)
    requires
        imm == ((imm12 as u64) << (if shift12 { 12u64 } else { 0u64 })) as u32,
    ensures
        imm < 0x1000_0000,
{
}

/// Register operand `g` of a data-processing instruction into `x`: XZR reads
/// zero.
pub open spec fn operand_prog(x: u8, g: u8) -> Seq<Op> {
    if g == 31 {
        seq![Op::MovImm64(x, 0)]
    } else {
        seq![Op::Load64(x, RBX, slot_of(g as u32))]
    }
}

/// The program of a 64-bit register operation `op` on `x[rn]` and the
/// shifted `x[rm]` (XZR reading zero) that sets no flags: both operands
/// loaded, the second shifted in RCX, the result written to `rd`.
pub open spec fn shifted_rr_prog(rd: u8, rn: u8, rm: u8, kind: ShiftKind, amt: u8, op: AluOp) -> Seq<Op> {
    operand_prog(RAX, rn) + operand_prog(RCX, rm) + shift_const_prog(RCX, kind, amt, true) + seq![
        Op::AluRR(op, RAX, RCX),
        Op::Store64(RBX, slot_of(rd as u32), RAX),
    ]
}

/// The AND, ORR or EOR of register `op` (0, 1, 2).
pub open spec fn logic_alu(op: u8) -> AluOp {
    if op == 0 {
        AluOp::And
    } else if op == 1 {
        AluOp::Or
    } else {
        AluOp::Xor
    }
}

/// `shifted_rr_prog` writes `op(x[rn], shift(x[rm]))` to `rd`.
proof fn lemma_run_shifted_rr(m: Machine, rd: u8, rn: u8, rm: u8, kind: ShiftKind, amt: u8, op: AluOp)
    requires
        m.wf(),
        amt < 64,
    ensures
        run(shifted_rr_prog(rd, rn, rm, kind, amt, op), m) matches Some(m1) && guest_reg(m1, rd as u32)
            == alu(
            op,
            store_source(m, rn as u32) as u64,
            arm_shift64(kind, store_source(m, rm as u32) as u64, amt as u64),
        ),
{
    let p = operand_prog(RAX, rn);
    let q = operand_prog(RCX, rm);
    let sh = shift_const_prog(RCX, kind, amt, true);
    let r = seq![Op::AluRR(op, RAX, RCX), Op::Store64(RBX, slot_of(rd as u32), RAX)];
    let prog = shifted_rr_prog(rd, rn, rm, kind, amt, op);
    lemma_byte_bounds();
    lemma_run_concat(p, q + sh + r, m);
    let m1 = if rn == 31 {
        exec_mov_imm64(m, RAX, 0)
    } else {
        exec_load64(m, RAX, RBX, slot_of(rn as u32))
    };
    run_start(p, m);
    run_next(p, 0, m, m, m1);
    lemma_take_all(p);
    lemma_run_concat(q, sh + r, m1);
    let m2 = if rm == 31 {
        exec_mov_imm64(m1, RCX, 0)
    } else {
        exec_load64(m1, RCX, RBX, slot_of(rm as u32))
    };
    run_start(q, m1);
    run_next(q, 0, m1, m1, m2);
    lemma_take_all(q);
    assert(p + (q + (sh + r)) =~= prog);
    assert(q + (sh + r) =~= q + sh + r);
    if rn != 31 {
        lemma_read_bound(m.mem, m.addr(RBX, slot_of(rn as u32)), 8);
    }
    if rm != 31 {
        lemma_read_bound(m.mem, m.addr(RBX, slot_of(rm as u32)), 8);
    }
    assert(m2.reg(RAX) == store_source(m, rn as u32));
    assert(m2.reg(RCX) == store_source(m, rm as u32));
    // the shift
    lemma_run_concat(sh, r, m2);
    law_shift_const(m2, RCX, kind, amt, true);
    let m3 = run(sh, m2)->Some_0;
    assert(m3.reg(RAX) == m2.reg(RAX));
    // the operation and the write
    run_start(r, m3);
    let m4 = exec_alu(m3, op, RAX, RCX);
    run_next(r, 0, m3, m3, m4);
    let m5 = exec_store64(m4, RBX, slot_of(rd as u32), RAX);
    run_next(r, 1, m3, m4, m5);
    lemma_take_all(r);
    lemma_read_write(m4.mem, m4.addr(RBX, slot_of(rd as u32)), m4.reg(RAX) as nat, 8);
}

/// `shifted_rr_prog` is what `translate` emits for its instruction.
proof fn lemma_shifted_rr_bytes(rd: u8, rn: u8, rm: u8, kind: ShiftKind, amt: u8, op: AluOp)
    ensures
        prog_bytes(shifted_rr_prog(rd, rn, rm, kind, amt, op)) == prog_bytes(operand_prog(RAX, rn))
            + prog_bytes(operand_prog(RCX, rm)) + prog_bytes(shift_const_prog(RCX, kind, amt, true))
            + prog_bytes(seq![Op::AluRR(op, RAX, RCX)]) + prog_bytes(stg_prog(rd as u32, RAX)),
{
    let p = operand_prog(RAX, rn);
    let q = operand_prog(RCX, rm);
    let sh = shift_const_prog(RCX, kind, amt, true);
    let a = seq![Op::AluRR(op, RAX, RCX)];
    let w = stg_prog(rd as u32, RAX);
    lemma_prog_bytes_concat(p, q);
    lemma_prog_bytes_concat(p + q, sh);
    lemma_prog_bytes_concat(p + q + sh, a + w);
    lemma_prog_bytes_concat(a, w);
    assert(a + w =~= seq![Op::AluRR(op, RAX, RCX), Op::Store64(RBX, slot_of(rd as u32), RAX)]);
}

/// A 64-bit AND/ORR/EOR (shifted register) without flags writes the
/// operation of `x[rn]` and the shifted `x[rm]` (XZR reading zero) to `rd`.
pub proof fn law_translate_logic_reg(
    m: Machine,
    pc: u64, host: HostLinks,
    rd: u8,
    rn: u8,
    rm: u8,
    op: u8,
    shift: ShiftKind,
    sh_amt: u8,
)
    requires
        m.wf(),
        op <= 2,
        rd != 31,
        sh_amt < 64,
    ensures
        ({
            let inst = Inst::LogicReg { rd, rn, rm, op, s: false, shift, sh_amt, sf: true };
            let a = store_source(m, rn as u32) as u64;
            let b = arm_shift64(shift, store_source(m, rm as u32) as u64, sh_amt as u64);
            let prog = shifted_rr_prog(rd, rn, rm, shift, sh_amt, logic_alu(op));
            &&& inst_bytes(pc, inst, host) == prog_bytes(prog)
            &&& run(prog, m) matches Some(m1) && guest_reg(m1, rd as u32) == (if op == 0 {
                a & b
            } else if op == 1 {
                a | b
            } else {
                a ^ b
            })
        }),
{
    let inst = Inst::LogicReg { rd, rn, rm, op, s: false, shift, sh_amt, sf: true };
    reveal_with_fuel(prog_bytes, 3);
    lemma_shifted_rr_bytes(rd, rn, rm, shift, sh_amt, logic_alu(op));
    assert(inst_bytes(pc, inst, host) =~= prog_bytes(shifted_rr_prog(rd, rn, rm, shift, sh_amt, logic_alu(op))));
    lemma_run_shifted_rr(m, rd, rn, rm, shift, sh_amt, logic_alu(op));
}

/// A 64-bit ADD/SUB (shifted register) without flags writes `x[rn] +
/// shift(x[rm])` (or `-`) modulo 2^64 to `rd`, XZR reading zero.
pub proof fn law_translate_add_sub_reg(
    m: Machine,
    pc: u64, host: HostLinks,
    rd: u8,
    rn: u8,
    rm: u8,
    sub: bool,
    shift: ShiftKind,
    sh_amt: u8,
)
    requires
        m.wf(),
        rd != 31,
        sh_amt < 64,
    ensures
        ({
            let inst = Inst::AddSubReg { rd, rn, rm, sub, s: false, shift, sh_amt, sf: true, sp_operand: false };
            let a = store_source(m, rn as u32);
            let b = arm_shift64(shift, store_source(m, rm as u32) as u64, sh_amt as u64);
            let prog = shifted_rr_prog(rd, rn, rm, shift, sh_amt, if sub { AluOp::Sub } else { AluOp::Add });
            &&& inst_bytes(pc, inst, host) == prog_bytes(prog)
            &&& run(prog, m) matches Some(m1) && guest_reg(m1, rd as u32) == (if sub {
                a - b
            } else {
                a + b
            }) % 0x1_0000_0000_0000_0000
        }),
{
    let op = if sub { AluOp::Sub } else { AluOp::Add };
    let inst = Inst::AddSubReg { rd, rn, rm, sub, s: false, shift, sh_amt, sf: true, sp_operand: false };
    reveal_with_fuel(prog_bytes, 3);
    lemma_shifted_rr_bytes(rd, rn, rm, shift, sh_amt, op);
    assert(inst_bytes(pc, inst, host) =~= prog_bytes(shifted_rr_prog(rd, rn, rm, shift, sh_amt, op)));
    lemma_run_shifted_rr(m, rd, rn, rm, shift, sh_amt, op);
    lemma_byte_bounds();
    if rn != 31 {
        lemma_read_bound(m.mem, m.addr(RBX, slot_of(rn as u32)), 8);
    }
}

/// The program of BR before its `ret`: the target into the guest pc.
pub open spec fn br_prog(rn: u8) -> Seq<Op> {
    seq![Op::Load64(RAX, RBX, slot_of(rn as u32)), Op::Store64(RBX, PC_OFF, RAX)]
}

/// BR stores `x[rn]` to `CpuState.pc` and returns to the dispatcher.
pub proof fn law_translate_br(m: Machine, pc: u64, host: HostLinks, rn: u8)
    requires
        m.wf(),
    ensures
        inst_bytes(pc, Inst::Br { rn }, host) == prog_bytes(br_prog(rn)) + ret_bytes(),
        run(br_prog(rn), m) matches Some(m1) && read_mem(m1.mem, m.addr(RBX, PC_OFF), 8)
            == guest_reg(m, rn as u32),
{
    let prog = br_prog(rn);
    reveal_with_fuel(prog_bytes, 3);
    assert(inst_bytes(pc, Inst::Br { rn }, host) =~= prog_bytes(prog) + ret_bytes());
    run_start(prog, m);
    let m1 = exec_load64(m, RAX, RBX, slot_of(rn as u32));
    run_next(prog, 0, m, m, m1);
    let m2 = exec_store64(m1, RBX, PC_OFF, RAX);
    run_next(prog, 1, m, m1, m2);
    lemma_take_all(prog);
    lemma_byte_bounds();
    lemma_read_bound(m.mem, m.addr(RBX, slot_of(rn as u32)), 8);
    lemma_read_write(m1.mem, m1.addr(RBX, PC_OFF), m1.reg(RAX) as nat, 8);
}

/// Two accesses at `[RBX + d1]` (`n1` bytes) and `[RBX + d2]` (`n2` bytes)
/// with `d1 + n1 <= d2` and `d2 + n2` within 2^32 of `d1` do not overlap,
/// also when the addresses wrap.
proof fn lemma_disp_disjoint(m: Machine, d1: i32, n1: nat, d2: i32, n2: nat)
    requires
        0 <= d1,
        d1 + n1 <= d2,
        d2 + n2 <= 0x1_0000_0000,
    ensures
        m.addr(RBX, d1) + n1 <= m.addr(RBX, d2) || m.addr(RBX, d2) + n2 <= m.addr(RBX, d1),
{
    let big: int = 0x1_0000_0000_0000_0000;
    let x = m.reg(RBX) + d1;
    let y = m.reg(RBX) + d2;
    vstd::arithmetic::div_mod::lemma_fundamental_div_mod(x, big);
    vstd::arithmetic::div_mod::lemma_fundamental_div_mod(y, big);
    let k = y / big - x / big;
    assert(y % big - x % big == (y - x) - big * k);
    assert(0 <= y - x < big);
    assert(-big < y % big - x % big < big);
    assert(0 <= k <= 1) by (nonlinear_arith)
        requires
            y % big - x % big == (y - x) - big * k,
            0 <= y - x < big,
            -big < y % big - x % big < big,
            big > 0,
    ;
}

/// The four flag bits of `sub_flags` read back as set.
proof fn lemma_sub_flag_bits(c: bool, z: bool, s: bool, o: bool)
    ensures
        ({
            let f = (if c {
                1u64
            } else {
                0u64
            }) | (if z {
                0x40u64
            } else {
                0u64
            }) | (if s {
                0x80u64
            } else {
                0u64
            }) | (if o {
                0x800u64
            } else {
                0u64
            });
            &&& cf(f) == c
            &&& zf(f) == z
            &&& sf(f) == s
            &&& of(f) == o
        }),
{
    let f = (if c {
        1u64
    } else {
        0u64
    }) | (if z {
        0x40u64
    } else {
        0u64
    }) | (if s {
        0x80u64
    } else {
        0u64
    }) | (if o {
        0x800u64
    } else {
        0u64
    });
    assert(((f >> 0u64) & 1 == 1) == c && ((f >> 6u64) & 1 == 1) == z && ((f >> 7u64) & 1 == 1)
        == s && ((f >> 11u64) & 1 == 1) == o) by (bit_vector)
        requires
            f == (if c {
                1u64
            } else {
                0u64
            }) | (if z {
                0x40u64
            } else {
                0u64
            }) | (if s {
                0x80u64
            } else {
                0u64
            }) | (if o {
                0x800u64
            } else {
                0u64
            }),
    ;
}

/// The program of a 64-bit SUBS (immediate): the operand (XZR for 31), the
/// subtraction, `store_nzcv`, and the write of `rd` unless it is 31 (CMP).
pub open spec fn subs_imm_prog(rd: u8, rn: u8, imm: u32) -> Seq<Op> {
    operand_prog(RAX, rn) + seq![Op::AluRI(AluOp::Sub, RAX, imm)] + store_nzcv_prog() + if rd
        != 31 {
        seq![Op::Store64(RBX, slot_of(rd as u32), RAX)]
    } else {
        Seq::empty()
    }
}

/// A 64-bit SUBS/CMP (immediate) stores the AArch64 NZCV of `x[rn] - imm`
/// (XZR for 31): N the sign of the result, Z a zero result, V signed
/// overflow, and C in the translator's borrow convention, set when
/// `x[rn] < imm` (the AArch64 C is its complement); SUBS also writes the
/// result to `rd`.
pub proof fn law_translate_subs_imm(m: Machine, pc: u64, host: HostLinks, rd: u8, rn: u8, imm12: u16, shift12: bool)
    requires
        m.wf(),
        rd < 32,
    ensures
        ({
            let imm = add_sub_imm_value(imm12, shift12);
            let inst = Inst::AddSubImm { rd, rn, imm12, shift12, sub: true, s: true, sf: true };
            let v = store_source(m, rn as u32) as u64;
            let r = alu(AluOp::Sub, v, imm as u64);
            &&& inst_bytes(pc, inst, host) == prog_bytes(subs_imm_prog(rd, rn, imm))
            &&& run(subs_imm_prog(rd, rn, imm), m) matches Some(m1) && read_mem(
                m1.mem,
                m.addr(RBX, NZCV_OFF),
                4,
            ) == nzcv_word(r >> 63u64 == 1, r == 0, v < imm, sub_overflows(v, imm as u64)) as nat
                && (rd != 31 ==> guest_reg(m1, rd as u32) == r)
        }),
{
    let imm = add_sub_imm_value(imm12, shift12);
    let inst = Inst::AddSubImm { rd, rn, imm12, shift12, sub: true, s: true, sf: true };
    let p = operand_prog(RAX, rn);
    let q = seq![Op::AluRI(AluOp::Sub, RAX, imm)];
    let n = store_nzcv_prog();
    let w = if rd != 31 {
        seq![Op::Store64(RBX, slot_of(rd as u32), RAX)]
    } else {
        Seq::empty()
    };
    // the bytes
    reveal_with_fuel(prog_bytes, 2);
    lemma_prog_bytes_concat(p, q);
    lemma_prog_bytes_concat(p + q, n);
    lemma_prog_bytes_concat(p + q + n, w);
    assert(inst_bytes(pc, inst, host) =~= prog_bytes(subs_imm_prog(rd, rn, imm)));
    // the run
    lemma_byte_bounds();
    lemma_imm12_bound(imm12, shift12, imm);
    assert(sext32(imm) == imm);
    let v = store_source(m, rn as u32) as u64;
    if rn != 31 {
        lemma_read_bound(m.mem, m.addr(RBX, slot_of(rn as u32)), 8);
    }
    lemma_run_concat(p + q + n, w, m);
    lemma_run_concat(p + q, n, m);
    lemma_run_concat(p, q, m);
    let m1 = if rn == 31 {
        exec_mov_imm64(m, RAX, 0)
    } else {
        exec_load64(m, RAX, RBX, slot_of(rn as u32))
    };
    run_start(p, m);
    run_next(p, 0, m, m, m1);
    lemma_take_all(p);
    assert(m1.reg(RAX) == v);
    run_start(q, m1);
    let m2 = exec_alu_imm(m1, AluOp::Sub, RAX, imm);
    run_next(q, 0, m1, m1, m2);
    lemma_take_all(q);
    let r = alu(AluOp::Sub, v, imm as u64);
    assert(m2.reg(RAX) == r);
    assert(m2.flags == Some(sub_flags(v, imm as u64)));
    law_store_nzcv(m2);
    let m3 = run(n, m2).unwrap();
    let f = sub_flags(v, imm as u64);
    lemma_sub_flag_bits(v < imm as u64, r == 0, r >> 63u64 == 1, sub_overflows(v, imm as u64));
    let word = nzcv_word(r >> 63u64 == 1, r == 0, v < imm, sub_overflows(v, imm as u64));
    assert(m3.mem == write_mem(m2.mem, m2.addr(RBX, NZCV_OFF), word as nat, 4));
    lemma_read_write(m2.mem, m2.addr(RBX, NZCV_OFF), word as nat, 4);
    assert(m2.addr(RBX, NZCV_OFF) == m.addr(RBX, NZCV_OFF));
    if rd != 31 {
        run_start(w, m3);
        let m4 = exec_store64(m3, RBX, slot_of(rd as u32), RAX);
        run_next(w, 0, m3, m3, m4);
        lemma_take_all(w);
        assert(m3.reg(RAX) == r);
        lemma_disp_disjoint(m, slot_of(rd as u32), 8, NZCV_OFF, 4);
        assert(m3.addr(RBX, slot_of(rd as u32)) == m.addr(RBX, slot_of(rd as u32)));
        lemma_read_write_disjoint(
            m3.mem,
            m3.addr(RBX, slot_of(rd as u32)),
            r as nat,
            8,
            m.addr(RBX, NZCV_OFF),
            4,
        );
        lemma_read_write(m3.mem, m3.addr(RBX, slot_of(rd as u32)), r as nat, 8);
    } else {
        assert(w.len() == 0);
        assert(run(w, m3) == Some(m3));
    }
}

/// The program of a 64-bit ADDS (immediate): the operand (XZR for 31), the
/// addition, `cmc`, `store_nzcv`, and the write of `rd` unless it is 31
/// (CMN).
pub open spec fn adds_imm_prog(rd: u8, rn: u8, imm: u32) -> Seq<Op> {
    operand_prog(RAX, rn) + seq![Op::AluRI(AluOp::Add, RAX, imm), Op::Cmc] + store_nzcv_prog()
        + if rd != 31 {
        seq![Op::Store64(RBX, slot_of(rd as u32), RAX)]
    } else {
        Seq::empty()
    }
}

/// A 64-bit ADDS/CMN (immediate) stores the AArch64 NZCV of `x[rn] + imm`
/// (XZR for 31): N the sign of the sum, Z a zero sum, V signed overflow, and
/// C in the translator's borrow convention, set when the addition does not
/// carry out (the AArch64 C is its complement); ADDS also writes the sum to
/// `rd`.
pub proof fn law_translate_adds_imm(m: Machine, pc: u64, host: HostLinks, rd: u8, rn: u8, imm12: u16, shift12: bool)
    requires
        m.wf(),
        rd < 32,
    ensures
        ({
            let imm = add_sub_imm_value(imm12, shift12);
            let inst = Inst::AddSubImm { rd, rn, imm12, shift12, sub: false, s: true, sf: true };
            let v = store_source(m, rn as u32) as u64;
            let r = alu(AluOp::Add, v, imm as u64);
            &&& inst_bytes(pc, inst, host) == prog_bytes(adds_imm_prog(rd, rn, imm))
            &&& run(adds_imm_prog(rd, rn, imm), m) matches Some(m1) && read_mem(
                m1.mem,
                m.addr(RBX, NZCV_OFF),
                4,
            ) == nzcv_word(r >> 63u64 == 1, r == 0, v + imm <= u64::MAX, add_overflows(v, imm as u64)) as nat
                && (rd != 31 ==> guest_reg(m1, rd as u32) == r)
        }),
{
    let imm = add_sub_imm_value(imm12, shift12);
    let inst = Inst::AddSubImm { rd, rn, imm12, shift12, sub: false, s: true, sf: true };
    let p = operand_prog(RAX, rn);
    let q = seq![Op::AluRI(AluOp::Add, RAX, imm), Op::Cmc];
    let n = store_nzcv_prog();
    let w = if rd != 31 {
        seq![Op::Store64(RBX, slot_of(rd as u32), RAX)]
    } else {
        Seq::empty()
    };
    // the bytes
    reveal_with_fuel(prog_bytes, 3);
    lemma_prog_bytes_concat(p, q);
    lemma_prog_bytes_concat(p + q, n);
    lemma_prog_bytes_concat(p + q + n, w);
    assert(inst_bytes(pc, inst, host) =~= prog_bytes(adds_imm_prog(rd, rn, imm)));
    // the run
    lemma_byte_bounds();
    lemma_imm12_bound(imm12, shift12, imm);
    assert(sext32(imm) == imm);
    let v = store_source(m, rn as u32) as u64;
    if rn != 31 {
        lemma_read_bound(m.mem, m.addr(RBX, slot_of(rn as u32)), 8);
    }
    lemma_run_concat(p + q + n, w, m);
    lemma_run_concat(p + q, n, m);
    lemma_run_concat(p, q, m);
    let m1 = if rn == 31 {
        exec_mov_imm64(m, RAX, 0)
    } else {
        exec_load64(m, RAX, RBX, slot_of(rn as u32))
    };
    run_start(p, m);
    run_next(p, 0, m, m, m1);
    lemma_take_all(p);
    assert(m1.reg(RAX) == v);
    run_start(q, m1);
    let m2 = exec_alu_imm(m1, AluOp::Add, RAX, imm);
    run_next(q, 0, m1, m1, m2);
    let m2c = exec_cmc(m2);
    run_next(q, 1, m1, m2, m2c);
    lemma_take_all(q);
    let r = alu(AluOp::Add, v, imm as u64);
    assert(m2c.reg(RAX) == r);
    let carry = v + imm > u64::MAX;
    let z = r == 0;
    let sg = r >> 63u64 == 1;
    let o = add_overflows(v, imm as u64);
    let f0 = add_flags(v, imm as u64);
    assert(m2c.flags == Some(f0 ^ 1));
    assert(f0 ^ 1 == (if !carry {
        1u64
    } else {
        0u64
    }) | (if z {
        0x40u64
    } else {
        0u64
    }) | (if sg {
        0x80u64
    } else {
        0u64
    }) | (if o {
        0x800u64
    } else {
        0u64
    })) by (bit_vector)
        requires
            f0 == (if carry {
                1u64
            } else {
                0u64
            }) | (if z {
                0x40u64
            } else {
                0u64
            }) | (if sg {
                0x80u64
            } else {
                0u64
            }) | (if o {
                0x800u64
            } else {
                0u64
            }),
    ;
    law_store_nzcv(m2c);
    let m3 = run(n, m2c).unwrap();
    lemma_sub_flag_bits(!carry, z, sg, o);
    let word = nzcv_word(sg, z, !carry, o);
    assert(m3.mem == write_mem(m2c.mem, m2c.addr(RBX, NZCV_OFF), word as nat, 4));
    lemma_read_write(m2c.mem, m2c.addr(RBX, NZCV_OFF), word as nat, 4);
    assert(m2c.addr(RBX, NZCV_OFF) == m.addr(RBX, NZCV_OFF));
    if rd != 31 {
        run_start(w, m3);
        let m4 = exec_store64(m3, RBX, slot_of(rd as u32), RAX);
        run_next(w, 0, m3, m3, m4);
        lemma_take_all(w);
        assert(m3.reg(RAX) == r);
        lemma_disp_disjoint(m, slot_of(rd as u32), 8, NZCV_OFF, 4);
        assert(m3.addr(RBX, slot_of(rd as u32)) == m.addr(RBX, slot_of(rd as u32)));
        lemma_read_write_disjoint(
            m3.mem,
            m3.addr(RBX, slot_of(rd as u32)),
            r as nat,
            8,
            m.addr(RBX, NZCV_OFF),
            4,
        );
        lemma_read_write(m3.mem, m3.addr(RBX, slot_of(rd as u32)), r as nat, 8);
    } else {
        assert(w.len() == 0);
        assert(run(w, m3) == Some(m3));
    }
}

/// The program of a 64-bit LDADD: the address, the old value (kept in RDI),
/// the operand, the sum stored back, and the old value to `rt` unless it is
/// 31.
pub open spec fn ldadd_prog(rs: u8, rn: u8, rt: u8) -> Seq<Op> {
    seq![
        Op::Load64(RDX, RBX, slot_of(rn as u32)),
        Op::Load64(RAX, RDX, 0),
        Op::MovRR(RDI, RAX),
        Op::Load64(RCX, RBX, slot_of(rs as u32)),
        Op::AluRR(AluOp::Add, RAX, RCX),
        Op::Store64(RDX, 0, RAX),
    ] + if rt != 31 {
        seq![Op::MovRR(RAX, RDI), Op::Store64(RBX, slot_of(rt as u32), RAX)]
    } else {
        Seq::empty()
    }
}

/// A 64-bit LDADD adds `x[rs]` to the quadword at `x[rn]` (modulo 2^64) and
/// gives `rt` the old value; the sum stays in memory unless the target is
/// `rt`'s own slot in `CpuState`.
pub proof fn law_translate_ldadd(m: Machine, pc: u64, host: HostLinks, rs: u8, rn: u8, rt: u8)
    requires
        m.wf(),
    ensures
        ({
            let a = guest_reg(m, rn as u32);
            let old = read_mem(m.mem, a as int, 8);
            let x = guest_reg(m, rs as u32);
            let inst = Inst::LseAtomic { op: 0, size64: true, rs, rn, rt };
            &&& inst_bytes(pc, inst, host) == prog_bytes(ldadd_prog(rs, rn, rt))
            &&& run(ldadd_prog(rs, rn, rt), m) matches Some(m1) && (rt != 31 ==> guest_reg(
                m1,
                rt as u32,
            ) == old) && ((rt == 31 || a + 8 <= m.addr(RBX, slot_of(rt as u32)) || m.addr(
                RBX,
                slot_of(rt as u32),
            ) + 8 <= a) ==> read_mem(m1.mem, a as int, 8) == (old + x) % 0x1_0000_0000_0000_0000)
        }),
{
    let core = seq![
        Op::Load64(RDX, RBX, slot_of(rn as u32)),
        Op::Load64(RAX, RDX, 0),
        Op::MovRR(RDI, RAX),
        Op::Load64(RCX, RBX, slot_of(rs as u32)),
        Op::AluRR(AluOp::Add, RAX, RCX),
        Op::Store64(RDX, 0, RAX),
    ];
    let tail = if rt != 31 {
        seq![Op::MovRR(RAX, RDI), Op::Store64(RBX, slot_of(rt as u32), RAX)]
    } else {
        Seq::empty()
    };
    let inst = Inst::LseAtomic { op: 0, size64: true, rs, rn, rt };
    reveal_with_fuel(prog_bytes, 7);
    lemma_prog_bytes_concat(core, tail);
    assert(inst_bytes(pc, inst, host) =~= prog_bytes(ldadd_prog(rs, rn, rt)));
    lemma_byte_bounds();
    let a = guest_reg(m, rn as u32);
    let old = read_mem(m.mem, a as int, 8);
    let x = guest_reg(m, rs as u32);
    lemma_read_bound(m.mem, m.addr(RBX, slot_of(rn as u32)), 8);
    lemma_read_bound(m.mem, a as int, 8);
    lemma_read_bound(m.mem, m.addr(RBX, slot_of(rs as u32)), 8);
    lemma_run_concat(core, tail, m);
    run_start(core, m);
    let m1 = exec_load64(m, RDX, RBX, slot_of(rn as u32));
    run_next(core, 0, m, m, m1);
    assert(m1.addr(RDX, 0) == a);
    let m2 = exec_load64(m1, RAX, RDX, 0);
    run_next(core, 1, m, m1, m2);
    let m3 = exec_mov(m2, RDI, RAX);
    run_next(core, 2, m, m2, m3);
    let m4 = exec_load64(m3, RCX, RBX, slot_of(rs as u32));
    run_next(core, 3, m, m3, m4);
    let m5 = exec_alu(m4, AluOp::Add, RAX, RCX);
    run_next(core, 4, m, m4, m5);
    let m6 = exec_store64(m5, RDX, 0, RAX);
    run_next(core, 5, m, m5, m6);
    lemma_take_all(core);
    let sum = (old + x) % 0x1_0000_0000_0000_0000;
    assert(m5.reg(RAX) == sum);
    assert(m6.addr(RDX, 0) == a);
    lemma_read_write(m5.mem, a as int, sum as nat, 8);
    if rt != 31 {
        run_start(tail, m6);
        let m7 = exec_mov(m6, RAX, RDI);
        run_next(tail, 0, m6, m6, m7);
        let m8 = exec_store64(m7, RBX, slot_of(rt as u32), RAX);
        run_next(tail, 1, m6, m7, m8);
        lemma_take_all(tail);
        assert(m7.reg(RAX) == old);
        lemma_read_write(m7.mem, m7.addr(RBX, slot_of(rt as u32)), old as nat, 8);
        if a + 8 <= m.addr(RBX, slot_of(rt as u32)) || m.addr(RBX, slot_of(rt as u32)) + 8 <= a {
            lemma_read_write_disjoint(m7.mem, m7.addr(RBX, slot_of(rt as u32)), old as nat, 8, a as int, 8);
        }
    } else {
        assert(tail.len() == 0);
    }
}

/// In the code of an SVC the redirect test's `jne` (by 16) lands on the
/// final `ret`, so a pending signal returns to the dispatcher with x0
/// untouched, and the exit test's `jne` (by 2) lands just past the code,
/// skipping both `ret`s.
pub proof fn law_svc_branches(pc: u64, host: HostLinks)
    ensures
        ({
            let b = svc_bytes(pc, host);
            let j = svc_call_bytes(pc, host).len() + enc_mov_load64(RCX, RBX, host.redirect_off).len()
                + 3;
            &&& b[j as int] == 0x75 && b[j + 1int] == 16
            &&& j + 2 + 16 == b.len() - 1
            &&& b[b.len() - 1] == 0xC3 && b[b.len() - 2] == 0xC3
            &&& b[b.len() - 4] == 0x75 && b[b.len() - 3] == 2
        }),
{
    let c = svc_call_bytes(pc, host);
    let l = enc_mov_load64(RCX, RBX, host.redirect_off);
    let x0 = stg_bytes(0, RAX);
    let lp = enc_mov_load64(RAX, RBX, PC_OFF);
    reveal_with_fuel(prog_bytes, 2);
    assert(slot_of(0) == 0);
    let sp = stg_prog(0, RAX);
    assert(sp.drop_last() =~= Seq::<Op>::empty());
    assert(x0 =~= crate::x86::enc_mov_store64(RBX, 0, RAX));
    assert(3u8 & 7u8 == 3u8) by (bit_vector);
    assert(crate::x86::enc_mem(RAX, RBX, 0).len() == 1);
    assert(x0.len() == 3);
    assert(lp.len() == 7);
    assert(test_bytes(RCX).len() == 3);
    assert(test_bytes(RAX).len() == 3);
    let head = l + test_bytes(RCX);
    let tail = x0 + lp + test_bytes(RAX) + seq![0x75u8, 2u8] + seq![0xC3u8] + seq![0xC3u8];
    assert(svc_return_bytes(host) =~= head + seq![0x75u8, 16u8] + tail);
    assert(tail.len() == 17);
    let b = svc_bytes(pc, host);
    assert(b =~= c + head + seq![0x75u8, 16u8] + tail);
    let j = c.len() + l.len() + 3;
    assert(b[j as int] == 0x75);
    assert(b[j + 1int] == 16);
    assert(tail[16] == 0xC3 && tail[15] == 0xC3 && tail[14] == 2 && tail[13] == 0x75);
}

/// Loading operand `g` into `x` (register 31 as XZR) sets `x` to its value
/// and nothing else.
proof fn lemma_operand(m: Machine, x: u8, g: u8)
    requires
        m.wf(),
        reg_ok(x),
    ensures
        run(operand_prog(x, g), m) == Some(m.set_reg(x, store_source(m, g as u32) as u64)),
        store_source(m, g as u32) < 0x1_0000_0000_0000_0000,
{
    let p = operand_prog(x, g);
    lemma_byte_bounds();
    let m1 = if g == 31 {
        exec_mov_imm64(m, x, 0)
    } else {
        exec_load64(m, x, RBX, slot_of(g as u32))
    };
    run_start(p, m);
    run_next(p, 0, m, m, m1);
    lemma_take_all(p);
    if g != 31 {
        lemma_read_bound(m.mem, m.addr(RBX, slot_of(g as u32)), 8);
    }
}

/// The else-operand transform of CSINC (`op` 1), CSINV (2), CSNEG (3) on
/// R10; nothing for CSEL.
pub open spec fn csel_op_prog(op: u8) -> Seq<Op> {
    if op == 1 {
        seq![Op::AluRI(AluOp::Add, R10, 1)]
    } else if op == 2 {
        seq![Op::Not(R10)]
    } else if op == 3 {
        seq![Op::Neg(R10)]
    } else {
        Seq::empty()
    }
}

/// The value CSEL/CSINC/CSINV/CSNEG takes when the condition fails.
pub open spec fn csel_else(op: u8, b: u64) -> u64 {
    if op == 1 {
        ((b + 1) % 0x1_0000_0000_0000_0000) as u64
    } else if op == 2 {
        !b
    } else if op == 3 {
        (0u64 as int - b as int) as u64
    } else {
        b
    }
}

/// The program of a 64-bit CSEL-family instruction on a condition with a
/// jcc: the operands into RDI and R10, the else transform, NZCV into RFLAGS,
/// `cmov` and the write of `rd` unless it is 31.
pub open spec fn csel_prog(rd: u8, rn: u8, rm: u8, cond: u8, op: u8) -> Seq<Op> {
    operand_prog(RDI, rn) + operand_prog(R10, rm) + csel_op_prog(op) + load_nzcv_to_eflags_prog()
        + seq![Op::Cmov((cond_cc(cond).unwrap() - 0x40) as u8, R10, RDI)] + if rd != 31 {
        seq![Op::Store64(RBX, slot_of(rd as u32), R10)]
    } else {
        Seq::empty()
    }
}

proof fn lemma_csel_bytes(pc: u64, host: HostLinks, rd: u8, rn: u8, rm: u8, cond: u8, op: u8)
    requires
        cond < 14,
        op <= 3,
    ensures
        inst_bytes(pc, Inst::CSel { rd, rn, rm, cond, op, sf: true }, host) == prog_bytes(
            csel_prog(rd, rn, rm, cond, op),
        ),
{
    let cc = cond_cc(cond).unwrap();
    let p = operand_prog(RDI, rn);
    let q = operand_prog(R10, rm);
    let o = csel_op_prog(op);
    let l = load_nzcv_to_eflags_prog();
    let c = seq![Op::Cmov((cc - 0x40) as u8, R10, RDI)];
    let wr = if rd != 31 {
        seq![Op::Store64(RBX, slot_of(rd as u32), R10)]
    } else {
        Seq::empty()
    };
    reveal_with_fuel(prog_bytes, 2);
    lemma_prog_bytes_concat(p, q);
    lemma_prog_bytes_concat(p + q, o);
    lemma_prog_bytes_concat(p + q + o, l);
    lemma_prog_bytes_concat(p + q + o + l, c);
    lemma_prog_bytes_concat(p + q + o + l + c, wr);
    assert(prog_bytes(p) =~= crate::translate::reg_or_zero_bytes(RDI, rn));
    assert(prog_bytes(q) =~= crate::translate::reg_or_zero_bytes(R10, rm));
    assert(prog_bytes(o) =~= crate::translate::csel_op_bytes(op));
    assert(inst_bytes(pc, Inst::CSel { rd, rn, rm, cond, op, sf: true }, host) =~= prog_bytes(
        csel_prog(rd, rn, rm, cond, op),
    ));
}

/// The operands of CSEL in RDI and R10, the else transform applied.
proof fn lemma_csel_operands(m: Machine, rn: u8, rm: u8, op: u8) -> (m3: Machine)
    requires
        m.wf(),
        op <= 3,
    ensures
        run(operand_prog(RDI, rn) + operand_prog(R10, rm) + csel_op_prog(op), m) == Some(m3),
        m3.wf(),
        m3.reg(RDI) == store_source(m, rn as u32) as u64,
        m3.reg(R10) == csel_else(op, store_source(m, rm as u32) as u64),
        m3.reg(RBX) == m.reg(RBX),
        m3.mem == m.mem,
{
    let p = operand_prog(RDI, rn);
    let q = operand_prog(R10, rm);
    let o = csel_op_prog(op);
    lemma_operand(m, RDI, rn);
    let m1 = m.set_reg(RDI, store_source(m, rn as u32) as u64);
    lemma_operand(m1, R10, rm);
    assert(store_source(m1, rm as u32) == store_source(m, rm as u32));
    let m2 = m1.set_reg(R10, store_source(m, rm as u32) as u64);
    lemma_run_concat(p, q, m);
    assert(sext32(1) == 1);
    let m3 = if op == 1 {
        exec_alu_imm(m2, AluOp::Add, R10, 1)
    } else if op == 2 {
        exec_not(m2, R10)
    } else if op == 3 {
        exec_neg(m2, R10)
    } else {
        m2
    };
    if op >= 1 {
        run_start(o, m2);
        run_next(o, 0, m2, m2, m3);
        lemma_take_all(o);
    } else {
        assert(run(o, m2) == Some(m2));
    }
    lemma_run_concat(p + q, o, m);
    m3
}

/// A 64-bit CSEL/CSINC/CSINV/CSNEG on a condition other than AL and NV
/// writes to `rd` the value of `rn` (XZR for 31) when the AArch64 condition
/// holds for the flags in the stored NZCV word, else `rm` (XZR for 31)
/// unchanged, plus one, inverted or negated. The stored C bit is the
/// translator's borrow: the AArch64 C is its complement.
pub proof fn law_translate_csel(m: Machine, pc: u64, host: HostLinks, rd: u8, rn: u8, rm: u8, cond: u8, op: u8)
    requires
        m.wf(),
        rd < 32,
        cond < 14,
        op <= 3,
    ensures
        ({
            let inst = Inst::CSel { rd, rn, rm, cond, op, sf: true };
            let w = read_mem(m.mem, m.addr(RBX, NZCV_OFF), 4) as u64;
            let a = store_source(m, rn as u32) as u64;
            let b = store_source(m, rm as u32) as u64;
            let holds = arm_cond(cond, flag(w, 31), flag(w, 30), !flag(w, 29), flag(w, 28));
            &&& inst_bytes(pc, inst, host) == prog_bytes(csel_prog(rd, rn, rm, cond, op))
            &&& run(csel_prog(rd, rn, rm, cond, op), m) matches Some(m1) && (rd != 31
                ==> guest_reg(m1, rd as u32) == (if holds {
                a
            } else {
                csel_else(op, b)
            }))
        }),
{
    lemma_csel_bytes(pc, host, rd, rn, rm, cond, op);
    let cc = cond_cc(cond).unwrap();
    let pqo = operand_prog(RDI, rn) + operand_prog(R10, rm) + csel_op_prog(op);
    let l = load_nzcv_to_eflags_prog();
    let c = seq![Op::Cmov((cc - 0x40) as u8, R10, RDI)];
    let wr = if rd != 31 {
        seq![Op::Store64(RBX, slot_of(rd as u32), R10)]
    } else {
        Seq::empty()
    };
    assert(csel_prog(rd, rn, rm, cond, op) =~= pqo + l + c + wr);
    let a = store_source(m, rn as u32) as u64;
    let b = store_source(m, rm as u32) as u64;
    let m3 = lemma_csel_operands(m, rn, rm, op);
    law_load_nzcv_to_eflags(m3);
    let m4 = run(l, m3).unwrap();
    let e = m4.flags.unwrap();
    lemma_run_concat(pqo, l, m);
    let w = read_mem(m.mem, m.addr(RBX, NZCV_OFF), 4) as u64;
    assert(m3.addr(RBX, NZCV_OFF) == m.addr(RBX, NZCV_OFF));
    law_cond_cc(cond, e);
    assert((cc - 0x40) as u8 % 16 == cc % 16);
    let m5 = exec_cmov(m4, (cc - 0x40) as u8, R10, RDI, e);
    run_start(c, m4);
    run_next(c, 0, m4, m4, m5);
    lemma_take_all(c);
    lemma_run_concat(pqo + l, c, m);
    let holds = arm_cond(cond, flag(w, 31), flag(w, 30), !flag(w, 29), flag(w, 28));
    assert(m5.reg(R10) == (if holds { a } else { csel_else(op, b) }));
    lemma_run_concat(pqo + l + c, wr, m);
    if rd != 31 {
        run_start(wr, m5);
        let m6 = exec_store64(m5, RBX, slot_of(rd as u32), R10);
        run_next(wr, 0, m5, m5, m6);
        lemma_take_all(wr);
        lemma_byte_bounds();
        lemma_read_write(m5.mem, m5.addr(RBX, slot_of(rd as u32)), m5.reg(R10) as nat, 8);
        assert(m5.addr(RBX, slot_of(rd as u32)) == m.addr(RBX, slot_of(rd as u32)));
    }
}

} // verus!
