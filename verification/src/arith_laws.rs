//! What the translated 64-bit multiply, divide, rotate, extract, bitfield
//! and variable-shift instructions compute, and when the translated
//! compare-and-branch and test-and-branch instructions branch, stated over
//! the machine model of `crate::machine`.
//!
//! Each law pairs the program whose bytes `translate` emits for the
//! instruction (the X form) with the value it leaves in the destination
//! register. In these translations a source register 31 is read from the
//! stack-pointer slot, where AArch64 reads XZR, so the laws leave it out.
use vstd::prelude::*;
use crate::machine::{
    exec_alu, exec_alu32, exec_alu_imm, exec_div, exec_neg, exec_movsxd, exec_zext32, exec_bswap, exec_lzcnt,
    byte_reverse, bit_length, exec_imul, exec_mov, exec_mov_imm64, exec_mul_wide,
    exec_shift, exec_shift_cl, exec_test, exec_adc, exec_cmc, cf, flag, read_mem,
    logic_flags, x86_cond, lemma_byte_bounds, lemma_prog_bytes_concat, lemma_read_bound,
    lemma_read_write, lemma_run_concat, lemma_take_all, op_bytes, pow64, prog_bytes, reg_ok, run,
    run_next, run_start, sext32, shift, step, wide_product, write_mem, AluOp, Machine, Op, ShiftOp,
};
use crate::decode::Inst;
use crate::laws::{
    arm_shift32, arm_shift64, guest_reg, law_ldg, law_ldg_src, law_load_nzcv_to_eflags,
    law_shift_const, law_stg, law_zext_w, operand_prog, store_source,
};
use crate::translate::{
    bfi_lsb, field_mask, inst_bytes, jcc_bytes, ldg_prog, ldg_src_prog, low_mask, slot_of, stg_prog,
    tbz_mask, zero_test_cc, load_nzcv_to_eflags_prog, shift_const_prog, zext_w_prog, HostLinks,
    ShiftKind, NZCV_OFF,
};
use crate::x86::{enc_grp3, enc_grp3_sized, R10, RAX, RBX, RCX, RDI, RDX};

verus! {

// ---- running and emitting programs piece by piece ----

/// A one-op program runs as its op.
pub(crate) proof fn lemma_run_one(op: Op, m: Machine, next: Machine)
    requires
        step(op, m) == Some(next),
    ensures
        run(seq![op], m) == Some(next),
{
    let p = seq![op];
    run_start(p, m);
    run_next(p, 0, m, m, next);
    lemma_take_all(p);
}

/// Running `p` and then `q` is running `p + q`.
pub(crate) proof fn lemma_run_seq(p: Seq<Op>, q: Seq<Op>, m: Machine, m1: Machine, m2: Machine)
    requires
        run(p, m) == Some(m1),
        run(q, m1) == Some(m2),
    ensures
        run(p + q, m) == Some(m2),
{
    lemma_run_concat(p, q, m);
}

/// The bytes of a one-op program are those of its op.
pub(crate) proof fn lemma_bytes_one(a: Op)
    ensures
        prog_bytes(seq![a]) == op_bytes(a),
{
    reveal_with_fuel(prog_bytes, 2);
    assert(seq![a].drop_last() =~= Seq::<Op>::empty());
    assert(prog_bytes(seq![a]) =~= op_bytes(a));
}

/// The bytes of a two-op program are those of its ops, in order.
pub(crate) proof fn lemma_bytes_two(a: Op, b: Op)
    ensures
        prog_bytes(seq![a, b]) == op_bytes(a) + op_bytes(b),
{
    lemma_bytes_one(a);
    assert(seq![a, b].drop_last() =~= seq![a]);
}

/// The bytes of a three-op program are those of its ops, in order.
proof fn lemma_bytes_three(a: Op, b: Op, c: Op)
    ensures
        prog_bytes(seq![a, b, c]) == op_bytes(a) + op_bytes(b) + op_bytes(c),
{
    lemma_bytes_two(a, b);
    assert(seq![a, b, c].drop_last() =~= seq![a, b]);
}

/// Loading guest register `g` into `x` sets `x` to its value, below 2^64,
/// and leaves memory and the other registers alone.
pub(crate) proof fn lemma_load(m: Machine, x: u8, g: u8) -> (m1: Machine)
    requires
        m.wf(),
        reg_ok(x),
    ensures
        run(ldg_prog(x, g as u32), m) == Some(m1),
        m1 == m.set_reg(x, guest_reg(m, g as u32) as u64),
        m1.reg(x) == guest_reg(m, g as u32),
        guest_reg(m, g as u32) < pow64(),
{
    law_ldg(m, x, g as u32);
    lemma_byte_bounds();
    lemma_read_bound(m.mem, m.addr(RBX, slot_of(g as u32)), 8);
    m.set_reg(x, guest_reg(m, g as u32) as u64)
}

/// Storing `x` to guest register `rd` makes `rd` read back the value of `x`.
pub(crate) proof fn lemma_write_back(m: Machine, rd: u8, x: u8) -> (m1: Machine)
    requires
        m.wf(),
        reg_ok(x),
    ensures
        run(stg_prog(rd as u32, x), m) == Some(m1),
        guest_reg(m1, rd as u32) == m.reg(x),
{
    law_stg(m, rd as u32, x);
    lemma_byte_bounds();
    lemma_read_write(m.mem, m.addr(RBX, slot_of(rd as u32)), m.reg(x) as nat, 8);
    Machine { mem: write_mem(m.mem, m.addr(RBX, slot_of(rd as u32)), m.reg(x) as nat, 8), ..m }
}

/// `v | 0` and `v << 0` are `v`, `v ^ v` is zero, and `v ^ 1` flips bit 0
/// of `v`.
proof fn lemma_or_zero_xor_self(v: u64)
    ensures
        v | 0u64 == v,
        v << 0u8 == v,
        v ^ v == 0u64,
        (((v ^ 1) >> 0u64) & 1 == 1) == !((v >> 0u64) & 1 == 1),
{
    assert(v | 0u64 == v && v << 0u8 == v && v ^ v == 0u64 && (((v ^ 1) >> 0u64) & 1 == 1) == !((v
        >> 0u64) & 1 == 1)) by (bit_vector);
}

/// A sign-extended 32-bit value is its signed value modulo 2^64: for the
/// word `v`, and for the immediate `i`; the low word of `w` is `w` modulo
/// 2^32; and the negation of `w` is `2^64 - w` (zero for zero).
pub(crate) proof fn lemma_sext32_value(v: u32, i: i32, w: u64)
    by (bit_vector)
    ensures
        w % 0x1_0000_0000 == (w as u32) as u64,
        w == 0 ==> (0u64 as int - w as int) as u64 == 0u64,
        w != 0 ==> (0u64 as int - w as int) as u64 == (0xffff_ffff_ffff_ffffu64 - w + 1) as u64,
        (v as i32) >= 0 ==> sext32(v) == v as u64,
        (v as i32) < 0 ==> sext32(v) == (0xffff_ffff_ffff_ffffu64 - ((-1 - (v as i32)) as u64)) as u64,
        i >= 0 ==> sext32(i as u32) == i as u64,
        i < 0 ==> sext32(i as u32) == (0xffff_ffff_ffff_ffffu64 - ((-1 - i) as u64)) as u64,
{
}

/// Masking with the low six bits is reducing modulo 64.
proof fn lemma_mask63(v: u64, w: u32)
    ensures
        v & 0x3fu64 == v % 64,
        w & 63u32 == w % 64,
{
    vstd::bits::lemma_low_bits_mask_values();
    vstd::arithmetic::power2::lemma2_to64();
    vstd::bits::lemma_u64_low_bits_mask_is_mod(v, 6);
    vstd::bits::lemma_u32_low_bits_mask_is_mod(w, 6);
}

// ---- ROR (immediate) ----

/// The program of a 64-bit ROR (immediate): `x[rn]` rotated in RAX and
/// written to `rd`.
pub open spec fn ror_prog(rd: u8, rn: u8, rot: u32) -> Seq<Op> {
    ldg_prog(RAX, rn as u32) + seq![Op::ShiftRI(ShiftOp::Ror, RAX, (rot & 63u32) as u8)] + stg_prog(
        rd as u32,
        RAX,
    )
}

/// ROR (immediate, X form) writes `x[rn]` rotated right by `rot` (modulo
/// 64) to `rd`.
pub proof fn law_translate_ror(m: Machine, pc: u64, host: HostLinks, rd: u8, rn: u8, rot: u32)
    requires
        m.wf(),
        rn != 31,
    ensures
        inst_bytes(pc, Inst::Ror { rd, rn, rot, sf: true }, host) == prog_bytes(ror_prog(rd, rn, rot)),
        run(ror_prog(rd, rn, rot), m) matches Some(m1) && guest_reg(m1, rd as u32) == arm_shift64(
            ShiftKind::Ror,
            guest_reg(m, rn as u32) as u64,
            (rot % 64) as u64,
        ),
{
    let p = ldg_prog(RAX, rn as u32);
    let s = seq![Op::ShiftRI(ShiftOp::Ror, RAX, (rot & 63u32) as u8)];
    let w = stg_prog(rd as u32, RAX);
    lemma_bytes_one(Op::ShiftRI(ShiftOp::Ror, RAX, (rot & 63u32) as u8));
    lemma_prog_bytes_concat(p, s);
    lemma_prog_bytes_concat(p + s, w);
    assert(inst_bytes(pc, Inst::Ror { rd, rn, rot, sf: true }, host) =~= prog_bytes(p + s + w));
    lemma_mask63(0, rot);
    let m1 = lemma_load(m, RAX, rn);
    let m2 = exec_shift(m1, ShiftOp::Ror, RAX, (rot & 63u32) as u8);
    lemma_run_one(Op::ShiftRI(ShiftOp::Ror, RAX, (rot & 63u32) as u8), m1, m2);
    let m3 = lemma_write_back(m2, rd, RAX);
    lemma_run_seq(p, s, m, m1, m2);
    lemma_run_seq(p + s, w, m, m2, m3);
}

// ---- EXTR ----

/// The value of a 64-bit EXTR: bits `l..l+64` of the pair `hi:lo`.
pub open spec fn arm_extr64(hi: u64, lo: u64, l: u64) -> u64 {
    if l == 0 {
        lo
    } else {
        (lo >> l) | (hi << (64 - l) as u64)
    }
}

/// The program of a 64-bit EXTR with shift `l` (below 64): `x[rm] >> l` in
/// RAX, `x[rn] << (64 - l)` (zero when `l` is 0) in R10, their OR written to
/// `rd`.
pub open spec fn extr_prog(rd: u8, rn: u8, rm: u8, l: u32) -> Seq<Op> {
    ldg_prog(RAX, rm as u32) + (if l == 0 {
        Seq::empty()
    } else {
        seq![Op::ShiftRI(ShiftOp::Shr, RAX, l as u8)]
    }) + ldg_prog(R10, rn as u32) + (if l == 0 {
        seq![Op::MovImm64(R10, 0)]
    } else {
        seq![Op::ShiftRI(ShiftOp::Shl, R10, (64 - l) as u8)]
    }) + seq![Op::AluRR(AluOp::Or, RAX, R10)] + stg_prog(rd as u32, RAX)
}

/// EXTR (X form) writes bits `lsb..lsb+64` (`lsb` modulo 64) of the
/// concatenation `x[rn]:x[rm]` to `rd`.
pub proof fn law_translate_extr(m: Machine, pc: u64, host: HostLinks, rd: u8, rn: u8, rm: u8, lsb: u32)
    requires
        m.wf(),
        rn != 31,
        rm != 31,
    ensures
        inst_bytes(pc, Inst::Extr { rd, rn, rm, lsb, sf: true }, host) == prog_bytes(
            extr_prog(rd, rn, rm, lsb % 64),
        ),
        run(extr_prog(rd, rn, rm, lsb % 64), m) matches Some(m1) && guest_reg(m1, rd as u32)
            == arm_extr64(
            guest_reg(m, rn as u32) as u64,
            guest_reg(m, rm as u32) as u64,
            (lsb % 64) as u64,
        ),
{
    let l = lsb % 64;
    lemma_mask63(0, lsb);
    lemma_mask63(0, (64 - l) as u32);
    let p1 = ldg_prog(RAX, rm as u32);
    let s1: Seq<Op> = if l == 0 {
        Seq::empty()
    } else {
        seq![Op::ShiftRI(ShiftOp::Shr, RAX, l as u8)]
    };
    let p2 = ldg_prog(R10, rn as u32);
    let s2: Seq<Op> = if l == 0 {
        seq![Op::MovImm64(R10, 0)]
    } else {
        seq![Op::ShiftRI(ShiftOp::Shl, R10, (64 - l) as u8)]
    };
    let o = seq![Op::AluRR(AluOp::Or, RAX, R10)];
    let w = stg_prog(rd as u32, RAX);
    // the bytes
    lemma_bytes_one(Op::ShiftRI(ShiftOp::Shr, RAX, l as u8));
    lemma_bytes_one(Op::MovImm64(R10, 0));
    lemma_bytes_one(Op::ShiftRI(ShiftOp::Shl, R10, (64 - l) as u8));
    lemma_bytes_one(Op::AluRR(AluOp::Or, RAX, R10));
    lemma_prog_bytes_concat(p1, s1);
    lemma_prog_bytes_concat(p1 + s1, p2);
    lemma_prog_bytes_concat(p1 + s1 + p2, s2);
    lemma_prog_bytes_concat(p1 + s1 + p2 + s2, o);
    lemma_prog_bytes_concat(p1 + s1 + p2 + s2 + o, w);
    assert(inst_bytes(pc, Inst::Extr { rd, rn, rm, lsb, sf: true }, host) =~= prog_bytes(
        p1 + s1 + p2 + s2 + o + w,
    ));
    // the run
    let lo = guest_reg(m, rm as u32) as u64;
    let hi = guest_reg(m, rn as u32) as u64;
    let m1 = lemma_load(m, RAX, rm);
    let m2 = if l == 0 {
        run_start(s1, m1);
        m1
    } else {
        let n = exec_shift(m1, ShiftOp::Shr, RAX, l as u8);
        lemma_run_one(Op::ShiftRI(ShiftOp::Shr, RAX, l as u8), m1, n);
        n
    };
    let m3 = lemma_load(m2, R10, rn);
    assert(guest_reg(m2, rn as u32) == guest_reg(m, rn as u32));
    let m4 = if l == 0 {
        let n = exec_mov_imm64(m3, R10, 0);
        lemma_run_one(Op::MovImm64(R10, 0), m3, n);
        n
    } else {
        let n = exec_shift(m3, ShiftOp::Shl, R10, (64 - l) as u8);
        lemma_run_one(Op::ShiftRI(ShiftOp::Shl, R10, (64 - l) as u8), m3, n);
        n
    };
    let m5 = exec_alu(m4, AluOp::Or, RAX, R10);
    lemma_run_one(Op::AluRR(AluOp::Or, RAX, R10), m4, m5);
    let m6 = lemma_write_back(m5, rd, RAX);
    lemma_run_seq(p1, s1, m, m1, m2);
    lemma_run_seq(p1 + s1, p2, m, m2, m3);
    lemma_run_seq(p1 + s1 + p2, s2, m, m3, m4);
    lemma_run_seq(p1 + s1 + p2 + s2, o, m, m4, m5);
    lemma_run_seq(p1 + s1 + p2 + s2 + o, w, m, m5, m6);
    if l == 0 {
        lemma_or_zero_xor_self(lo);
    }
}

// ---- LSLV, LSRV, ASRV, RORV ----

/// The AArch64 shift of LSLV/LSRV/ASRV/RORV (`op` 0, 1, 2, 3).
pub open spec fn var_shift_kind(op: u8) -> ShiftKind {
    if op == 0 {
        ShiftKind::Lsl
    } else if op == 1 {
        ShiftKind::Lsr
    } else if op == 2 {
        ShiftKind::Asr
    } else {
        ShiftKind::Ror
    }
}

/// The x86 shift that the translation of `op` uses.
pub open spec fn var_shift_op(op: u8) -> ShiftOp {
    if op == 0 {
        ShiftOp::Shl
    } else if op == 1 {
        ShiftOp::Shr
    } else if op == 2 {
        ShiftOp::Sar
    } else {
        ShiftOp::Ror
    }
}

/// The program of a 64-bit variable shift: the value in RAX, the count in
/// RCX masked to six bits, the shift by CL, the result written to `rd`.
pub open spec fn var_shift_prog(rd: u8, rn: u8, rm: u8, op: u8) -> Seq<Op> {
    ldg_prog(RAX, rn as u32) + ldg_prog(RCX, rm as u32) + seq![
        Op::AluRI(AluOp::And, RCX, 0x3f),
        Op::ShiftCl(var_shift_op(op), RAX),
    ] + stg_prog(rd as u32, RAX)
}

/// LSLV/LSRV/ASRV/RORV (X form) write `x[rn]` shifted by `x[rm]` modulo 64
/// to `rd`.
pub proof fn law_translate_var_shift(m: Machine, pc: u64, host: HostLinks, rd: u8, rn: u8, rm: u8, op: u8)
    requires
        m.wf(),
        rd != 31,
        rn != 31,
        rm != 31,
    ensures
        inst_bytes(pc, Inst::VarShiftVar { rd, rn, rm, op, sf: true }, host) == prog_bytes(
            var_shift_prog(rd, rn, rm, op),
        ),
        run(var_shift_prog(rd, rn, rm, op), m) matches Some(m1) && guest_reg(m1, rd as u32)
            == arm_shift64(
            var_shift_kind(op),
            guest_reg(m, rn as u32) as u64,
            (guest_reg(m, rm as u32) % 64) as u64,
        ),
{
    let p1 = ldg_prog(RAX, rn as u32);
    let p2 = ldg_prog(RCX, rm as u32);
    let a = Op::AluRI(AluOp::And, RCX, 0x3f);
    let c = Op::ShiftCl(var_shift_op(op), RAX);
    let s = seq![a, c];
    let w = stg_prog(rd as u32, RAX);
    lemma_bytes_two(a, c);
    lemma_prog_bytes_concat(p1, p2);
    lemma_prog_bytes_concat(p1 + p2, s);
    lemma_prog_bytes_concat(p1 + p2 + s, w);
    assert(inst_bytes(pc, Inst::VarShiftVar { rd, rn, rm, op, sf: true }, host) =~= prog_bytes(
        p1 + p2 + s + w,
    ));
    let v = guest_reg(m, rn as u32) as u64;
    let n = guest_reg(m, rm as u32) as u64;
    let m1 = lemma_load(m, RAX, rn);
    let m2 = lemma_load(m1, RCX, rm);
    assert(guest_reg(m1, rm as u32) == guest_reg(m, rm as u32));
    let m3 = exec_alu_imm(m2, AluOp::And, RCX, 0x3f);
    assert(sext32(0x3f) == 0x3fu64);
    lemma_mask63(n, 0);
    assert(m3.reg(RCX) == n % 64);
    let m4 = exec_shift_cl(m3, var_shift_op(op), RAX);
    run_start(s, m2);
    run_next(s, 0, m2, m2, m3);
    run_next(s, 1, m2, m3, m4);
    lemma_take_all(s);
    let m5 = lemma_write_back(m4, rd, RAX);
    lemma_run_seq(p1, p2, m, m1, m2);
    lemma_run_seq(p1 + p2, s, m, m2, m4);
    lemma_run_seq(p1 + p2 + s, w, m, m4, m5);
    assert(m4.reg(RAX) == shift(var_shift_op(op), v, ((n % 64) % 64) as u8));
}

// ---- MADD, MSUB ----

/// The program of a 64-bit MADD (`sub` false) or MSUB (true): the product in
/// RAX, then `+ x[ra]` or `x[ra] -` (through RDI) unless `ra` is 31, the
/// result written to `rd`.
pub open spec fn madd_prog(rd: u8, rn: u8, rm: u8, ra: u8, sub: bool) -> Seq<Op> {
    ldg_prog(RAX, rn as u32) + ldg_prog(RCX, rm as u32) + seq![Op::Imul(RAX, RCX)] + (if ra == 31 {
        Seq::empty()
    } else {
        ldg_prog(RDI, ra as u32) + if sub {
            seq![Op::AluRR(AluOp::Sub, RDI, RAX), Op::MovRR(RAX, RDI)]
        } else {
            seq![Op::AluRR(AluOp::Add, RAX, RDI)]
        }
    }) + stg_prog(rd as u32, RAX)
}

/// MADD (X form) writes `x[rn] * x[rm] + x[ra]` and MSUB `x[ra] - x[rn] *
/// x[rm]`, modulo 2^64, to `rd` (an `ra` of 31 reading zero). The
/// translation of MSUB with `ra` 31 (MNEG) leaves the product unnegated,
/// so the law leaves that case out.
pub proof fn law_translate_madd(
    m: Machine,
    pc: u64,
    host: HostLinks,
    rd: u8,
    rn: u8,
    rm: u8,
    ra: u8,
    sub: bool,
)
    requires
        m.wf(),
        rd != 31,
        rn != 31,
        rm != 31,
        sub ==> ra != 31,
    ensures
        inst_bytes(pc, Inst::MulDiv { div: false, signed: sub, rd, rn, rm, ra, sf: true }, host)
            == prog_bytes(madd_prog(rd, rn, rm, ra, sub)),
        run(madd_prog(rd, rn, rm, ra, sub), m) matches Some(m1) && guest_reg(m1, rd as u32) == (if sub {
            store_source(m, ra as u32) - guest_reg(m, rn as u32) * guest_reg(m, rm as u32)
        } else {
            guest_reg(m, rn as u32) * guest_reg(m, rm as u32) + store_source(m, ra as u32) as int
        }) % pow64(),
{
    let p1 = ldg_prog(RAX, rn as u32);
    let p2 = ldg_prog(RCX, rm as u32);
    let i = seq![Op::Imul(RAX, RCX)];
    let acc_op: Seq<Op> = if sub {
        seq![Op::AluRR(AluOp::Sub, RDI, RAX), Op::MovRR(RAX, RDI)]
    } else {
        seq![Op::AluRR(AluOp::Add, RAX, RDI)]
    };
    let p3 = ldg_prog(RDI, ra as u32);
    let acc: Seq<Op> = if ra == 31 {
        Seq::empty()
    } else {
        p3 + acc_op
    };
    let w = stg_prog(rd as u32, RAX);
    // the bytes
    lemma_bytes_one(Op::Imul(RAX, RCX));
    lemma_bytes_two(Op::AluRR(AluOp::Sub, RDI, RAX), Op::MovRR(RAX, RDI));
    lemma_bytes_one(Op::AluRR(AluOp::Add, RAX, RDI));
    lemma_prog_bytes_concat(p3, acc_op);
    lemma_prog_bytes_concat(p1, p2);
    lemma_prog_bytes_concat(p1 + p2, i);
    lemma_prog_bytes_concat(p1 + p2 + i, acc);
    lemma_prog_bytes_concat(p1 + p2 + i + acc, w);
    assert(inst_bytes(pc, Inst::MulDiv { div: false, signed: sub, rd, rn, rm, ra, sf: true }, host)
        =~= prog_bytes(p1 + p2 + i + acc + w));
    // the run
    let a = guest_reg(m, rn as u32) as int;
    let b = guest_reg(m, rm as u32) as int;
    let c = store_source(m, ra as u32) as int;
    let m1 = lemma_load(m, RAX, rn);
    let m2 = lemma_load(m1, RCX, rm);
    assert(guest_reg(m1, rm as u32) == b);
    let m3 = exec_imul(m2, RAX, RCX);
    lemma_run_one(Op::Imul(RAX, RCX), m2, m3);
    let prod = (a * b) % pow64();
    assert(m3.reg(RAX) == prod);
    let m4 = if ra == 31 {
        run_start(acc, m3);
        m3
    } else {
        let n1 = lemma_load(m3, RDI, ra);
        assert(guest_reg(m3, ra as u32) == guest_reg(m, ra as u32));
        let n2 = if sub {
            let k1 = exec_alu(n1, AluOp::Sub, RDI, RAX);
            let k2 = exec_mov(k1, RAX, RDI);
            run_start(acc_op, n1);
            run_next(acc_op, 0, n1, n1, k1);
            run_next(acc_op, 1, n1, k1, k2);
            lemma_take_all(acc_op);
            k2
        } else {
            let k1 = exec_alu(n1, AluOp::Add, RAX, RDI);
            lemma_run_one(Op::AluRR(AluOp::Add, RAX, RDI), n1, k1);
            k1
        };
        lemma_run_seq(p3, acc_op, m3, n1, n2);
        n2
    };
    let m5 = lemma_write_back(m4, rd, RAX);
    lemma_run_seq(p1, p2, m, m1, m2);
    lemma_run_seq(p1 + p2, i, m, m2, m3);
    lemma_run_seq(p1 + p2 + i, acc, m, m3, m4);
    lemma_run_seq(p1 + p2 + i + acc, w, m, m4, m5);
    // the arithmetic modulo 2^64
    if ra == 31 {
        assert(c == 0);
        assert(m4.reg(RAX) == (a * b + c) % pow64());
    } else {
        assert(c == guest_reg(m, ra as u32));
        vstd::arithmetic::div_mod::lemma_small_mod(c as nat, pow64() as nat);
        if sub {
            vstd::arithmetic::div_mod::lemma_sub_mod_noop(c, a * b, pow64());
            assert(m4.reg(RAX) == (c - a * b) % pow64());
        } else {
            vstd::arithmetic::div_mod::lemma_add_mod_noop(a * b, c, pow64());
            assert(m4.reg(RAX) == (a * b + c) % pow64());
        }
    }
}

// ---- UMULH, SMULH ----

/// The high 64 bits of the 128-bit product of UMULH (`signed` false) or
/// SMULH (true), as an unsigned value.
pub open spec fn arm_mul_high(signed: bool, a: u64, b: u64) -> int {
    let p = if signed {
        (a as i64) as int * (b as i64) as int
    } else {
        a as int * b as int
    };
    (p / pow64()) % pow64()
}

/// The program of UMULH/SMULH: one-operand `mul`/`imul` of RAX by RCX, the
/// high half (RDX) written to `rd`.
pub open spec fn mul_high_prog(rd: u8, rn: u8, rm: u8, signed: bool) -> Seq<Op> {
    ldg_prog(RAX, rn as u32) + ldg_prog(RCX, rm as u32) + seq![Op::MulWide(signed, RCX)] + stg_prog(
        rd as u32,
        RDX,
    )
}

/// UMULH/SMULH write the high 64 bits of the full product of `x[rn]` and
/// `x[rm]` (unsigned, or as two's complement) to `rd`.
pub proof fn law_translate_mul_high(m: Machine, pc: u64, host: HostLinks, rd: u8, rn: u8, rm: u8, signed: bool)
    requires
        m.wf(),
        rd != 31,
        rn != 31,
        rm != 31,
    ensures
        inst_bytes(pc, Inst::MulHigh { rd, rn, rm, signed }, host) == prog_bytes(
            mul_high_prog(rd, rn, rm, signed),
        ),
        run(mul_high_prog(rd, rn, rm, signed), m) matches Some(m1) && guest_reg(m1, rd as u32)
            == arm_mul_high(signed, guest_reg(m, rn as u32) as u64, guest_reg(m, rm as u32) as u64),
{
    let p1 = ldg_prog(RAX, rn as u32);
    let p2 = ldg_prog(RCX, rm as u32);
    let x = seq![Op::MulWide(signed, RCX)];
    let w = stg_prog(rd as u32, RDX);
    lemma_bytes_one(Op::MulWide(signed, RCX));
    lemma_prog_bytes_concat(p1, p2);
    lemma_prog_bytes_concat(p1 + p2, x);
    lemma_prog_bytes_concat(p1 + p2 + x, w);
    assert(inst_bytes(pc, Inst::MulHigh { rd, rn, rm, signed }, host) =~= prog_bytes(p1 + p2 + x + w));
    let m1 = lemma_load(m, RAX, rn);
    let m2 = lemma_load(m1, RCX, rm);
    assert(guest_reg(m1, rm as u32) == guest_reg(m, rm as u32));
    let m3 = exec_mul_wide(m2, signed, RCX);
    lemma_run_one(Op::MulWide(signed, RCX), m2, m3);
    let m4 = lemma_write_back(m3, rd, RDX);
    lemma_run_seq(p1, p2, m, m1, m2);
    lemma_run_seq(p1 + p2, x, m, m2, m3);
    lemma_run_seq(p1 + p2 + x, w, m, m3, m4);
    let p = wide_product(signed, m2.reg(RAX), m2.reg(RCX));
    vstd::arithmetic::div_mod::lemma_mod_bound(p / pow64(), pow64());
    assert(m3.reg(RDX) == (p / pow64()) % pow64());
}

// ---- UDIV ----

/// The program of a 64-bit UDIV: the dividend in RAX, RDX cleared, `div` by
/// the divisor in RCX, the quotient written to `rd`.
pub open spec fn udiv_prog(rd: u8, rn: u8, rm: u8) -> Seq<Op> {
    ldg_prog(RAX, rn as u32) + seq![Op::AluRR(AluOp::Xor, RDX, RDX)] + ldg_prog(RCX, rm as u32) + seq![
        Op::Div(RCX),
    ] + stg_prog(rd as u32, RAX)
}

/// UDIV (X form) writes the quotient `x[rn] / x[rm]`, rounded down, to `rd`.
/// The translation divides with x86 `div`, which faults on a zero divisor
/// where AArch64 gives zero, so the law needs a nonzero divisor.
pub proof fn law_translate_udiv(m: Machine, pc: u64, host: HostLinks, rd: u8, rn: u8, rm: u8, ra: u8)
    requires
        m.wf(),
        rd != 31,
        rn != 31,
        rm != 31,
        guest_reg(m, rm as u32) != 0,
    ensures
        inst_bytes(pc, Inst::MulDiv { div: true, signed: false, rd, rn, rm, ra, sf: true }, host)
            == prog_bytes(udiv_prog(rd, rn, rm)),
        run(udiv_prog(rd, rn, rm), m) matches Some(m1) && guest_reg(m1, rd as u32) == guest_reg(
            m,
            rn as u32,
        ) / guest_reg(m, rm as u32),
{
    let p1 = ldg_prog(RAX, rn as u32);
    let z = seq![Op::AluRR(AluOp::Xor, RDX, RDX)];
    let p2 = ldg_prog(RCX, rm as u32);
    let d = seq![Op::Div(RCX)];
    let w = stg_prog(rd as u32, RAX);
    lemma_bytes_one(Op::AluRR(AluOp::Xor, RDX, RDX));
    lemma_bytes_one(Op::Div(RCX));
    assert(enc_grp3_sized(true, 6, RCX) =~= enc_grp3(6, RCX));
    lemma_prog_bytes_concat(p1, z);
    lemma_prog_bytes_concat(p1 + z, p2);
    lemma_prog_bytes_concat(p1 + z + p2, d);
    lemma_prog_bytes_concat(p1 + z + p2 + d, w);
    assert(inst_bytes(pc, Inst::MulDiv { div: true, signed: false, rd, rn, rm, ra, sf: true }, host)
        =~= prog_bytes(p1 + z + p2 + d + w));
    let m1 = lemma_load(m, RAX, rn);
    let m2 = exec_alu(m1, AluOp::Xor, RDX, RDX);
    lemma_run_one(Op::AluRR(AluOp::Xor, RDX, RDX), m1, m2);
    lemma_or_zero_xor_self(m1.reg(RDX));
    assert(m2.reg(RDX) == 0);
    let m3 = lemma_load(m2, RCX, rm);
    assert(guest_reg(m2, rm as u32) == guest_reg(m, rm as u32));
    let m4 = exec_div(m3, RCX);
    lemma_run_one(Op::Div(RCX), m3, m4);
    let m5 = lemma_write_back(m4, rd, RAX);
    lemma_run_seq(p1, z, m, m1, m2);
    lemma_run_seq(p1 + z, p2, m, m2, m3);
    lemma_run_seq(p1 + z + p2, d, m, m3, m4);
    lemma_run_seq(p1 + z + p2 + d, w, m, m4, m5);
}

// ---- UDIV (divide class) ----

/// The program of a 64-bit UDIV of the divide class: both operands, RDX
/// cleared, `div`, the quotient written to `rd`.
pub open spec fn div_class_prog(rd: u8, rn: u8, rm: u8) -> Seq<Op> {
    ldg_prog(RAX, rn as u32) + ldg_prog(RCX, rm as u32) + seq![Op::AluRR(AluOp::Xor, RDX, RDX), Op::Div(RCX)]
        + stg_prog(rd as u32, RAX)
}

/// UDIV (X form, divide class) writes the quotient `x[rn] / x[rm]`, rounded
/// down, to `rd`; as for the other UDIV form, the divisor must be nonzero.
pub proof fn law_translate_div(m: Machine, pc: u64, host: HostLinks, rd: u8, rn: u8, rm: u8)
    requires
        m.wf(),
        rn != 31,
        rm != 31,
        guest_reg(m, rm as u32) != 0,
    ensures
        inst_bytes(pc, Inst::Div { rd, rn, rm, signed: false, is_x: true }, host) == prog_bytes(
            div_class_prog(rd, rn, rm),
        ),
        run(div_class_prog(rd, rn, rm), m) matches Some(m1) && guest_reg(m1, rd as u32) == guest_reg(
            m,
            rn as u32,
        ) / guest_reg(m, rm as u32),
{
    let p1 = ldg_prog(RAX, rn as u32);
    let p2 = ldg_prog(RCX, rm as u32);
    let x = Op::AluRR(AluOp::Xor, RDX, RDX);
    let d = Op::Div(RCX);
    let t = seq![x, d];
    let w = stg_prog(rd as u32, RAX);
    lemma_bytes_two(x, d);
    assert(enc_grp3_sized(true, 6, RCX) =~= enc_grp3(6, RCX));
    lemma_prog_bytes_concat(p1, p2);
    lemma_prog_bytes_concat(p1 + p2, t);
    lemma_prog_bytes_concat(p1 + p2 + t, w);
    assert(inst_bytes(pc, Inst::Div { rd, rn, rm, signed: false, is_x: true }, host) =~= prog_bytes(
        p1 + p2 + t + w,
    ));
    let m1 = lemma_load(m, RAX, rn);
    let m2 = lemma_load(m1, RCX, rm);
    assert(guest_reg(m1, rm as u32) == guest_reg(m, rm as u32));
    let m3 = exec_alu(m2, AluOp::Xor, RDX, RDX);
    lemma_or_zero_xor_self(m2.reg(RDX));
    let m4 = exec_div(m3, RCX);
    lemma_run_two(x, d, m2, m3, m4);
    let m5 = lemma_write_back(m4, rd, RAX);
    lemma_run_seq(p1, p2, m, m1, m2);
    lemma_run_seq(p1 + p2, t, m, m2, m4);
    lemma_run_seq(p1 + p2 + t, w, m, m4, m5);
}

// ---- SMULL, UMULL, SMADDL, UMADDL ----

/// The full product of the low words of `a` and `b`, as signed (SMULL) or
/// unsigned (UMULL) 32-bit values.
pub open spec fn arm_mul_long(signed: bool, a: u64, b: u64) -> int {
    if signed {
        (a as u32) as i32 as int * (b as u32) as i32 as int
    } else {
        (a as u32) as int * (b as u32) as int
    }
}

/// The widening of a 32-bit operand in place: `movsxd` or `mov r32, r32`.
pub open spec fn ext32_op(signed: bool, r: u8) -> Op {
    if signed {
        Op::Movsxd(r, r)
    } else {
        Op::Zext32(r)
    }
}

/// The program of SMULL/UMULL and, with `ra` not 31, SMADDL/UMADDL and
/// SMSUBL/UMSUBL: both operands widened, multiplied, `x[ra]` added to the
/// product or its negation, written to `rd`.
pub open spec fn mul_long_prog(rd: u8, rn: u8, rm: u8, ra: u8, signed: bool, sub: bool) -> Seq<Op> {
    ldg_prog(RAX, rn as u32) + seq![ext32_op(signed, RAX)] + ldg_prog(RCX, rm as u32) + seq![
        ext32_op(signed, RCX),
        Op::Imul(RAX, RCX),
    ] + (if ra == 31 {
        Seq::empty()
    } else {
        ldg_prog(RDI, ra as u32) + mul_long_acc_prog(sub)
    }) + stg_prog(rd as u32, RAX)
}

/// The accumulation of SMADDL/UMADDL (`x[ra]` added) or SMSUBL/UMSUBL (the
/// product negated first).
pub open spec fn mul_long_acc_prog(sub: bool) -> Seq<Op> {
    if sub {
        seq![Op::Neg(RAX), Op::AluRR(AluOp::Add, RAX, RDI)]
    } else {
        seq![Op::AluRR(AluOp::Add, RAX, RDI)]
    }
}

/// Widening a register leaves its value modulo 2^64 equal to the widened
/// 32-bit value.
proof fn lemma_ext32(m: Machine, signed: bool, r: u8) -> (m1: Machine)
    requires
        m.wf(),
        reg_ok(r),
    ensures
        step(ext32_op(signed, r), m) == Some(m1),
        m1 == m.set_reg(r, m1.reg(r)),
        m1.reg(r) as int % pow64() == (if signed {
            (m.reg(r) as u32) as i32 as int
        } else {
            (m.reg(r) as u32) as int
        }) % pow64(),
{
    let v = m.reg(r) as u32;
    vstd::arithmetic::div_mod::lemma_small_mod(v as nat, pow64() as nat);
    if signed {
        let n = exec_movsxd(m, r, r);
        lemma_sext32_value(v, 0, 0);
        let x = sext32(v);
        vstd::arithmetic::div_mod::lemma_small_mod(x as nat, pow64() as nat);
        if (v as i32) < 0 {
            assert(x as int == (v as i32) as int + pow64());
            vstd::arithmetic::div_mod::lemma_mod_add_multiples_vanish((v as i32) as int, pow64());
        } else {
            vstd::arithmetic::div_mod::lemma_small_mod((v as i32) as nat, pow64() as nat);
        }
        assert(n.regs =~= m.set_reg(r, n.reg(r)).regs);
        n
    } else {
        let n = exec_zext32(m, r);
        lemma_sext32_value(0, 0, m.reg(r));
        assert(n.regs =~= m.set_reg(r, n.reg(r)).regs);
        n
    }
}

/// SMULL/UMULL (`ra` 31) write the full 64-bit product of the low words of
/// `x[rn]` and `x[rm]` (signed or unsigned) to `rd`; SMADDL/UMADDL add
/// `x[ra]` to it and SMSUBL/UMSUBL subtract it from `x[ra]`, modulo 2^64.
/// The translation of SMNEGL/UMNEGL (`sub` with `ra` 31) leaves the product
/// unnegated, so the law leaves that case out.
pub proof fn law_translate_mul_long(
    m: Machine,
    pc: u64,
    host: HostLinks,
    rd: u8,
    rn: u8,
    rm: u8,
    ra: u8,
    signed: bool,
    sub: bool,
)
    requires
        m.wf(),
        rd != 31,
        rn != 31,
        rm != 31,
        sub ==> ra != 31,
    ensures
        inst_bytes(pc, Inst::MulLong { rd, rn, rm, ra, signed, sub }, host) == prog_bytes(
            mul_long_prog(rd, rn, rm, ra, signed, sub),
        ),
        ({
            let p = arm_mul_long(signed, guest_reg(m, rn as u32) as u64, guest_reg(m, rm as u32) as u64);
            let c = store_source(m, ra as u32) as int;
            run(mul_long_prog(rd, rn, rm, ra, signed, sub), m) matches Some(m1) && guest_reg(
                m1,
                rd as u32,
            ) == (if sub {
                c - p
            } else {
                p + c
            }) % pow64()
        }),
{
    let p1 = ldg_prog(RAX, rn as u32);
    let e1 = seq![ext32_op(signed, RAX)];
    let p2 = ldg_prog(RCX, rm as u32);
    let e2 = seq![ext32_op(signed, RCX), Op::Imul(RAX, RCX)];
    let p3 = ldg_prog(RDI, ra as u32);
    let ad = mul_long_acc_prog(sub);
    let acc: Seq<Op> = if ra == 31 {
        Seq::empty()
    } else {
        p3 + ad
    };
    let w = stg_prog(rd as u32, RAX);
    // the bytes
    lemma_bytes_one(ext32_op(signed, RAX));
    lemma_bytes_two(ext32_op(signed, RCX), Op::Imul(RAX, RCX));
    lemma_bytes_one(Op::AluRR(AluOp::Add, RAX, RDI));
    lemma_bytes_two(Op::Neg(RAX), Op::AluRR(AluOp::Add, RAX, RDI));
    lemma_prog_bytes_concat(p3, ad);
    lemma_prog_bytes_concat(p1, e1);
    lemma_prog_bytes_concat(p1 + e1, p2);
    lemma_prog_bytes_concat(p1 + e1 + p2, e2);
    lemma_prog_bytes_concat(p1 + e1 + p2 + e2, acc);
    lemma_prog_bytes_concat(p1 + e1 + p2 + e2 + acc, w);
    assert(inst_bytes(pc, Inst::MulLong { rd, rn, rm, ra, signed, sub }, host) =~= prog_bytes(
        p1 + e1 + p2 + e2 + acc + w,
    ));
    // the run
    let a = guest_reg(m, rn as u32) as u64;
    let b = guest_reg(m, rm as u32) as u64;
    let c = store_source(m, ra as u32) as int;
    let m1 = lemma_load(m, RAX, rn);
    let m2 = lemma_ext32(m1, signed, RAX);
    lemma_run_one(ext32_op(signed, RAX), m1, m2);
    let m3 = lemma_load(m2, RCX, rm);
    assert(guest_reg(m2, rm as u32) == guest_reg(m, rm as u32));
    let m4 = lemma_ext32(m3, signed, RCX);
    let m5 = exec_imul(m4, RAX, RCX);
    lemma_run_two(ext32_op(signed, RCX), Op::Imul(RAX, RCX), m3, m4, m5);
    // the product modulo 2^64
    let x = m4.reg(RAX) as int;
    let y = m4.reg(RCX) as int;
    let sa: int = if signed { (a as u32) as i32 as int } else { (a as u32) as int };
    let sb: int = if signed { (b as u32) as i32 as int } else { (b as u32) as int };
    assert(x % pow64() == sa % pow64());
    assert(y % pow64() == sb % pow64());
    vstd::arithmetic::div_mod::lemma_mul_mod_noop(x, y, pow64());
    vstd::arithmetic::div_mod::lemma_mul_mod_noop(sa, sb, pow64());
    let p = arm_mul_long(signed, a, b);
    assert(p == sa * sb);
    assert(m5.reg(RAX) as int == p % pow64());
    let m6 = if ra == 31 {
        run_start(acc, m5);
        m5
    } else {
        let n1 = lemma_load(m5, RDI, ra);
        assert(guest_reg(m5, ra as u32) == guest_reg(m, ra as u32));
        vstd::arithmetic::div_mod::lemma_small_mod(c as nat, pow64() as nat);
        let n2 = if sub {
            let k1 = exec_neg(n1, RAX);
            let k2 = exec_alu(k1, AluOp::Add, RAX, RDI);
            lemma_run_two(Op::Neg(RAX), Op::AluRR(AluOp::Add, RAX, RDI), n1, k1, k2);
            // the negation is the product's complement modulo 2^64
            let q = n1.reg(RAX);
            lemma_sext32_value(0, 0, q);
            vstd::arithmetic::div_mod::lemma_mod_bound(p, pow64());
            if q == 0 {
                assert(k1.reg(RAX) as int == 0);
            } else {
                assert(k1.reg(RAX) as int == pow64() - q);
                vstd::arithmetic::div_mod::lemma_mod_add_multiples_vanish(c - q, pow64());
            }
            vstd::arithmetic::div_mod::lemma_sub_mod_noop(c, p, pow64());
            assert(k2.reg(RAX) as int == (c - p) % pow64());
            k2
        } else {
            let k1 = exec_alu(n1, AluOp::Add, RAX, RDI);
            lemma_run_one(Op::AluRR(AluOp::Add, RAX, RDI), n1, k1);
            vstd::arithmetic::div_mod::lemma_add_mod_noop(p, c, pow64());
            k1
        };
        lemma_run_seq(p3, ad, m5, n1, n2);
        n2
    };
    assert(m6.reg(RAX) as int == (if sub { c - p } else { p + c }) % pow64());
    let m7 = lemma_write_back(m6, rd, RAX);
    lemma_run_seq(p1, e1, m, m1, m2);
    lemma_run_seq(p1 + e1, p2, m, m2, m3);
    lemma_run_seq(p1 + e1 + p2, e2, m, m3, m5);
    lemma_run_seq(p1 + e1 + p2 + e2, acc, m, m5, m6);
    lemma_run_seq(p1 + e1 + p2 + e2 + acc, w, m, m6, m7);
}

// ---- UBFM ----

/// The value of a 64-bit UBFM with rotation `r` and field end `s`: for
/// `s >= r` the field `r..=s` of `a` moved to bit 0 (UBFX, LSR), otherwise
/// the field `0..=s` moved up to bit `64 - r` (UBFIZ, LSL).
pub open spec fn arm_ubfm64(a: u64, r: u32, s: u32) -> u64 {
    if s >= r {
        (a >> r as u64) & field_mask((s - r + 1) as u32)
    } else {
        (a & low_mask((s + 1) as u32)) << (64 - r) as u64
    }
}

/// The ops by which the translation of a 64-bit UBFM moves the field in RAX:
/// a right shift (LSR), a left shift (LSL), a shift and a mask (UBFIZ), or a
/// shift and a mask applied with a sign-extended imm32 when it fits (UBFX).
pub open spec fn ubfm_field_prog(r: u32, s: u32) -> Seq<Op> {
    if s == 63 {
        seq![Op::ShiftRI(ShiftOp::Shr, RAX, (r & 63u32) as u8)]
    } else if r == (s + 1) % 64 {
        seq![Op::ShiftRI(ShiftOp::Shl, RAX, (((63 - s) as u32) & 63u32) as u8)]
    } else if r > s {
        seq![
            Op::ShiftRI(ShiftOp::Shl, RAX, bfi_lsb(r, true) as u8),
            Op::MovImm64(RCX, low_mask((s + 1) as u32) << bfi_lsb(r, true)),
            Op::AluRR(AluOp::And, RAX, RCX),
        ]
    } else if low_mask((s - r + 1) as u32) <= 0x7fff_ffff {
        seq![
            Op::ShiftRI(ShiftOp::Shr, RAX, (r & 63u32) as u8),
            Op::AluRI(AluOp::And, RAX, low_mask((s - r + 1) as u32) as u32),
        ]
    } else {
        seq![
            Op::ShiftRI(ShiftOp::Shr, RAX, (r & 63u32) as u8),
            Op::MovImm64(RCX, low_mask((s - r + 1) as u32)),
            Op::AluRR(AluOp::And, RAX, RCX),
        ]
    }
}

/// The program of a 64-bit UBFM: `x[rn]` in RAX, the field moved, the
/// result written to `rd`.
pub open spec fn ubfm_prog(rd: u8, rn: u8, r: u32, s: u32) -> Seq<Op> {
    ldg_prog(RAX, rn as u32) + ubfm_field_prog(r, s) + stg_prog(rd as u32, RAX)
}

/// Bit facts for moving a field: masking commutes with a left shift, a left
/// shift drops what a mask of the rest would clear, a right shift leaves
/// nothing a mask of the rest would clear.
proof fn lemma_field_bits(a: u64, k: u64, w: u32)
    by (bit_vector)
    requires
        k < 64,
        w < 64,
    ensures
        (a << k) & (low_mask(w) << k) == (a & low_mask(w)) << k,
        k > 0 ==> (a & low_mask((64 - k) as u32)) << k == a << k,
        k > 0 ==> (a >> k) & low_mask((64 - k) as u32) == a >> k,
        (a >> 0u64) & 0xffff_ffff_ffff_ffffu64 == a,
        a >> 0u64 == a,
{
}

/// Running the three-op program `[x, y, z]`.
proof fn lemma_run_three(x: Op, y: Op, z: Op, m: Machine, m1: Machine, m2: Machine, m3: Machine)
    requires
        step(x, m) == Some(m1),
        step(y, m1) == Some(m2),
        step(z, m2) == Some(m3),
    ensures
        run(seq![x, y, z], m) == Some(m3),
{
    let p = seq![x, y, z];
    run_start(p, m);
    run_next(p, 0, m, m, m1);
    run_next(p, 1, m, m1, m2);
    run_next(p, 2, m, m2, m3);
    lemma_take_all(p);
}

/// Running the two-op program `[x, y]`.
pub(crate) proof fn lemma_run_two(x: Op, y: Op, m: Machine, m1: Machine, m2: Machine)
    requires
        step(x, m) == Some(m1),
        step(y, m1) == Some(m2),
    ensures
        run(seq![x, y], m) == Some(m2),
{
    let p = seq![x, y];
    run_start(p, m);
    run_next(p, 0, m, m, m1);
    run_next(p, 1, m, m1, m2);
    lemma_take_all(p);
}

/// The field moves of `ubfm_field_prog` leave `arm_ubfm64` of RAX in RAX.
proof fn lemma_run_ubfm_field(m: Machine, r: u32, s: u32) -> (m1: Machine)
    requires
        m.wf(),
        r < 64,
        s < 64,
    ensures
        run(ubfm_field_prog(r, s), m) == Some(m1),
        m1.reg(RAX) == arm_ubfm64(m.reg(RAX), r, s),
        m1.mem == m.mem,
        m1.reg(RBX) == m.reg(RBX),
        m1.wf(),
{
    let a = m.reg(RAX);
    lemma_mask63(0, r);
    if s == 63 {
        let m1 = exec_shift(m, ShiftOp::Shr, RAX, (r & 63u32) as u8);
        lemma_run_one(Op::ShiftRI(ShiftOp::Shr, RAX, (r & 63u32) as u8), m, m1);
        lemma_field_bits(a, r as u64, 0);
        assert(m1.reg(RAX) == a >> r as u64);
        if r == 0 {
            assert(field_mask(64) == 0xffff_ffff_ffff_ffffu64);
        }
        assert(m1.reg(RAX) == arm_ubfm64(a, r, s));
        m1
    } else if r == (s + 1) % 64 {
        lemma_mask63(0, (63 - s) as u32);
        let op = Op::ShiftRI(ShiftOp::Shl, RAX, (((63 - s) as u32) & 63u32) as u8);
        let m1 = exec_shift(m, ShiftOp::Shl, RAX, (((63 - s) as u32) & 63u32) as u8);
        lemma_run_one(op, m, m1);
        lemma_field_bits(a, (63 - s) as u64, 0);
        assert(m1.reg(RAX) == arm_ubfm64(a, r, s));
        m1
    } else if r > s {
        let lsb = bfi_lsb(r, true);
        lemma_mask63(0, (64 - r) as u32);
        assert(lsb == 64 - r);
        let x = Op::ShiftRI(ShiftOp::Shl, RAX, lsb as u8);
        let y = Op::MovImm64(RCX, low_mask((s + 1) as u32) << lsb);
        let z = Op::AluRR(AluOp::And, RAX, RCX);
        let m1 = exec_shift(m, ShiftOp::Shl, RAX, lsb as u8);
        let m2 = exec_mov_imm64(m1, RCX, low_mask((s + 1) as u32) << lsb);
        let m3 = exec_alu(m2, AluOp::And, RAX, RCX);
        lemma_run_three(x, y, z, m, m1, m2, m3);
        lemma_field_bits(a, lsb as u64, (s + 1) as u32);
        assert(m3.reg(RAX) == arm_ubfm64(a, r, s));
        m3
    } else {
        let mask = low_mask((s - r + 1) as u32);
        let x = Op::ShiftRI(ShiftOp::Shr, RAX, (r & 63u32) as u8);
        let m1 = exec_shift(m, ShiftOp::Shr, RAX, (r & 63u32) as u8);
        if mask <= 0x7fff_ffff {
            let y = Op::AluRI(AluOp::And, RAX, mask as u32);
            let m2 = exec_alu_imm(m1, AluOp::And, RAX, mask as u32);
            assert(sext32(mask as u32) == mask);
            lemma_run_two(x, y, m, m1, m2);
            assert(m2.reg(RAX) == arm_ubfm64(a, r, s));
            m2
        } else {
            let y = Op::MovImm64(RCX, mask);
            let z = Op::AluRR(AluOp::And, RAX, RCX);
            let m2 = exec_mov_imm64(m1, RCX, mask);
            let m3 = exec_alu(m2, AluOp::And, RAX, RCX);
            lemma_run_three(x, y, z, m, m1, m2, m3);
            assert(m3.reg(RAX) == arm_ubfm64(a, r, s));
            m3
        }
    }
}

/// UBFM (X form; LSL, LSR, UBFX and UBFIZ are its aliases) writes
/// `arm_ubfm64(x[rn], immr, imms)` to `rd`.
pub proof fn law_translate_ubfm(m: Machine, pc: u64, host: HostLinks, rd: u8, rn: u8, immr: u32, imms: u32)
    requires
        m.wf(),
        rd != 31,
        rn != 31,
        immr < 64,
        imms < 64,
    ensures
        inst_bytes(
            pc,
            Inst::BitField { rd, rn, immr, imms, sf: true, arith: false, insert: false },
            host,
        ) == prog_bytes(ubfm_prog(rd, rn, immr, imms)),
        run(ubfm_prog(rd, rn, immr, imms), m) matches Some(m1) && guest_reg(m1, rd as u32)
            == arm_ubfm64(guest_reg(m, rn as u32) as u64, immr, imms),
{
    let p = ldg_prog(RAX, rn as u32);
    let f = ubfm_field_prog(immr, imms);
    let w = stg_prog(rd as u32, RAX);
    // the bytes
    lemma_bytes_one(Op::ShiftRI(ShiftOp::Shr, RAX, (immr & 63u32) as u8));
    lemma_bytes_one(Op::ShiftRI(ShiftOp::Shl, RAX, (((63 - imms) as u32) & 63u32) as u8));
    lemma_bytes_three(
        Op::ShiftRI(ShiftOp::Shl, RAX, bfi_lsb(immr, true) as u8),
        Op::MovImm64(RCX, low_mask((imms + 1) as u32) << bfi_lsb(immr, true)),
        Op::AluRR(AluOp::And, RAX, RCX),
    );
    lemma_bytes_two(
        Op::ShiftRI(ShiftOp::Shr, RAX, (immr & 63u32) as u8),
        Op::AluRI(AluOp::And, RAX, low_mask((imms - immr + 1) as u32) as u32),
    );
    lemma_bytes_three(
        Op::ShiftRI(ShiftOp::Shr, RAX, (immr & 63u32) as u8),
        Op::MovImm64(RCX, low_mask((imms - immr + 1) as u32)),
        Op::AluRR(AluOp::And, RAX, RCX),
    );
    lemma_prog_bytes_concat(p, f);
    lemma_prog_bytes_concat(p + f, w);
    assert(inst_bytes(
        pc,
        Inst::BitField { rd, rn, immr, imms, sf: true, arith: false, insert: false },
        host,
    ) =~= prog_bytes(p + f + w));
    // the run
    let m1 = lemma_load(m, RAX, rn);
    let m2 = lemma_run_ubfm_field(m1, immr, imms);
    let m3 = lemma_write_back(m2, rd, RAX);
    lemma_run_seq(p, f, m, m1, m2);
    lemma_run_seq(p + f, w, m, m2, m3);
}

// ---- CBZ, CBNZ, TBZ, TBNZ ----

/// The zero flag of a logical result is set exactly when the result is zero;
/// bit `bit` of `x` is clear exactly when `x` and the one-bit mask share no
/// bit.
proof fn lemma_test_bits(r: u64, x: u64, bit: u8)
    by (bit_vector)
    requires
        bit < 64,
    ensures
        ((logic_flags(r) >> 6u64) & 1 == 1) == (r == 0),
        (x & (1u64 << bit) == 0) == ((x >> bit) & 1 == 0),
        (x >> bit) & 1 == 0 || (x >> bit) & 1 == 1,
        x & x == x,
{
}

/// The program of CBZ/CBNZ before its jcc: the tested value (XZR for 31) in
/// RAX, tested against itself.
pub open spec fn cbz_prog(rt: u8) -> Seq<Op> {
    ldg_src_prog(rt as u32) + seq![Op::Test(RAX, RAX)]
}

/// CBZ branches exactly when `rt` (31 is XZR) is zero, CBNZ exactly when it
/// is not: the jcc that ends the translation is taken on the flags that its
/// test leaves.
pub proof fn law_translate_cbz(m: Machine, pc: u64, host: HostLinks, rt: u8, imm: i64, nonzero: bool)
    requires
        m.wf(),
    ensures
        inst_bytes(pc, Inst::Cbz { rt, imm, nonzero }, host) == prog_bytes(cbz_prog(rt)) + jcc_bytes(
            zero_test_cc(nonzero),
        ),
        run(cbz_prog(rt), m) matches Some(m1) && m1.flags matches Some(e) && (x86_cond(
            zero_test_cc(nonzero),
            e,
        ) <==> (store_source(m, rt as u32) == 0) != nonzero),
{
    let p = ldg_src_prog(rt as u32);
    let t = seq![Op::Test(RAX, RAX)];
    lemma_bytes_one(Op::Test(RAX, RAX));
    lemma_prog_bytes_concat(p, t);
    assert(inst_bytes(pc, Inst::Cbz { rt, imm, nonzero }, host) =~= prog_bytes(p + t) + jcc_bytes(
        zero_test_cc(nonzero),
    ));
    law_ldg_src(m, rt as u32);
    let v = store_source(m, rt as u32);
    lemma_byte_bounds();
    if rt != 31 {
        lemma_read_bound(m.mem, m.addr(RBX, slot_of(rt as u32)), 8);
    }
    let m1 = m.set_reg(RAX, v as u64);
    let m2 = exec_test(m1, RAX, RAX);
    lemma_run_one(Op::Test(RAX, RAX), m1, m2);
    lemma_run_seq(p, t, m, m1, m2);
    lemma_test_bits(v as u64, v as u64, 0);
}

/// The program of TBZ/TBNZ before its jcc: the tested value (XZR for 31) in
/// RAX, the one-bit mask in RCX, tested against each other.
pub open spec fn tbz_prog(rt: u8, bit: u8) -> Seq<Op> {
    ldg_src_prog(rt as u32) + seq![Op::MovImm64(RCX, tbz_mask(bit)), Op::Test(RAX, RCX)]
}

/// TBZ branches exactly when bit `bit` of `rt` (31 is XZR) is clear, TBNZ
/// exactly when it is set.
pub proof fn law_translate_tbz(m: Machine, pc: u64, host: HostLinks, rt: u8, bit: u8, imm: i64, nonzero: bool)
    requires
        m.wf(),
        bit < 64,
    ensures
        inst_bytes(pc, Inst::Tbz { rt, bit, imm, nonzero }, host) == prog_bytes(tbz_prog(rt, bit))
            + jcc_bytes(zero_test_cc(nonzero)),
        run(tbz_prog(rt, bit), m) matches Some(m1) && m1.flags matches Some(e) && (x86_cond(
            zero_test_cc(nonzero),
            e,
        ) <==> (((store_source(m, rt as u32) as u64) >> bit) & 1 == 1) == nonzero),
{
    let p = ldg_src_prog(rt as u32);
    let t = seq![Op::MovImm64(RCX, tbz_mask(bit)), Op::Test(RAX, RCX)];
    lemma_bytes_two(Op::MovImm64(RCX, tbz_mask(bit)), Op::Test(RAX, RCX));
    lemma_prog_bytes_concat(p, t);
    assert(inst_bytes(pc, Inst::Tbz { rt, bit, imm, nonzero }, host) =~= prog_bytes(p + t) + jcc_bytes(
        zero_test_cc(nonzero),
    ));
    law_ldg_src(m, rt as u32);
    let v = store_source(m, rt as u32);
    lemma_byte_bounds();
    if rt != 31 {
        lemma_read_bound(m.mem, m.addr(RBX, slot_of(rt as u32)), 8);
    }
    let m1 = m.set_reg(RAX, v as u64);
    let m2 = exec_mov_imm64(m1, RCX, tbz_mask(bit));
    let m3 = exec_test(m2, RAX, RCX);
    lemma_run_two(Op::MovImm64(RCX, tbz_mask(bit)), Op::Test(RAX, RCX), m1, m2, m3);
    lemma_run_seq(p, t, m, m1, m3);
    assert(tbz_mask(bit) == 1u64 << bit);
    lemma_test_bits((v as u64) & (1u64 << bit), v as u64, bit);

}

// ---- ADC, SBC ----

/// The program of a 64-bit ADC (`sub` false) or SBC without flags: both
/// operands, the stored C flag moved into CF, `adc` after a `cmc` or `sbb`,
/// the result written to `rd`.
pub open spec fn adc_prog(rd: u8, rn: u8, rm: u8, sub: bool) -> Seq<Op> {
    ldg_prog(RAX, rn as u32) + ldg_prog(RCX, rm as u32) + load_nzcv_to_eflags_prog() + (if sub {
        seq![Op::Sbb(RAX, RCX)]
    } else {
        seq![Op::Cmc, Op::Adc(RAX, RCX)]
    }) + stg_prog(rd as u32, RAX)
}

/// The C bit (bit 29) of the NZCV word stored in `CpuState`. The translator
/// keeps it in the borrow sense of x86: it is set when the AArch64 carry is
/// clear.
pub open spec fn stored_c(m: Machine) -> bool {
    flag(read_mem(m.mem, m.addr(RBX, NZCV_OFF), 4) as u64, 29)
}

/// ADC (X form) writes `x[rn] + x[rm] + C` and SBC `x[rn] - x[rm] - (1 - C)`,
/// modulo 2^64, to `rd`, where C, the AArch64 carry, is the complement of
/// the stored C bit.
pub proof fn law_translate_adc(m: Machine, pc: u64, host: HostLinks, rd: u8, rn: u8, rm: u8, sub: bool)
    requires
        m.wf(),
        rd != 31,
        rn != 31,
        rm != 31,
    ensures
        inst_bytes(pc, Inst::AddCarry { rd, rn, rm, sf: true, s: false, sub }, host) == prog_bytes(
            adc_prog(rd, rn, rm, sub),
        ),
        run(adc_prog(rd, rn, rm, sub), m) matches Some(m1) && guest_reg(m1, rd as u32) == (if sub {
            guest_reg(m, rn as u32) - guest_reg(m, rm as u32) - (if stored_c(m) { 1int } else { 0 })
        } else {
            guest_reg(m, rn as u32) + guest_reg(m, rm as u32) + (if stored_c(m) { 0int } else { 1 })
        }) % pow64(),
{
    let p1 = ldg_prog(RAX, rn as u32);
    let p2 = ldg_prog(RCX, rm as u32);
    let ld = load_nzcv_to_eflags_prog();
    let op: Seq<Op> = if sub {
        seq![Op::Sbb(RAX, RCX)]
    } else {
        seq![Op::Cmc, Op::Adc(RAX, RCX)]
    };
    let w = stg_prog(rd as u32, RAX);
    lemma_bytes_one(Op::Sbb(RAX, RCX));
    lemma_bytes_two(Op::Cmc, Op::Adc(RAX, RCX));
    lemma_prog_bytes_concat(p1, p2);
    lemma_prog_bytes_concat(p1 + p2, ld);
    lemma_prog_bytes_concat(p1 + p2 + ld, op);
    lemma_prog_bytes_concat(p1 + p2 + ld + op, w);
    assert(inst_bytes(pc, Inst::AddCarry { rd, rn, rm, sf: true, s: false, sub }, host) =~= prog_bytes(
        p1 + p2 + ld + op + w,
    ));
    let a = guest_reg(m, rn as u32);
    let b = guest_reg(m, rm as u32);
    let m1 = lemma_load(m, RAX, rn);
    let m2 = lemma_load(m1, RCX, rm);
    assert(guest_reg(m1, rm as u32) == b);
    law_load_nzcv_to_eflags(m2);
    let m3 = run(ld, m2)->Some_0;
    let e = m3.flags->Some_0;
    assert(cf(e) == stored_c(m));
    assert(m3.reg(RAX) == a && m3.reg(RCX) == b);
    let m4 = if sub {
        let n = exec_adc(m3, true, RAX, RCX, e);
        lemma_run_one(Op::Sbb(RAX, RCX), m3, n);
        n
    } else {
        let k = exec_cmc(m3);
        lemma_or_zero_xor_self(e);
        let n = exec_adc(k, false, RAX, RCX, e ^ 1);
        lemma_run_two(Op::Cmc, Op::Adc(RAX, RCX), m3, k, n);
        n
    };
    let m5 = lemma_write_back(m4, rd, RAX);
    assert(m3.wf());
    lemma_run_seq(p1, p2, m, m1, m2);
    lemma_run_seq(p1 + p2, ld, m, m2, m3);
    lemma_run_seq(p1 + p2 + ld, op, m, m3, m4);
    lemma_run_seq(p1 + p2 + ld + op, w, m, m4, m5);
}

// ---- ADD, SUB (extended register) ----

/// The AArch64 extension `opt` of a register operand: UXTB, UXTH, UXTW,
/// UXTX, SXTB, SXTH, SXTW, SXTX (0..7).
pub open spec fn arm_extend(opt: u8, v: u64) -> u64 {
    if opt == 0 {
        v & 0xff
    } else if opt == 1 {
        v & 0xffff
    } else if opt == 2 {
        v % 0x1_0000_0000
    } else if opt == 4 {
        ((v as u8) as i8) as i64 as u64
    } else if opt == 5 {
        ((v as u16) as i16) as i64 as u64
    } else if opt == 6 {
        ((v as u32) as i32) as i64 as u64
    } else {
        v
    }
}

/// The ops that extend RAX in place.
pub open spec fn extend_prog(opt: u8) -> Seq<Op> {
    if opt == 0 {
        seq![Op::AluRI(AluOp::And, RAX, 0xff)]
    } else if opt == 1 {
        seq![Op::AluRI(AluOp::And, RAX, 0xffff)]
    } else if opt == 2 {
        seq![Op::Zext32(RAX)]
    } else if opt == 4 {
        seq![Op::ShiftRI(ShiftOp::Shl, RAX, 56), Op::ShiftRI(ShiftOp::Sar, RAX, 56)]
    } else if opt == 5 {
        seq![Op::ShiftRI(ShiftOp::Shl, RAX, 48), Op::ShiftRI(ShiftOp::Sar, RAX, 48)]
    } else if opt == 6 {
        seq![Op::Movsxd(RAX, RAX)]
    } else {
        Seq::empty()
    }
}

/// The program of a 64-bit ADD/SUB (extended register) without flags: the
/// extended and shifted `rm` (XZR for 31) in RAX, `x[rn]` (SP for 31) in
/// RDI, the sum or difference written to `rd` (SP for 31).
pub open spec fn add_sub_ext_prog(rd: u8, rn: u8, rm: u8, sub: bool, opt: u8, shift: u8) -> Seq<Op> {
    (if rm == 31 {
        seq![Op::MovImm64(RAX, 0)]
    } else {
        ldg_prog(RAX, rm as u32)
    }) + extend_prog(opt) + (if 0 < shift {
        seq![Op::ShiftRI(ShiftOp::Shl, RAX, shift)]
    } else {
        Seq::empty()
    }) + ldg_prog(RDI, rn as u32) + (if sub {
        seq![Op::AluRR(AluOp::Sub, RDI, RAX), Op::MovRR(RAX, RDI)]
    } else {
        seq![Op::AluRR(AluOp::Add, RAX, RDI)]
    }) + stg_prog(rd as u32, RAX)
}

/// Sign extension from bit 7 and from bit 15 by a shift pair.
proof fn lemma_sign_extend_bits(v: u64)
    by (bit_vector)
    ensures
        (((v << 56u64) as i64) >> 56u64) as u64 == ((v as u8) as i8) as i64 as u64,
        (((v << 48u64) as i64) >> 48u64) as u64 == ((v as u16) as i16) as i64 as u64,
{
}

/// The extension ops leave `arm_extend(opt, v)` in RAX.
proof fn lemma_run_extend(m: Machine, opt: u8) -> (m1: Machine)
    requires
        m.wf(),
    ensures
        run(extend_prog(opt), m) == Some(m1),
        m1.reg(RAX) == arm_extend(opt, m.reg(RAX)),
        m1.mem == m.mem,
        m1.regs == m.regs.update(RAX as int, m1.reg(RAX)),
{
    let v = m.reg(RAX);
    if opt == 0 || opt == 1 {
        let imm: u32 = if opt == 0 { 0xff } else { 0xffff };
        let n = exec_alu_imm(m, AluOp::And, RAX, imm);
        lemma_run_one(Op::AluRI(AluOp::And, RAX, imm), m, n);
        assert(sext32(imm) == imm as u64);
        assert(n.regs =~= m.regs.update(RAX as int, n.reg(RAX)));
        n
    } else if opt == 2 {
        let n = exec_zext32(m, RAX);
        lemma_run_one(Op::Zext32(RAX), m, n);
        assert(n.regs =~= m.regs.update(RAX as int, n.reg(RAX)));
        n
    } else if opt == 4 || opt == 5 {
        let k: u8 = if opt == 4 { 56 } else { 48 };
        let n1 = exec_shift(m, ShiftOp::Shl, RAX, k);
        let n2 = exec_shift(n1, ShiftOp::Sar, RAX, k);
        lemma_run_two(Op::ShiftRI(ShiftOp::Shl, RAX, k), Op::ShiftRI(ShiftOp::Sar, RAX, k), m, n1, n2);
        lemma_sign_extend_bits(v);
        assert(n2.regs =~= m.regs.update(RAX as int, n2.reg(RAX)));
        n2
    } else if opt == 6 {
        let n = exec_movsxd(m, RAX, RAX);
        lemma_run_one(Op::Movsxd(RAX, RAX), m, n);
        assert(n.regs =~= m.regs.update(RAX as int, n.reg(RAX)));
        n
    } else {
        assert(run(extend_prog(opt), m) == Some(m));
        assert(m.regs =~= m.regs.update(RAX as int, v));
        m
    }
}

/// ADD/SUB (extended register, X form, no flags) write `x[rn] +
/// (extend(x[rm]) << shift)` (or `-`) modulo 2^64 to `rd`, where `rn` and
/// `rd` of 31 are SP and `rm` of 31 is XZR. The translation applies shifts
/// of 1 to 3.
pub proof fn law_translate_add_sub_ext(
    m: Machine,
    pc: u64,
    host: HostLinks,
    rd: u8,
    rn: u8,
    rm: u8,
    sub: bool,
    opt: u8,
    shift: u8,
)
    requires
        m.wf(),
        opt < 8,
        shift <= 3,
    ensures
        inst_bytes(pc, Inst::AddSubExt { rd, rn, rm, sub, s: false, sf: true, opt, shift }, host)
            == prog_bytes(add_sub_ext_prog(rd, rn, rm, sub, opt, shift)),
        ({
            let b = arm_extend(opt, store_source(m, rm as u32) as u64) << shift;
            run(add_sub_ext_prog(rd, rn, rm, sub, opt, shift), m) matches Some(m1) && guest_reg(
                m1,
                rd as u32,
            ) == (if sub {
                guest_reg(m, rn as u32) - b
            } else {
                guest_reg(m, rn as u32) + b
            }) % pow64()
        }),
{
    let p0: Seq<Op> = if rm == 31 {
        seq![Op::MovImm64(RAX, 0)]
    } else {
        ldg_prog(RAX, rm as u32)
    };
    let e = extend_prog(opt);
    let sh: Seq<Op> = if 0 < shift {
        seq![Op::ShiftRI(ShiftOp::Shl, RAX, shift)]
    } else {
        Seq::empty()
    };
    let pn = ldg_prog(RDI, rn as u32);
    let c: Seq<Op> = if sub {
        seq![Op::AluRR(AluOp::Sub, RDI, RAX), Op::MovRR(RAX, RDI)]
    } else {
        seq![Op::AluRR(AluOp::Add, RAX, RDI)]
    };
    let w = stg_prog(rd as u32, RAX);
    // the bytes
    lemma_bytes_one(Op::MovImm64(RAX, 0));
    lemma_bytes_one(Op::AluRI(AluOp::And, RAX, 0xff));
    lemma_bytes_one(Op::AluRI(AluOp::And, RAX, 0xffff));
    lemma_bytes_one(Op::Zext32(RAX));
    lemma_bytes_two(Op::ShiftRI(ShiftOp::Shl, RAX, 56), Op::ShiftRI(ShiftOp::Sar, RAX, 56));
    lemma_bytes_two(Op::ShiftRI(ShiftOp::Shl, RAX, 48), Op::ShiftRI(ShiftOp::Sar, RAX, 48));
    lemma_bytes_one(Op::Movsxd(RAX, RAX));
    lemma_bytes_one(Op::ShiftRI(ShiftOp::Shl, RAX, shift));
    lemma_bytes_two(Op::AluRR(AluOp::Sub, RDI, RAX), Op::MovRR(RAX, RDI));
    lemma_bytes_one(Op::AluRR(AluOp::Add, RAX, RDI));
    lemma_prog_bytes_concat(p0, e);
    lemma_prog_bytes_concat(p0 + e, sh);
    lemma_prog_bytes_concat(p0 + e + sh, pn);
    lemma_prog_bytes_concat(p0 + e + sh + pn, c);
    lemma_prog_bytes_concat(p0 + e + sh + pn + c, w);
    assert(inst_bytes(pc, Inst::AddSubExt { rd, rn, rm, sub, s: false, sf: true, opt, shift }, host)
        =~= prog_bytes(p0 + e + sh + pn + c + w));
    // the run
    let v = store_source(m, rm as u32);
    lemma_byte_bounds();
    let m1 = if rm == 31 {
        let n = exec_mov_imm64(m, RAX, 0);
        lemma_run_one(Op::MovImm64(RAX, 0), m, n);
        n
    } else {
        lemma_load(m, RAX, rm)
    };
    assert(m1.reg(RAX) == v);
    let m2 = lemma_run_extend(m1, opt);
    let ext = arm_extend(opt, v as u64);
    let m3 = if 0 < shift {
        let n = exec_shift(m2, ShiftOp::Shl, RAX, shift);
        lemma_run_one(Op::ShiftRI(ShiftOp::Shl, RAX, shift), m2, n);
        n
    } else {
        assert(run(sh, m2) == Some(m2));
        lemma_or_zero_xor_self(ext);
        m2
    };
    let b = ext << shift;
    assert(m3.reg(RAX) == b);
    assert(guest_reg(m3, rn as u32) == guest_reg(m, rn as u32));
    let m4 = lemma_load(m3, RDI, rn);
    let a = guest_reg(m, rn as u32);
    let m5 = if sub {
        let k1 = exec_alu(m4, AluOp::Sub, RDI, RAX);
        let k2 = exec_mov(k1, RAX, RDI);
        lemma_run_two(Op::AluRR(AluOp::Sub, RDI, RAX), Op::MovRR(RAX, RDI), m4, k1, k2);
        k2
    } else {
        let k1 = exec_alu(m4, AluOp::Add, RAX, RDI);
        lemma_run_one(Op::AluRR(AluOp::Add, RAX, RDI), m4, k1);
        k1
    };
    assert(m5.reg(RAX) as int == (if sub { a - b } else { a + b }) % pow64());
    let m6 = lemma_write_back(m5, rd, RAX);
    lemma_run_seq(p0, e, m, m1, m2);
    lemma_run_seq(p0 + e, sh, m, m2, m3);
    lemma_run_seq(p0 + e + sh, pn, m, m3, m4);
    lemma_run_seq(p0 + e + sh + pn, c, m, m4, m5);
    lemma_run_seq(p0 + e + sh + pn + c, w, m, m5, m6);
}

// ---- SBFM ----

/// The value of a 64-bit SBFM with rotation `r` and field end `s`: the
/// field `r..=s` sign-extended at bit 0 (SBFX, ASR, SXTB, SXTH, SXTW) for
/// `s >= r`, otherwise the field `0..=s` moved up to bit `64 - r` and
/// sign-extended from its top (SBFIZ).
pub open spec fn arm_sbfm64(a: u64, r: u32, s: u32) -> u64 {
    if s >= r {
        (((a << (63 - s) as u64) as i64) >> (63 - s + r) as u64) as u64
    } else {
        (((a << (63 - s) as u64) as i64) >> (r - s - 1) as u64) as u64
    }
}

/// The ops by which the translation of a 64-bit SBFM moves the field in
/// RAX: an arithmetic shift (ASR), a left shift (the field's top already at
/// bit 63), or the unsigned move followed by a sign extension from the
/// field's top.
pub open spec fn sbfm_field_prog(r: u32, s: u32) -> Seq<Op> {
    if s == 63 {
        seq![Op::ShiftRI(ShiftOp::Sar, RAX, (r & 63u32) as u8)]
    } else if r == (s + 1) % 64 {
        ubfm_field_prog(r, s)
    } else {
        ubfm_field_prog(r, s) + seq![
            Op::ShiftRI(ShiftOp::Shl, RAX, sbfm_top(r, s)),
            Op::ShiftRI(ShiftOp::Sar, RAX, sbfm_top(r, s)),
        ]
    }
}

/// The distance from the top of the moved field to bit 63.
pub open spec fn sbfm_top(r: u32, s: u32) -> u8 {
    if r > s {
        (64 - (bfi_lsb(r, true) + (s + 1) as u32)) as u8
    } else {
        (64 - (s - r + 1) as u32) as u8
    }
}

/// The program of a 64-bit SBFM: `x[rn]` in RAX, the field moved, the
/// result written to `rd`.
pub open spec fn sbfm_prog(rd: u8, rn: u8, r: u32, s: u32) -> Seq<Op> {
    ldg_prog(RAX, rn as u32) + sbfm_field_prog(r, s) + stg_prog(rd as u32, RAX)
}

/// Sign-extending a moved field from its top by a shift pair is shifting
/// the field's top to bit 63 and back arithmetically.
#[verifier::rlimit(100)]
proof fn lemma_sbfm_bits(a: u64, r: u64, s: u64)
    by (bit_vector)
    requires
        r < 64,
        s < 64,
    ensures
        (r <= s && s < 63) ==> ((((((a >> r) & low_mask((s - r + 1) as u32)) << (64 - (s - r + 1)) as u64)
            as i64) >> (64 - (s - r + 1)) as u64) as u64) == (((a << (63 - s) as u64) as i64) >> (63
            - s + r) as u64) as u64,
        (s + 1 < r) ==> (((((a & low_mask((s + 1) as u32)) << (64 - r) as u64) << (r - s - 1) as u64)
            as i64) >> (r - s - 1) as u64) as u64 == (((a << (63 - s) as u64) as i64) >> (r - s
            - 1) as u64) as u64,
        ((a as i64) >> 0u64) as u64 == a,
        a << 0u64 == a,
        (((a << (63 - s) as u64) as i64) >> 0u64) as u64 == a << (63 - s) as u64,
{
}

/// SBFM (X form; ASR, SBFX, SBFIZ, SXTB, SXTH and SXTW are its aliases)
/// writes `arm_sbfm64(x[rn], immr, imms)` to `rd`.
pub proof fn law_translate_sbfm(m: Machine, pc: u64, host: HostLinks, rd: u8, rn: u8, immr: u32, imms: u32)
    requires
        m.wf(),
        rd != 31,
        rn != 31,
        immr < 64,
        imms < 64,
    ensures
        inst_bytes(
            pc,
            Inst::BitField { rd, rn, immr, imms, sf: true, arith: true, insert: false },
            host,
        ) == prog_bytes(sbfm_prog(rd, rn, immr, imms)),
        run(sbfm_prog(rd, rn, immr, imms), m) matches Some(m1) && guest_reg(m1, rd as u32)
            == arm_sbfm64(guest_reg(m, rn as u32) as u64, immr, imms),
{
    let r = immr;
    let s = imms;
    let p = ldg_prog(RAX, rn as u32);
    let f = sbfm_field_prog(r, s);
    let w = stg_prog(rd as u32, RAX);
    let u = ubfm_field_prog(r, s);
    let se = sbfm_top(r, s);
    let t = seq![Op::ShiftRI(ShiftOp::Shl, RAX, se), Op::ShiftRI(ShiftOp::Sar, RAX, se)];
    // the bytes
    lemma_bytes_one(Op::ShiftRI(ShiftOp::Sar, RAX, (r & 63u32) as u8));
    lemma_bytes_one(Op::ShiftRI(ShiftOp::Shl, RAX, (((63 - s) as u32) & 63u32) as u8));
    lemma_bytes_three(
        Op::ShiftRI(ShiftOp::Shl, RAX, bfi_lsb(r, true) as u8),
        Op::MovImm64(RCX, low_mask((s + 1) as u32) << bfi_lsb(r, true)),
        Op::AluRR(AluOp::And, RAX, RCX),
    );
    lemma_bytes_two(
        Op::ShiftRI(ShiftOp::Shr, RAX, (r & 63u32) as u8),
        Op::AluRI(AluOp::And, RAX, low_mask((s - r + 1) as u32) as u32),
    );
    lemma_bytes_three(
        Op::ShiftRI(ShiftOp::Shr, RAX, (r & 63u32) as u8),
        Op::MovImm64(RCX, low_mask((s - r + 1) as u32)),
        Op::AluRR(AluOp::And, RAX, RCX),
    );
    lemma_bytes_two(Op::ShiftRI(ShiftOp::Shl, RAX, se), Op::ShiftRI(ShiftOp::Sar, RAX, se));
    lemma_prog_bytes_concat(u, t);
    lemma_prog_bytes_concat(p, f);
    lemma_prog_bytes_concat(p + f, w);
    lemma_mask63(0, r);
    lemma_mask63(0, (64 - r) as u32);
    assert(inst_bytes(
        pc,
        Inst::BitField { rd, rn, immr, imms, sf: true, arith: true, insert: false },
        host,
    ) =~= prog_bytes(p + f + w));
    // the run
    let a = guest_reg(m, rn as u32) as u64;
    let m1 = lemma_load(m, RAX, rn);
    lemma_sbfm_bits(a, r as u64, s as u64);
    let m2 = if s == 63 {
        let n = exec_shift(m1, ShiftOp::Sar, RAX, (r & 63u32) as u8);
        lemma_run_one(Op::ShiftRI(ShiftOp::Sar, RAX, (r & 63u32) as u8), m1, n);
        assert(n.reg(RAX) == arm_sbfm64(a, r, s));
        n
    } else if r == (s + 1) % 64 {
        let n = lemma_run_ubfm_field(m1, r, s);
        lemma_field_bits(a, (63 - s) as u64, 0);
        assert(n.reg(RAX) == arm_sbfm64(a, r, s));
        n
    } else {
        let n1 = lemma_run_ubfm_field(m1, r, s);
        let v = n1.reg(RAX);
        let n2 = exec_shift(n1, ShiftOp::Shl, RAX, se);
        let n3 = exec_shift(n2, ShiftOp::Sar, RAX, se);
        lemma_run_two(Op::ShiftRI(ShiftOp::Shl, RAX, se), Op::ShiftRI(ShiftOp::Sar, RAX, se), n1, n2, n3);
        lemma_run_seq(u, t, m1, n1, n3);
        if r > s {
            assert(bfi_lsb(r, true) == 64 - r);
            assert(se == r - s - 1);
            assert(v == (a & low_mask((s + 1) as u32)) << (64 - r) as u64);
        } else {
            assert(se == 64 - (s - r + 1));
            assert(field_mask((s - r + 1) as u32) == low_mask((s - r + 1) as u32));
            assert(v == (a >> r as u64) & low_mask((s - r + 1) as u32));
        }
        assert(n3.reg(RAX) == arm_sbfm64(a, r, s));
        n3
    };
    let m3 = lemma_write_back(m2, rd, RAX);
    lemma_run_seq(p, f, m, m1, m2);
    lemma_run_seq(p + f, w, m, m2, m3);
}

// ---- REV, CLZ ----

/// The program of a 64-bit REV: `x[rn]` byte-reversed in RAX, written to
/// `rd`.
pub open spec fn rev_prog(rd: u8, rn: u8) -> Seq<Op> {
    ldg_prog(RAX, rn as u32) + seq![Op::Bswap(RAX)] + stg_prog(rd as u32, RAX)
}

/// REV (X form) writes `x[rn]` with its eight bytes in reverse order to `rd`.
pub proof fn law_translate_rev(m: Machine, pc: u64, host: HostLinks, rd: u8, rn: u8)
    requires
        m.wf(),
        rd != 31,
        rn != 31,
    ensures
        inst_bytes(pc, Inst::Rev { rd, rn, op: 2, sf: true }, host) == prog_bytes(rev_prog(rd, rn)),
        run(rev_prog(rd, rn), m) matches Some(m1) && guest_reg(m1, rd as u32) == byte_reverse(
            guest_reg(m, rn as u32) as u64,
        ),
{
    let p = ldg_prog(RAX, rn as u32);
    let b = seq![Op::Bswap(RAX)];
    let w = stg_prog(rd as u32, RAX);
    lemma_bytes_one(Op::Bswap(RAX));
    lemma_prog_bytes_concat(p, b);
    lemma_prog_bytes_concat(p + b, w);
    assert(inst_bytes(pc, Inst::Rev { rd, rn, op: 2, sf: true }, host) =~= prog_bytes(p + b + w));
    let m1 = lemma_load(m, RAX, rn);
    let m2 = exec_bswap(m1, RAX);
    lemma_run_one(Op::Bswap(RAX), m1, m2);
    let m3 = lemma_write_back(m2, rd, RAX);
    lemma_run_seq(p, b, m, m1, m2);
    lemma_run_seq(p + b, w, m, m2, m3);
}

/// The program of a 64-bit CLZ: `lzcnt` of `x[rn]` in RAX, written to `rd`.
pub open spec fn clz_prog(rd: u8, rn: u8) -> Seq<Op> {
    ldg_prog(RAX, rn as u32) + seq![Op::LzcntRax] + stg_prog(rd as u32, RAX)
}

/// CLZ (X form) writes the number of leading zero bits of `x[rn]` (64 for
/// zero) to `rd`.
pub proof fn law_translate_clz(m: Machine, pc: u64, host: HostLinks, rd: u8, rn: u8)
    requires
        m.wf(),
        rd != 31,
        rn != 31,
    ensures
        inst_bytes(pc, Inst::ClzCls { rd, rn, sf: true, cls: false }, host) == prog_bytes(
            clz_prog(rd, rn),
        ),
        run(clz_prog(rd, rn), m) matches Some(m1) && guest_reg(m1, rd as u32) == 64 - bit_length(
            guest_reg(m, rn as u32),
        ),
{
    let p = ldg_prog(RAX, rn as u32);
    let b = seq![Op::LzcntRax];
    let w = stg_prog(rd as u32, RAX);
    lemma_bytes_one(Op::LzcntRax);
    lemma_prog_bytes_concat(p, b);
    lemma_prog_bytes_concat(p + b, w);
    assert(inst_bytes(pc, Inst::ClzCls { rd, rn, sf: true, cls: false }, host) =~= prog_bytes(
        p + b + w,
    ));
    let m1 = lemma_load(m, RAX, rn);
    let m2 = exec_lzcnt(m1);
    lemma_run_one(Op::LzcntRax, m1, m2);
    let m3 = lemma_write_back(m2, rd, RAX);
    lemma_run_seq(p, b, m, m1, m2);
    lemma_run_seq(p + b, w, m, m2, m3);
    vstd::arithmetic::power2::lemma2_to64();
    lemma_bit_length_bound(guest_reg(m, rn as u32), 64);
}

/// A value below 2^n has at most n bits.
proof fn lemma_bit_length_bound(v: nat, n: nat)
    requires
        v < vstd::arithmetic::power2::pow2(n),
    ensures
        bit_length(v) <= n,
    decreases n,
{
    if n == 0 {
        vstd::arithmetic::power2::lemma2_to64();
    } else if v > 0 {
        vstd::arithmetic::power2::lemma_pow2_unfold(n);
        lemma_bit_length_bound(v / 2, (n - 1) as nat);
    }
}

// ---- ADD, SUB (shifted register), W form ----

/// The program of a 32-bit ADD/SUB (shifted register) without flags: both
/// operands (XZR for 31) zero-extended, the second shifted, the 32-bit
/// operation, the result zero-extended and written to `rd`.
pub open spec fn add_sub_w_prog(rd: u8, rn: u8, rm: u8, sub: bool, kind: ShiftKind, amt: u8) -> Seq<Op> {
    operand_prog(RAX, rn) + operand_prog(RCX, rm) + zext_w_prog(RAX) + zext_w_prog(RCX)
        + shift_const_prog(RCX, kind, amt, false) + seq![
        Op::AluRR32(if sub { AluOp::Sub } else { AluOp::Add }, RAX, RCX),
    ] + zext_w_prog(RAX) + stg_prog(rd as u32, RAX)
}

/// Loading operand `g` (XZR for 31) into `x`.
proof fn lemma_operand_value(m: Machine, x: u8, g: u8) -> (m1: Machine)
    requires
        m.wf(),
        reg_ok(x),
        x != RBX,
    ensures
        run(operand_prog(x, g), m) == Some(m1),
        m1 == m.set_reg(x, store_source(m, g as u32) as u64),
        m1.reg(x) == store_source(m, g as u32),
{
    lemma_byte_bounds();
    if g == 31 {
        let n = exec_mov_imm64(m, x, 0);
        lemma_run_one(Op::MovImm64(x, 0), m, n);
        n
    } else {
        lemma_load(m, x, g)
    }
}

/// Zero-extending a register keeps its value modulo 2^32.
proof fn lemma_zext_value(m: Machine, r: u8) -> (m1: Machine)
    requires
        m.wf(),
        reg_ok(r),
    ensures
        run(zext_w_prog(r), m) == Some(m1),
        m1.regs == m.set_reg(r, m.reg(r) % 0x1_0000_0000).regs,
        m1.mem == m.mem,
        m1.wf(),
{
    law_zext_w(m, r);
    let m1 = run(zext_w_prog(r), m)->Some_0;
    vstd::bits::lemma_low_bits_mask_values();
    vstd::arithmetic::power2::lemma2_to64();
    vstd::bits::lemma_u64_low_bits_mask_is_mod(m.reg(r), 32);
    assert(m1.regs =~= m.set_reg(r, m.reg(r) % 0x1_0000_0000).regs);
    m1
}

/// ADD/SUB (shifted register, W form, no flags) write the low 32 bits of
/// `w[rn] + shift(w[rm])` (or `-`), zero-extended, to `rd`; XZR reads zero.
pub proof fn law_translate_add_sub_reg_w(
    m: Machine,
    pc: u64,
    host: HostLinks,
    rd: u8,
    rn: u8,
    rm: u8,
    sub: bool,
    shift: ShiftKind,
    sh_amt: u8,
)
    requires
        m.wf(),
        rd != 31,
        sh_amt < 32,
    ensures
        inst_bytes(
            pc,
            Inst::AddSubReg { rd, rn, rm, sub, s: false, shift, sh_amt, sf: false, sp_operand: false },
            host,
        ) == prog_bytes(add_sub_w_prog(rd, rn, rm, sub, shift, sh_amt)),
        ({
            let a = (store_source(m, rn as u32) as u64) as u32;
            let b = arm_shift32(shift, (store_source(m, rm as u32) as u64) as u32, sh_amt as u32);
            run(add_sub_w_prog(rd, rn, rm, sub, shift, sh_amt), m) matches Some(m1) && guest_reg(
                m1,
                rd as u32,
            ) == (if sub {
                a - b
            } else {
                a + b
            }) % 0x1_0000_0000
        }),
{
    let op = if sub { AluOp::Sub } else { AluOp::Add };
    let pa = operand_prog(RAX, rn);
    let pb = operand_prog(RCX, rm);
    let za = zext_w_prog(RAX);
    let zb = zext_w_prog(RCX);
    let sh = shift_const_prog(RCX, shift, sh_amt, false);
    let o = seq![Op::AluRR32(op, RAX, RCX)];
    let w = stg_prog(rd as u32, RAX);
    // the bytes
    lemma_bytes_one(Op::AluRR32(op, RAX, RCX));
    lemma_bytes_one(Op::MovImm64(RAX, 0));
    lemma_bytes_one(Op::MovImm64(RCX, 0));
    lemma_prog_bytes_concat(pa, pb);
    lemma_prog_bytes_concat(pa + pb, za);
    lemma_prog_bytes_concat(pa + pb + za, zb);
    lemma_prog_bytes_concat(pa + pb + za + zb, sh);
    lemma_prog_bytes_concat(pa + pb + za + zb + sh, o);
    lemma_prog_bytes_concat(pa + pb + za + zb + sh + o, za);
    lemma_prog_bytes_concat(pa + pb + za + zb + sh + o + za, w);
    assert(inst_bytes(
        pc,
        Inst::AddSubReg { rd, rn, rm, sub, s: false, shift, sh_amt, sf: false, sp_operand: false },
        host,
    ) =~= prog_bytes(pa + pb + za + zb + sh + o + za + w));
    // the run
    let x = store_source(m, rn as u32) as u64;
    let y = store_source(m, rm as u32) as u64;
    let m1 = lemma_operand_value(m, RAX, rn);
    let m2 = lemma_operand_value(m1, RCX, rm);
    assert(store_source(m1, rm as u32) == store_source(m, rm as u32));
    let m3 = lemma_zext_value(m2, RAX);
    let m4 = lemma_zext_value(m3, RCX);
    lemma_sext32_value(0, 0, x);
    lemma_sext32_value(0, 0, y);
    assert(m4.reg(RAX) == x % 0x1_0000_0000 && m4.reg(RCX) == y % 0x1_0000_0000);
    law_shift_const(m4, RCX, shift, sh_amt, false);
    let m5 = run(sh, m4)->Some_0;
    let c = m5.reg(RCX);
    let b = arm_shift32(shift, y as u32, sh_amt as u32);
    assert(c as u32 == b);
    assert(m5.reg(RAX) == x % 0x1_0000_0000);
    let m6 = exec_alu32(m5, op, RAX, RCX);
    lemma_run_one(Op::AluRR32(op, RAX, RCX), m5, m6);
    // the low half of the 64-bit sum or difference
    let a = x as u32;
    let big: int = 0x1_0000_0000;
    lemma_sext32_value(0, 0, c);
    assert(c % 0x1_0000_0000 == b);
    assert(m5.reg(RAX) == a);
    let r: int = if sub { a - c } else { a + c };
    vstd::arithmetic::div_mod::lemma_mod_mod(r, big, big);
    assert(m6.reg(RAX) as int == r % big);
    if sub {
        vstd::arithmetic::div_mod::lemma_sub_mod_noop(a as int, c as int, big);
        vstd::arithmetic::div_mod::lemma_small_mod(a as nat, big as nat);
        assert(r % big == (a - b) % big);
    } else {
        vstd::arithmetic::div_mod::lemma_add_mod_noop(a as int, c as int, big);
        vstd::arithmetic::div_mod::lemma_small_mod(a as nat, big as nat);
        assert(r % big == (a + b) % big);
    }
    let m7 = lemma_zext_value(m6, RAX);
    vstd::arithmetic::div_mod::lemma_mod_bound(r, big);
    vstd::arithmetic::div_mod::lemma_small_mod((r % big) as nat, big as nat);
    let m8 = lemma_write_back(m7, rd, RAX);
    lemma_run_seq(pa, pb, m, m1, m2);
    lemma_run_seq(pa + pb, za, m, m2, m3);
    lemma_run_seq(pa + pb + za, zb, m, m3, m4);
    lemma_run_seq(pa + pb + za + zb, sh, m, m4, m5);
    lemma_run_seq(pa + pb + za + zb + sh, o, m, m5, m6);
    lemma_run_seq(pa + pb + za + zb + sh + o, za, m, m6, m7);
    lemma_run_seq(pa + pb + za + zb + sh + o + za, w, m, m7, m8);
}

// ---- AND, ORR, EOR (immediate) ----

/// The AArch64 result of AND (`op` 0), ORR (1) or EOR (2) with a bitmask
/// immediate, truncated to 32 bits for a W form.
pub open spec fn arm_logic_imm(op: u8, a: u64, mask: u64, sf: bool) -> u64 {
    let v = if op == 0 {
        a & mask
    } else if op == 1 {
        a | mask
    } else {
        a ^ mask
    };
    if sf {
        v
    } else {
        v % 0x1_0000_0000
    }
}

/// The x86 operation the translation of logical `op` uses.
pub open spec fn logic_imm_alu(op: u8) -> AluOp {
    if op == 0 {
        AluOp::And
    } else if op == 1 {
        AluOp::Or
    } else {
        AluOp::Xor
    }
}

/// The program of AND/ORR/EOR (immediate): the operand (XZR for 31) in RAX,
/// the mask in RCX, the operation, the W result zero-extended, written to `rd`.
pub open spec fn logic_imm_prog(rd: u8, rn: u8, mask: u64, op: u8, sf: bool) -> Seq<Op> {
    operand_prog(RAX, rn) + seq![Op::MovImm64(RCX, mask), Op::AluRR(logic_imm_alu(op), RAX, RCX)] + (if sf {
        Seq::empty()
    } else {
        seq![Op::Zext32(RAX)]
    }) + stg_prog(rd as u32, RAX)
}

/// AND, ORR and EOR (immediate) write `x[rn] & mask`, `x[rn] | mask` and
/// `x[rn] ^ mask` (XZR for 31; the low 32 bits, zero-extended, for a W form)
/// to `rd`.
pub proof fn law_translate_logic_imm(m: Machine, pc: u64, host: HostLinks, rd: u8, rn: u8, mask: u64, op: u8, sf: bool)
    requires
        m.wf(),
        rd != 31,
        op <= 2,
    ensures
        inst_bytes(pc, Inst::LogicImm { rd, rn, mask, op, sf }, host) == prog_bytes(
            logic_imm_prog(rd, rn, mask, op, sf),
        ),
        run(logic_imm_prog(rd, rn, mask, op, sf), m) matches Some(m1) && guest_reg(m1, rd as u32)
            == arm_logic_imm(op, store_source(m, rn as u32) as u64, mask, sf),
{
    let p = operand_prog(RAX, rn);
    let t = seq![Op::MovImm64(RCX, mask), Op::AluRR(logic_imm_alu(op), RAX, RCX)];
    let z: Seq<Op> = if sf { Seq::empty() } else { seq![Op::Zext32(RAX)] };
    let w = stg_prog(rd as u32, RAX);
    lemma_bytes_one(Op::MovImm64(RAX, 0));
    lemma_bytes_two(Op::MovImm64(RCX, mask), Op::AluRR(logic_imm_alu(op), RAX, RCX));
    lemma_bytes_one(Op::Zext32(RAX));
    lemma_prog_bytes_concat(p, t);
    lemma_prog_bytes_concat(p + t, z);
    lemma_prog_bytes_concat(p + t + z, w);
    assert(inst_bytes(pc, Inst::LogicImm { rd, rn, mask, op, sf }, host) =~= prog_bytes(p + t + z + w));
    let a = store_source(m, rn as u32) as u64;
    let m1 = lemma_operand_value(m, RAX, rn);
    let m2 = exec_mov_imm64(m1, RCX, mask);
    let m3 = exec_alu(m2, logic_imm_alu(op), RAX, RCX);
    lemma_run_two(Op::MovImm64(RCX, mask), Op::AluRR(logic_imm_alu(op), RAX, RCX), m1, m2, m3);
    let m4 = if sf {
        assert(run(z, m3) == Some(m3));
        m3
    } else {
        let n = exec_zext32(m3, RAX);
        lemma_run_one(Op::Zext32(RAX), m3, n);
        n
    };
    assert(m4.reg(RAX) == arm_logic_imm(op, a, mask, sf));
    let m5 = lemma_write_back(m4, rd, RAX);
    lemma_run_seq(p, t, m, m1, m3);
    lemma_run_seq(p + t, z, m, m3, m4);
    lemma_run_seq(p + t + z, w, m, m4, m5);
}

} // verus!
