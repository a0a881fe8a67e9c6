//! What the translated pre- and post-indexed loads and stores, the
//! load/store pairs and the atomic memory operations compute, stated over
//! the machine model of `crate::machine`.
use vstd::prelude::*;
use crate::machine::{
    alu, exec_alu, exec_alu_imm, exec_lea, exec_load16, exec_mov, exec_not, exec_load32, exec_load64, exec_load8, exec_store16,
    exec_store32, exec_store64, exec_store8, lemma_byte_bounds, lemma_read_bound, lemma_read_write,
    lemma_read_write_disjoint, lemma_prog_bytes_concat, pow64, prog_bytes, read_mem, run, sext32,
    write_mem,
    byte_bound, AluOp, Machine, Op,
};
use crate::decode::Inst;
use crate::laws::{
    guest_reg, law_ldg_src, law_stg, law_stg_frame, law_stg_if_writable, ldst_address, store_source,
};
use crate::arith_laws::{
    lemma_bytes_one, lemma_bytes_two, lemma_load, lemma_run_one, lemma_run_seq, lemma_run_two,
    lemma_sext32_value,
};
use crate::translate::{
    base_prog, base_update_prog, inst_bytes, ld_str_wb_prog, ldg_prog, ldg_src_prog, ldst_core_prog,
    pair_access_off, pair_wb_off, pair_wf, slot_of, slot_ok, stg_if_writable_prog, stg_prog,
    HostLinks,
};
use crate::x86::{RAX, RBX, RCX, RDI, RDX};

verus! {

/// Adding a sign-extended imm32 modulo 2^64 adds the immediate.
proof fn lemma_add_sext32(x: u64, i: i32)
    ensures
        alu(AluOp::Add, x, sext32(i as u32)) == (x + i) % pow64(),
{
    lemma_sext32_value(0, i, 0);
    let s = sext32(i as u32);
    if i < 0 {
        assert(s as int == i + pow64());
        vstd::arithmetic::div_mod::lemma_mod_add_multiples_vanish(x + i, pow64());
    }
}

/// Guest registers live in the first 32 slots.
proof fn lemma_slot_ok(g: u8)
    requires
        g < 32,
    ensures
        slot_ok(g as u32),
{
}

/// The load of `size` bytes at `[RDX + disp]` into RAX.
proof fn lemma_load_access(m: Machine, size: u8, disp: i32) -> (m1: Machine)
    requires
        m.wf(),
        size == 1 || size == 2 || size == 4 || size == 8,
    ensures
        run(ldst_core_prog(size, true, false, disp), m) == Some(m1),
        m1 == m.set_reg(RAX, read_mem(m.mem, m.addr(RDX, disp), size as nat) as u64),
        m1.reg(RAX) == read_mem(m.mem, m.addr(RDX, disp), size as nat),
{
    let a = m.addr(RDX, disp);
    let m1 = if size == 8 {
        let n = exec_load64(m, RAX, RDX, disp);
        lemma_run_one(Op::Load64(RAX, RDX, disp), m, n);
        n
    } else if size == 4 {
        let n = exec_load32(m, RAX, RDX, disp);
        lemma_run_one(Op::Load32(RAX, RDX, disp), m, n);
        n
    } else if size == 2 {
        let n = exec_load16(m, RAX, RDX, disp);
        lemma_run_one(Op::Load16(RAX, RDX, disp), m, n);
        n
    } else {
        let n = exec_load8(m, RAX, RDX, disp);
        lemma_run_one(Op::Load8(RAX, RDX, disp), m, n);
        n
    };
    lemma_byte_bounds();
    lemma_read_bound(m.mem, a, 8);
    lemma_read_bound(m.mem, a, size as nat);
    m1
}

/// The store of the low `size` bytes of RAX at `[RDX + disp]`.
proof fn lemma_store_access(m: Machine, size: u8, disp: i32) -> (m1: Machine)
    requires
        m.wf(),
        size == 1 || size == 2 || size == 4 || size == 8,
    ensures
        run(ldst_core_prog(size, false, false, disp), m) == Some(m1),
        m1 == (Machine {
            mem: write_mem(
                m.mem,
                m.addr(RDX, disp),
                m.reg(RAX) as nat % byte_bound(size as nat),
                size as nat,
            ),
            ..m
        }),
{
    lemma_byte_bounds();
    assert(m.reg(RAX) as nat % byte_bound(8) == m.reg(RAX));
    if size == 8 {
        let n = exec_store64(m, RDX, disp, RAX);
        lemma_run_one(Op::Store64(RDX, disp, RAX), m, n);
        n
    } else if size == 4 {
        let n = exec_store32(m, RDX, disp, RAX);
        lemma_run_one(Op::Store32(RDX, disp, RAX), m, n);
        n
    } else if size == 2 {
        let n = exec_store16(m, RDX, disp, RAX);
        lemma_run_one(Op::Store16(RDX, disp, RAX), m, n);
        n
    } else {
        let n = exec_store8(m, RDX, disp, RAX);
        lemma_run_one(Op::Store8(RDX, disp, RAX), m, n);
        n
    }
}

/// The base update `x[rn] += imm9` makes guest register `rn` read its value
/// plus `imm9` modulo 2^64 and leaves every other guest register and all
/// memory outside its slot alone.
proof fn lemma_base_update(m: Machine, rn: u8, imm9: i32, h: u8) -> (m1: Machine)
    requires
        m.wf(),
        rn < 32,
        h < 32,
    ensures
        run(base_update_prog(rn, imm9), m) == Some(m1),
        guest_reg(m1, rn as u32) == (guest_reg(m, rn as u32) + imm9) % pow64(),
        h != rn ==> guest_reg(m1, h as u32) == guest_reg(m, h as u32),
        m1.mem == write_mem(m.mem, m.addr(RBX, slot_of(rn as u32)), m1.reg(RAX) as nat, 8),
        m1.reg(RBX) == m.reg(RBX),
        m1.wf(),
{
    lemma_slot_ok(rn);
    lemma_slot_ok(h);
    let l = seq![Op::Load64(RAX, RBX, slot_of(rn as u32))];
    let add: Seq<Op> = if imm9 != 0 {
        seq![Op::AluRI(AluOp::Add, RAX, imm9 as u32)]
    } else {
        Seq::empty()
    };
    let s = seq![Op::Store64(RBX, slot_of(rn as u32), RAX)];
    assert(l == ldg_prog(RAX, rn as u32));
    assert(s == stg_prog(rn as u32, RAX));
    let x = guest_reg(m, rn as u32);
    let m1 = lemma_load(m, RAX, rn);
    let m2 = if imm9 != 0 {
        let n = exec_alu_imm(m1, AluOp::Add, RAX, imm9 as u32);
        lemma_run_one(Op::AluRI(AluOp::Add, RAX, imm9 as u32), m1, n);
        lemma_add_sext32(m1.reg(RAX), imm9);
        n
    } else {
        assert(run(add, m1) == Some(m1));
        vstd::arithmetic::div_mod::lemma_small_mod(x, pow64() as nat);
        m1
    };
    assert(m2.reg(RAX) == (x + imm9) % pow64());
    law_stg_frame(m2, rn as u32, h as u32, RAX);
    law_stg(m2, rn as u32, RAX);
    let m3 = run(stg_prog(rn as u32, RAX), m2)->Some_0;
    assert(guest_reg(m2, h as u32) == guest_reg(m, h as u32));
    lemma_run_seq(l, add, m, m1, m2);
    lemma_run_seq(l + add, s, m, m2, m3);
    assert(base_update_prog(rn, imm9) == l + add + s);
    m3
}

/// A pre-indexed (`pre`) or post-indexed zero-extending load (LDR, LDRH,
/// LDRB and the W loads) of an implemented size writes the `size` bytes at
/// `x[rn] + imm9` (pre) or `x[rn]` (post) to `rt`, and moves the base `rn` by
/// `imm9`. AArch64 leaves a write-back load into its own base unpredictable,
/// so the law asks for `rt` and `rn` to differ.
pub proof fn law_translate_load_wb(
    m: Machine,
    pc: u64,
    host: HostLinks,
    rt: u8,
    rn: u8,
    imm9: i32,
    size: u8,
    pre: bool,
)
    requires
        m.wf(),
        size == 1 || size == 2 || size == 4 || size == 8,
        rt < 31,
        rn < 32,
        rt != rn,
    ensures
        inst_bytes(
            pc,
            Inst::LdStrImmWb { rt, rn, imm9, size, ld: true, sext: false, writeback: true, pre },
            host,
        ) == prog_bytes(ld_str_wb_prog(rt, rn, imm9, size, true, false, true, pre)),
        run(ld_str_wb_prog(rt, rn, imm9, size, true, false, true, pre), m) matches Some(m1) && guest_reg(
            m1,
            rt as u32,
        ) == read_mem(m.mem, ldst_address(m, rn, if pre { imm9 } else { 0 }), size as nat)
            && guest_reg(m1, rn as u32) == ldst_address(m, rn, imm9),
{
    let disp: i32 = if pre { imm9 } else { 0 };
    let b = base_prog(rn);
    let core = ldst_core_prog(size, true, false, disp);
    let wb = stg_if_writable_prog(rt as u32);
    let u = base_update_prog(rn, imm9);
    assert(b == ldg_prog(RDX, rn as u32));
    lemma_slot_ok(rt);
    lemma_slot_ok(rn);
    let m1 = lemma_load(m, RDX, rn);
    assert(m1.addr(RDX, disp) == ldst_address(m, rn, disp));
    let m2 = lemma_load_access(m1, size, disp);
    law_stg_if_writable(m2, rt as u32);
    law_stg_frame(m2, rt as u32, rn as u32, RAX);
    law_stg(m2, rt as u32, RAX);
    let m3 = run(stg_prog(rt as u32, RAX), m2)->Some_0;
    assert(guest_reg(m2, rn as u32) == guest_reg(m, rn as u32));
    let m4 = lemma_base_update(m3, rn, imm9, rt);
    lemma_run_seq(core, wb, m1, m2, m3);
    lemma_run_seq(b, core + wb, m, m1, m3);
    lemma_run_seq(b + (core + wb), u, m, m3, m4);
    assert(ld_str_wb_prog(rt, rn, imm9, size, true, false, true, pre) == b + (core + wb) + u);
}

/// A pre-indexed (`pre`) or post-indexed store (STR, STRH, STRB and the W
/// stores) of an implemented size writes the low `size` bytes of the source
/// `rt` (31 is XZR) at `x[rn] + imm9` (pre) or `x[rn]` (post), and moves the
/// base `rn` by `imm9`; the law needs the stored bytes to lie outside the
/// slot that holds `rn`.
pub proof fn law_translate_store_wb(
    m: Machine,
    pc: u64,
    host: HostLinks,
    rt: u8,
    rn: u8,
    imm9: i32,
    size: u8,
    pre: bool,
)
    requires
        m.wf(),
        size == 1 || size == 2 || size == 4 || size == 8,
        rt < 32,
        rn < 32,
        ({
            let a = ldst_address(m, rn, if pre { imm9 } else { 0 });
            let s = m.addr(RBX, slot_of(rn as u32));
            a + size <= s || s + 8 <= a
        }),
    ensures
        inst_bytes(
            pc,
            Inst::LdStrImmWb { rt, rn, imm9, size, ld: false, sext: false, writeback: true, pre },
            host,
        ) == prog_bytes(ld_str_wb_prog(rt, rn, imm9, size, false, false, true, pre)),
        run(ld_str_wb_prog(rt, rn, imm9, size, false, false, true, pre), m) matches Some(m1)
            && read_mem(m1.mem, ldst_address(m, rn, if pre { imm9 } else { 0 }), size as nat)
            == store_source(m, rt as u32) % byte_bound(size as nat) && guest_reg(m1, rn as u32)
            == ldst_address(m, rn, imm9),
{
    let disp: i32 = if pre { imm9 } else { 0 };
    let a = ldst_address(m, rn, disp);
    let n = size as nat;
    let b = base_prog(rn);
    let src = ldg_src_prog(rt as u32);
    let core = ldst_core_prog(size, false, false, disp);
    let u = base_update_prog(rn, imm9);
    assert(b == ldg_prog(RDX, rn as u32));
    lemma_slot_ok(rn);
    let sa = m.addr(RBX, slot_of(rn as u32));
    let m1 = lemma_load(m, RDX, rn);
    assert(m1.addr(RDX, disp) == a);
    law_ldg_src(m1, rt as u32);
    assert(store_source(m1, rt as u32) == store_source(m, rt as u32));
    let v = store_source(m, rt as u32);
    lemma_byte_bounds();
    if rt != 31 {
        lemma_read_bound(m.mem, m.addr(RBX, slot_of(rt as u32)), 8);
    }
    let m2 = m1.set_reg(RAX, v as u64);
    let m3 = lemma_store_access(m2, size, disp);
    let w = v % byte_bound(n);
    lemma_read_bound(m.mem, a, n);
    vstd::arithmetic::div_mod::lemma_mod_bound(v as int, byte_bound(n) as int);
    lemma_read_write(m2.mem, a, w, n);
    // the base slot is untouched by the store
    lemma_read_write_disjoint(m2.mem, a, w, n, sa, 8);
    assert(guest_reg(m3, rn as u32) == guest_reg(m, rn as u32));
    let m4 = lemma_base_update(m3, rn, imm9, rn);
    // and the base update leaves the stored bytes alone
    lemma_read_write_disjoint(m3.mem, sa, m4.reg(RAX) as nat, 8, a, n);
    lemma_run_seq(src, core, m1, m2, m3);
    lemma_run_seq(b, src + core, m, m1, m3);
    lemma_run_seq(b + (src + core), u, m, m3, m4);
    assert(ld_str_wb_prog(rt, rn, imm9, size, false, false, true, pre) == b + (src + core) + u);
}

// ---- LDP, STP ----

/// The address of guest register `g`'s slot.
pub open spec fn slot_addr(m: Machine, g: u8) -> int {
    m.addr(RBX, slot_of(g as u32))
}

/// The `n` bytes at `a` lie outside the slot of guest register `g`.
pub open spec fn clear_of_slot(m: Machine, a: int, n: nat, g: u8) -> bool {
    a + n <= slot_addr(m, g) || slot_addr(m, g) + 8 <= a
}

/// The base update of a 64-bit pair: `x[rn] + wo` through RCX.
pub open spec fn pair_update_prog(rn: u8, wo: i32) -> Seq<Op> {
    ldg_prog(RCX, rn as u32) + (if wo != 0 {
        seq![Op::Lea(RCX, RCX, wo)]
    } else {
        Seq::empty()
    }) + stg_prog(rn as u32, RCX)
}

/// The program of a 64-bit LDP (`ld`) or STP: the base in RDX, the two
/// quadword transfers at offsets `ao` and `ao + 8`, and for pre- and
/// post-index the base update.
pub open spec fn pair_prog(rt: u8, rt2: u8, rn: u8, imm: i32, ld: bool, writeback: bool, preidx: bool) -> Seq<Op> {
    let ao = pair_access_off(imm, writeback, preidx);
    let x1: Seq<Op> = if ld {
        seq![Op::Load64(RAX, RDX, ao)] + stg_if_writable_prog(rt as u32)
    } else {
        ldg_src_prog(rt as u32) + seq![Op::Store64(RDX, ao, RAX)]
    };
    let x2: Seq<Op> = if ld {
        seq![Op::Load64(RAX, RDX, (ao + 8) as i32)] + stg_if_writable_prog(rt2 as u32)
    } else {
        ldg_src_prog(rt2 as u32) + seq![Op::Store64(RDX, (ao + 8) as i32, RAX)]
    };
    ldg_prog(RDX, rn as u32) + x1 + x2 + (if writeback {
        pair_update_prog(rn, pair_wb_off(imm, writeback, preidx))
    } else {
        Seq::empty()
    })
}

/// `pair_prog` is what `translate` emits for a 64-bit general-register pair.
proof fn lemma_pair_bytes(
    pc: u64,
    host: HostLinks,
    rt: u8,
    rt2: u8,
    rn: u8,
    imm: i32,
    ld: bool,
    writeback: bool,
    preidx: bool,
)
    requires
        pair_wf(imm, writeback, preidx, false, false, false, true),
    ensures
        inst_bytes(
            pc,
            Inst::LdStPair {
                rt,
                rt2,
                rn,
                imm,
                ld,
                writeback,
                preidx,
                size_64: true,
                q128: false,
                fp_d: false,
                fp_s: false,
                sext: false,
            },
            host,
        ) == prog_bytes(pair_prog(rt, rt2, rn, imm, ld, writeback, preidx)),
{
    let ao = pair_access_off(imm, writeback, preidx);
    let wo = pair_wb_off(imm, writeback, preidx);
    let p0 = ldg_prog(RDX, rn as u32);
    let l1 = seq![Op::Load64(RAX, RDX, ao)];
    let l2 = seq![Op::Load64(RAX, RDX, (ao + 8) as i32)];
    let w1 = stg_if_writable_prog(rt as u32);
    let w2 = stg_if_writable_prog(rt2 as u32);
    let s1 = seq![Op::Store64(RDX, ao, RAX)];
    let s2 = seq![Op::Store64(RDX, (ao + 8) as i32, RAX)];
    let r1 = ldg_src_prog(rt as u32);
    let r2 = ldg_src_prog(rt2 as u32);
    let x1: Seq<Op> = if ld { l1 + w1 } else { r1 + s1 };
    let x2: Seq<Op> = if ld { l2 + w2 } else { r2 + s2 };
    let c = ldg_prog(RCX, rn as u32);
    let le: Seq<Op> = if wo != 0 { seq![Op::Lea(RCX, RCX, wo)] } else { Seq::empty() };
    let st = stg_prog(rn as u32, RCX);
    let u: Seq<Op> = if writeback { c + le + st } else { Seq::empty() };
    lemma_bytes_one(Op::Load64(RAX, RDX, ao));
    lemma_bytes_one(Op::Load64(RAX, RDX, (ao + 8) as i32));
    lemma_bytes_one(Op::Store64(RDX, ao, RAX));
    lemma_bytes_one(Op::Store64(RDX, (ao + 8) as i32, RAX));
    lemma_bytes_one(Op::Lea(RCX, RCX, wo));
    lemma_prog_bytes_concat(l1, w1);
    lemma_prog_bytes_concat(l2, w2);
    lemma_prog_bytes_concat(r1, s1);
    lemma_prog_bytes_concat(r2, s2);
    lemma_prog_bytes_concat(c, le);
    lemma_prog_bytes_concat(c + le, st);
    lemma_prog_bytes_concat(p0, x1);
    lemma_prog_bytes_concat(p0 + x1, x2);
    lemma_prog_bytes_concat(p0 + x1 + x2, u);
    assert(pair_update_prog(rn, wo) == c + le + st);
    assert(pair_prog(rt, rt2, rn, imm, ld, writeback, preidx) == p0 + x1 + x2 + u);
    assert(inst_bytes(
        pc,
        Inst::LdStPair {
            rt,
            rt2,
            rn,
            imm,
            ld,
            writeback,
            preidx,
            size_64: true,
            q128: false,
            fp_d: false,
            fp_s: false,
            sext: false,
        },
        host,
    ) =~= prog_bytes(p0 + x1 + x2 + u));
}

/// The base update of a pair makes `rn` read `x[rn] + wo` modulo 2^64 and
/// leaves the other guest registers and all memory outside `rn`'s slot alone.
proof fn lemma_pair_update(m: Machine, rn: u8, wo: i32, h: u8) -> (m1: Machine)
    requires
        m.wf(),
        rn < 32,
        h < 32,
    ensures
        run(pair_update_prog(rn, wo), m) == Some(m1),
        guest_reg(m1, rn as u32) == (guest_reg(m, rn as u32) + wo) % pow64(),
        h != rn ==> guest_reg(m1, h as u32) == guest_reg(m, h as u32),
        m1.mem == write_mem(m.mem, slot_addr(m, rn), m1.reg(RCX) as nat, 8),
        m1.reg(RBX) == m.reg(RBX),
{
    lemma_slot_ok(rn);
    lemma_slot_ok(h);
    let c = ldg_prog(RCX, rn as u32);
    let le: Seq<Op> = if wo != 0 { seq![Op::Lea(RCX, RCX, wo)] } else { Seq::empty() };
    let st = stg_prog(rn as u32, RCX);
    let x = guest_reg(m, rn as u32);
    let m1 = lemma_load(m, RCX, rn);
    let m2 = if wo != 0 {
        let n = exec_lea(m1, RCX, RCX, wo);
        lemma_run_one(Op::Lea(RCX, RCX, wo), m1, n);
        vstd::arithmetic::div_mod::lemma_mod_bound(x + wo, pow64());
        n
    } else {
        assert(run(le, m1) == Some(m1));
        vstd::arithmetic::div_mod::lemma_small_mod(x, pow64() as nat);
        m1
    };
    assert(m2.reg(RCX) == (x + wo) % pow64());
    law_stg_frame(m2, rn as u32, h as u32, RCX);
    law_stg(m2, rn as u32, RCX);
    let m3 = run(stg_prog(rn as u32, RCX), m2)->Some_0;
    lemma_run_seq(c, le, m, m1, m2);
    lemma_run_seq(c + le, st, m, m2, m3);
    m3
}

/// The quadword after the one at `a`, modulo 2^64, does not overlap it.
proof fn lemma_next_quad(a: int)
    requires
        0 <= a < pow64(),
    ensures
        ({
            let a2 = (a + 8) % pow64();
            a2 + 8 <= a || a + 8 <= a2
        }),
{
    if a + 8 >= pow64() {
        vstd::arithmetic::div_mod::lemma_mod_sub_multiples_vanish(a + 8, pow64());
        vstd::arithmetic::div_mod::lemma_small_mod((a + 8 - pow64()) as nat, pow64() as nat);
    } else {
        vstd::arithmetic::div_mod::lemma_small_mod((a + 8) as nat, pow64() as nat);
    }
}

/// LDP (X form; offset, pre- or post-indexed) loads the quadwords at
/// `x[rn] + ao` and the 8 bytes after it into `rt` and `rt2`, where `ao` is
/// `imm` but for post-index, 0; pre- and post-index move the base `rn` by
/// `imm`. AArch64 leaves a pair into one register twice, or a write-back
/// pair into its own base, unpredictable; the law also needs the second
/// quadword to lie outside the slot of `rt`.
pub proof fn law_translate_ldp(
    m: Machine,
    pc: u64,
    host: HostLinks,
    rt: u8,
    rt2: u8,
    rn: u8,
    imm: i32,
    writeback: bool,
    preidx: bool,
)
    requires
        m.wf(),
        pair_wf(imm, writeback, preidx, false, false, false, true),
        rt < 31,
        rt2 < 31,
        rn < 32,
        rt != rt2,
        writeback ==> rn != rt && rn != rt2,
        clear_of_slot(
            m,
            ldst_address(m, rn, (pair_access_off(imm, writeback, preidx) + 8) as i32),
            8,
            rt,
        ),
    ensures
        inst_bytes(
            pc,
            Inst::LdStPair {
                rt,
                rt2,
                rn,
                imm,
                ld: true,
                writeback,
                preidx,
                size_64: true,
                q128: false,
                fp_d: false,
                fp_s: false,
                sext: false,
            },
            host,
        ) == prog_bytes(pair_prog(rt, rt2, rn, imm, true, writeback, preidx)),
        run(pair_prog(rt, rt2, rn, imm, true, writeback, preidx), m) matches Some(m1) && guest_reg(
            m1,
            rt as u32,
        ) == read_mem(m.mem, ldst_address(m, rn, pair_access_off(imm, writeback, preidx)), 8)
            && guest_reg(m1, rt2 as u32) == read_mem(
            m.mem,
            ldst_address(m, rn, (pair_access_off(imm, writeback, preidx) + 8) as i32),
            8,
        ) && (writeback ==> guest_reg(m1, rn as u32) == ldst_address(m, rn, imm)),
{
    lemma_pair_bytes(pc, host, rt, rt2, rn, imm, true, writeback, preidx);
    let ao = pair_access_off(imm, writeback, preidx);
    let ao2 = (ao + 8) as i32;
    let a1 = ldst_address(m, rn, ao);
    let a2 = ldst_address(m, rn, ao2);
    lemma_slot_ok(rt);
    lemma_slot_ok(rt2);
    lemma_slot_ok(rn);
    let p0 = ldg_prog(RDX, rn as u32);
    let l1 = seq![Op::Load64(RAX, RDX, ao)];
    let l2 = seq![Op::Load64(RAX, RDX, ao2)];
    let w1 = stg_if_writable_prog(rt as u32);
    let w2 = stg_if_writable_prog(rt2 as u32);
    let m1 = lemma_load(m, RDX, rn);
    assert(m1.addr(RDX, ao) == a1);
    // the first quadword into rt
    let m2 = lemma_load_access(m1, 8, ao);
    law_stg_if_writable(m2, rt as u32);
    law_stg_frame(m2, rt as u32, rn as u32, RAX);
    law_stg(m2, rt as u32, RAX);
    let m3 = run(stg_prog(rt as u32, RAX), m2)->Some_0;
    lemma_run_seq(l1, w1, m1, m2, m3);
    // the second into rt2, read after rt's slot was written
    assert(m3.addr(RDX, ao2) == a2);
    let m4 = lemma_load_access(m3, 8, ao2);
    lemma_read_write_disjoint(m2.mem, slot_addr(m, rt), m2.reg(RAX) as nat, 8, a2, 8);
    law_stg_if_writable(m4, rt2 as u32);
    law_stg_frame(m4, rt2 as u32, rt as u32, RAX);
    law_stg_frame(m4, rt2 as u32, rn as u32, RAX);
    law_stg(m4, rt2 as u32, RAX);
    let m5 = run(stg_prog(rt2 as u32, RAX), m4)->Some_0;
    lemma_run_seq(l2, w2, m3, m4, m5);
    lemma_run_seq(p0, l1 + w1, m, m1, m3);
    lemma_run_seq(p0 + (l1 + w1), l2 + w2, m, m3, m5);
    assert(guest_reg(m5, rn as u32) == guest_reg(m, rn as u32) || !writeback);
    if writeback {
        let wo = pair_wb_off(imm, writeback, preidx);
        let m6 = lemma_pair_update(m5, rn, wo, rt);
        lemma_pair_update(m5, rn, wo, rt2);
        lemma_run_seq(p0 + (l1 + w1) + (l2 + w2), pair_update_prog(rn, wo), m, m5, m6);
        assert(pair_prog(rt, rt2, rn, imm, true, writeback, preidx) == p0 + (l1 + w1) + (l2 + w2)
            + pair_update_prog(rn, wo));
    } else {
        assert(pair_prog(rt, rt2, rn, imm, true, writeback, preidx) =~= p0 + (l1 + w1) + (l2 + w2));
    }
}

/// STP (X form; offset, pre- or post-indexed) stores the sources `rt` and
/// `rt2` (31 is XZR) as the quadwords at `x[rn] + ao` and the 8 bytes after
/// it, where `ao` is `imm` but for post-index, 0; pre- and post-index move
/// the base `rn` by `imm`. The law needs the first quadword to lie outside
/// the slot of `rt2`, and for a write-back pair both outside the slot of
/// `rn`.
pub proof fn law_translate_stp(
    m: Machine,
    pc: u64,
    host: HostLinks,
    rt: u8,
    rt2: u8,
    rn: u8,
    imm: i32,
    writeback: bool,
    preidx: bool,
)
    requires
        m.wf(),
        pair_wf(imm, writeback, preidx, false, false, false, true),
        rt < 32,
        rt2 < 32,
        rn < 32,
        rt2 != 31 ==> clear_of_slot(m, ldst_address(m, rn, pair_access_off(imm, writeback, preidx)), 8, rt2),
        writeback ==> clear_of_slot(m, ldst_address(m, rn, pair_access_off(imm, writeback, preidx)), 8, rn),
        writeback ==> clear_of_slot(
            m,
            ldst_address(m, rn, (pair_access_off(imm, writeback, preidx) + 8) as i32),
            8,
            rn,
        ),
    ensures
        inst_bytes(
            pc,
            Inst::LdStPair {
                rt,
                rt2,
                rn,
                imm,
                ld: false,
                writeback,
                preidx,
                size_64: true,
                q128: false,
                fp_d: false,
                fp_s: false,
                sext: false,
            },
            host,
        ) == prog_bytes(pair_prog(rt, rt2, rn, imm, false, writeback, preidx)),
        run(pair_prog(rt, rt2, rn, imm, false, writeback, preidx), m) matches Some(m1) && read_mem(
            m1.mem,
            ldst_address(m, rn, pair_access_off(imm, writeback, preidx)),
            8,
        ) == store_source(m, rt as u32) && read_mem(
            m1.mem,
            ldst_address(m, rn, (pair_access_off(imm, writeback, preidx) + 8) as i32),
            8,
        ) == store_source(m, rt2 as u32) && (writeback ==> guest_reg(m1, rn as u32) == ldst_address(
            m,
            rn,
            imm,
        )),
{
    lemma_pair_bytes(pc, host, rt, rt2, rn, imm, false, writeback, preidx);
    let ao = pair_access_off(imm, writeback, preidx);
    let ao2 = (ao + 8) as i32;
    let a1 = ldst_address(m, rn, ao);
    let a2 = ldst_address(m, rn, ao2);
    lemma_slot_ok(rt);
    lemma_slot_ok(rt2);
    lemma_slot_ok(rn);
    lemma_byte_bounds();
    let p0 = ldg_prog(RDX, rn as u32);
    let r1 = ldg_src_prog(rt as u32);
    let r2 = ldg_src_prog(rt2 as u32);
    let s1 = seq![Op::Store64(RDX, ao, RAX)];
    let s2 = seq![Op::Store64(RDX, ao2, RAX)];
    let m1 = lemma_load(m, RDX, rn);
    assert(m1.addr(RDX, ao) == a1);
    assert(m1.addr(RDX, ao2) == a2);
    // the first source
    law_ldg_src(m1, rt as u32);
    let v1 = store_source(m, rt as u32);
    if rt != 31 {
        lemma_read_bound(m.mem, slot_addr(m, rt), 8);
    }
    let m2 = m1.set_reg(RAX, v1 as u64);
    let m3 = exec_store64(m2, RDX, ao, RAX);
    lemma_run_one(Op::Store64(RDX, ao, RAX), m2, m3);
    lemma_run_seq(r1, s1, m1, m2, m3);
    // the second source, read after the first store
    if rt2 != 31 {
        lemma_read_write_disjoint(m2.mem, a1, v1, 8, slot_addr(m, rt2), 8);
        lemma_read_bound(m.mem, slot_addr(m, rt2), 8);
    }
    law_ldg_src(m3, rt2 as u32);
    let v2 = store_source(m, rt2 as u32);
    assert(store_source(m3, rt2 as u32) == v2);
    let m4 = m3.set_reg(RAX, v2 as u64);
    let m5 = exec_store64(m4, RDX, ao2, RAX);
    lemma_run_one(Op::Store64(RDX, ao2, RAX), m4, m5);
    lemma_run_seq(r2, s2, m3, m4, m5);
    lemma_run_seq(p0, r1 + s1, m, m1, m3);
    lemma_run_seq(p0 + (r1 + s1), r2 + s2, m, m3, m5);
    // both quadwords read back
    lemma_next_quad(a1);
    assert(a2 == (a1 + 8) % pow64()) by {
        vstd::arithmetic::div_mod::lemma_add_mod_noop(guest_reg(m, rn as u32) + ao, 8, pow64());
        vstd::arithmetic::div_mod::lemma_small_mod(8, pow64() as nat);
    }
    lemma_read_write(m4.mem, a2, v2, 8);
    lemma_read_write(m2.mem, a1, v1, 8);
    lemma_read_write_disjoint(m3.mem, a2, v2, 8, a1, 8);
    if writeback {
        let wo = pair_wb_off(imm, writeback, preidx);
        lemma_read_write_disjoint(m2.mem, a1, v1, 8, slot_addr(m, rn), 8);
        lemma_read_write_disjoint(m3.mem, a2, v2, 8, slot_addr(m, rn), 8);
        let m6 = lemma_pair_update(m5, rn, wo, rn);
        lemma_read_write_disjoint(m5.mem, slot_addr(m, rn), m6.reg(RCX) as nat, 8, a1, 8);
        lemma_read_write_disjoint(m5.mem, slot_addr(m, rn), m6.reg(RCX) as nat, 8, a2, 8);
        lemma_run_seq(p0 + (r1 + s1) + (r2 + s2), pair_update_prog(rn, wo), m, m5, m6);
        assert(pair_prog(rt, rt2, rn, imm, false, writeback, preidx) == p0 + (r1 + s1) + (r2 + s2)
            + pair_update_prog(rn, wo));
    } else {
        assert(pair_prog(rt, rt2, rn, imm, false, writeback, preidx) =~= p0 + (r1 + s1) + (r2 + s2));
    }
}

// ---- LDCLR, LDEOR, LDSET, SWP ----

/// The value an atomic memory operation (`op` 0 LDADD, 1 LDCLR, 2 LDEOR,
/// 3 LDSET, 4 or more SWP) leaves in memory, from the old value and the
/// operand `x`.
pub open spec fn lse_value(op: u8, old: u64, x: u64) -> u64 {
    if op == 0 {
        ((old + x) % pow64()) as u64
    } else if op == 1 {
        old & !x
    } else if op == 2 {
        old ^ x
    } else if op == 3 {
        old | x
    } else {
        x
    }
}

/// The update of the old value (RAX) by the operand (RCX) of `op`.
pub open spec fn lse_op_prog(op: u8) -> Seq<Op> {
    if op == 0 {
        seq![Op::AluRR(AluOp::Add, RAX, RCX)]
    } else if op == 1 {
        seq![Op::Not(RCX), Op::AluRR(AluOp::And, RAX, RCX)]
    } else if op == 2 {
        seq![Op::AluRR(AluOp::Xor, RAX, RCX)]
    } else if op == 3 {
        seq![Op::AluRR(AluOp::Or, RAX, RCX)]
    } else {
        seq![Op::MovRR(RAX, RCX)]
    }
}

/// The program of a 64-bit atomic memory operation: the address in RDX, the
/// old value in RAX and RDI, the operand in RCX, the update stored back, and
/// the old value to `rt` unless it is 31.
pub open spec fn lse_prog(op: u8, rs: u8, rn: u8, rt: u8) -> Seq<Op> {
    ldg_prog(RDX, rn as u32) + seq![Op::Load64(RAX, RDX, 0), Op::MovRR(RDI, RAX)] + ldg_prog(
        RCX,
        rs as u32,
    ) + lse_op_prog(op) + seq![Op::Store64(RDX, 0, RAX)] + (if rt != 31 {
        seq![Op::MovRR(RAX, RDI)] + stg_prog(rt as u32, RAX)
    } else {
        Seq::empty()
    })
}

/// A 64-bit LDCLR, LDEOR, LDSET or SWP (`op` 1, 2, 3, 4 or more) replaces
/// the quadword at `x[rn]` by `lse_value` of it and `x[rs]`, and gives `rt`
/// (unless 31) the old value; the new value stays in memory unless the
/// target is `rt`'s own slot in `CpuState`.
pub proof fn law_translate_lse(m: Machine, pc: u64, host: HostLinks, op: u8, rs: u8, rn: u8, rt: u8)
    requires
        m.wf(),
        op != 0,
        rt < 32,
    ensures
        inst_bytes(pc, Inst::LseAtomic { op, size64: true, rs, rn, rt }, host) == prog_bytes(
            lse_prog(op, rs, rn, rt),
        ),
        ({
            let a = guest_reg(m, rn as u32);
            let old = read_mem(m.mem, a as int, 8) as u64;
            let x = guest_reg(m, rs as u32) as u64;
            run(lse_prog(op, rs, rn, rt), m) matches Some(m1) && (rt != 31 ==> guest_reg(
                m1,
                rt as u32,
            ) == old) && ((rt == 31 || clear_of_slot(m, a as int, 8, rt)) ==> read_mem(
                m1.mem,
                a as int,
                8,
            ) == lse_value(op, old, x))
        }),
{
    let p1 = ldg_prog(RDX, rn as u32);
    let l = seq![Op::Load64(RAX, RDX, 0), Op::MovRR(RDI, RAX)];
    let p2 = ldg_prog(RCX, rs as u32);
    let u = lse_op_prog(op);
    let st = seq![Op::Store64(RDX, 0, RAX)];
    let mv = seq![Op::MovRR(RAX, RDI)];
    let w = stg_prog(rt as u32, RAX);
    let tail: Seq<Op> = if rt != 31 {
        mv + w
    } else {
        Seq::empty()
    };
    // the bytes
    lemma_bytes_two(Op::Load64(RAX, RDX, 0), Op::MovRR(RDI, RAX));
    lemma_bytes_two(Op::Not(RCX), Op::AluRR(AluOp::And, RAX, RCX));
    lemma_bytes_one(Op::AluRR(AluOp::Xor, RAX, RCX));
    lemma_bytes_one(Op::AluRR(AluOp::Or, RAX, RCX));
    lemma_bytes_one(Op::MovRR(RAX, RCX));
    lemma_bytes_one(Op::Store64(RDX, 0, RAX));
    lemma_bytes_one(Op::MovRR(RAX, RDI));
    lemma_prog_bytes_concat(mv, w);
    lemma_prog_bytes_concat(p1, l);
    lemma_prog_bytes_concat(p1 + l, p2);
    lemma_prog_bytes_concat(p1 + l + p2, u);
    lemma_prog_bytes_concat(p1 + l + p2 + u, st);
    lemma_prog_bytes_concat(p1 + l + p2 + u + st, tail);
    assert(inst_bytes(pc, Inst::LseAtomic { op, size64: true, rs, rn, rt }, host) =~= prog_bytes(
        p1 + l + p2 + u + st + tail,
    ));
    // the run
    let a = guest_reg(m, rn as u32);
    let old = read_mem(m.mem, a as int, 8) as u64;
    let x = guest_reg(m, rs as u32) as u64;
    lemma_byte_bounds();
    lemma_read_bound(m.mem, a as int, 8);
    let m1 = lemma_load(m, RDX, rn);
    assert(m1.addr(RDX, 0) == a);
    let m2 = exec_load64(m1, RAX, RDX, 0);
    let m3 = exec_mov(m2, RDI, RAX);
    lemma_run_two(Op::Load64(RAX, RDX, 0), Op::MovRR(RDI, RAX), m1, m2, m3);
    let m4 = lemma_load(m3, RCX, rs);
    assert(guest_reg(m3, rs as u32) == guest_reg(m, rs as u32));
    assert(m4.reg(RAX) == old && m4.reg(RCX) == x);
    let m5 = if op == 1 {
        let k = exec_not(m4, RCX);
        let n = exec_alu(k, AluOp::And, RAX, RCX);
        lemma_run_two(Op::Not(RCX), Op::AluRR(AluOp::And, RAX, RCX), m4, k, n);
        n
    } else if op == 2 {
        let n = exec_alu(m4, AluOp::Xor, RAX, RCX);
        lemma_run_one(Op::AluRR(AluOp::Xor, RAX, RCX), m4, n);
        n
    } else if op == 3 {
        let n = exec_alu(m4, AluOp::Or, RAX, RCX);
        lemma_run_one(Op::AluRR(AluOp::Or, RAX, RCX), m4, n);
        n
    } else {
        let n = exec_mov(m4, RAX, RCX);
        lemma_run_one(Op::MovRR(RAX, RCX), m4, n);
        n
    };
    assert(m5.reg(RAX) == lse_value(op, old, x));
    assert(m5.reg(RDI) == old);
    assert(m5.addr(RDX, 0) == a);
    let m6 = exec_store64(m5, RDX, 0, RAX);
    lemma_run_one(Op::Store64(RDX, 0, RAX), m5, m6);
    lemma_read_write(m5.mem, a as int, lse_value(op, old, x) as nat, 8);
    lemma_run_seq(p1, l, m, m1, m3);
    lemma_run_seq(p1 + l, p2, m, m3, m4);
    lemma_run_seq(p1 + l + p2, u, m, m4, m5);
    lemma_run_seq(p1 + l + p2 + u, st, m, m5, m6);
    if rt != 31 {
        lemma_slot_ok(rt);
        let m7 = exec_mov(m6, RAX, RDI);
        lemma_run_one(Op::MovRR(RAX, RDI), m6, m7);
        law_stg(m7, rt as u32, RAX);
        let m8 = run(w, m7)->Some_0;
        lemma_read_write(m7.mem, slot_addr(m7, rt), old as nat, 8);
        if clear_of_slot(m, a as int, 8, rt) {
            lemma_read_write_disjoint(m7.mem, slot_addr(m7, rt), old as nat, 8, a as int, 8);
        }
        lemma_run_seq(mv, w, m6, m7, m8);
        lemma_run_seq(p1 + l + p2 + u + st, tail, m, m6, m8);
    } else {
        assert(run(tail, m6) == Some(m6));
        lemma_run_seq(p1 + l + p2 + u + st, tail, m, m6, m6);
    }
}

} // verus!
