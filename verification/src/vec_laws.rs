//! What the translated vector logical operations, scalar double arithmetic,
//! vector floating-point compares and multi-register stores compute, stated
//! over the machine model of `crate::machine`.
//!
//! A vector register lives in `CpuState` as two little-endian quadwords: the
//! low one at its slot and the high one 8 bytes above. Floating-point
//! arithmetic and ordering are the model's `FpUnit` functions, which x86 and
//! AArch64 share: the laws say which of them each instruction applies to which
//! operands.
use vstd::prelude::*;
use crate::machine::{
    comisd_flags, exec_alu_imm, exec_comis, exec_load32, exec_load64, exec_movd_to_xmm,
    exec_movdqu_load, exec_movdqu_store, exec_movq_load, exec_movq_store, exec_movzx_r8, exec_neg,
    exec_setcc, exec_sse_arith_sd, exec_sse_logic, exec_store32, exec_store64, lemma_byte_bounds,
    lemma_prog_bytes_concat, lemma_read_bound, lemma_read_write, lemma_read_write_disjoint,
    lemma_take_all, lemma_write_frame, pow64, prog_bytes, read_mem, run, run_next, run_start, sext32,
    write_mem, x86_cond, AluOp, FpArith, FpOrder, Machine, Op,
};
use crate::decode::Inst;
use crate::arith_laws::{
    lemma_bytes_one, lemma_bytes_two, lemma_load, lemma_run_one, lemma_run_seq, lemma_run_two,
    lemma_sext32_value,
};
use crate::translate::{inst_bytes, ldg_prog, slot_of, vslot_of, HostLinks};
use crate::vec_mem::{multi_bytes, post_bytes, reg_k};
use crate::vec_fp::{
    comiss_bytes, fp_rel_cc, fp_rel_lane_bytes, fp_rel_lanes_bytes, mask_out_bytes, s_in_bytes,
    vec_fp_rel_bytes,
};
use crate::simd_ops::lane_off;
use crate::simd_lanes::lane_count;
use crate::laws::guest_reg;
use crate::x86::{RAX, RBX, RDX};

verus! {

/// The low quadword of vector register `r`.
pub open spec fn vreg_lo(m: Machine, r: u8) -> nat {
    read_mem(m.mem, m.addr(RBX, vslot_of(r)), 8)
}

/// The high quadword of vector register `r`.
pub open spec fn vreg_hi(m: Machine, r: u8) -> nat {
    read_mem(m.mem, m.addr(RBX, vslot_of(r)) + 8, 8)
}

/// Storing the pair `(lo, hi)` at `a` and `a + 8` reads back as `lo` and `hi`.
proof fn lemma_read_pair(mem: vstd::map::Map<int, u8>, a: int, lo: u64, hi: u64)
    ensures
        read_mem(write_mem(write_mem(mem, a, lo as nat, 8), a + 8, hi as nat, 8), a, 8) == lo,
        read_mem(write_mem(write_mem(mem, a, lo as nat, 8), a + 8, hi as nat, 8), a + 8, 8) == hi,
{
    lemma_byte_bounds();
    lemma_read_write(mem, a, lo as nat, 8);
    lemma_read_write_disjoint(write_mem(mem, a, lo as nat, 8), a + 8, hi as nat, 8, a, 8);
    lemma_read_write(write_mem(mem, a, lo as nat, 8), a + 8, hi as nat, 8);
}

// ---- AND, EOR, ORR, BIC (vector) ----

/// One quadword of AND (`op` 0), EOR (1), ORR (2) or BIC (3) of `n` and `m`.
pub open spec fn arm_vlog(op: u8, n: u64, m: u64) -> u64 {
    if op == 0 {
        n & m
    } else if op == 1 {
        n ^ m
    } else if op == 2 {
        n | m
    } else {
        !m & n
    }
}

/// The program of a vector logical operation: both registers into XMM0 and
/// XMM1, `pand`/`pxor`/`por` into XMM0, or for BIC `pandn` into XMM1, stored
/// to `rd`.
pub open spec fn vlog_prog(rd: u8, rn: u8, rm: u8, op: u8) -> Seq<Op> {
    seq![Op::MovdquLoad(0, RBX, vslot_of(rn)), Op::MovdquLoad(1, RBX, vslot_of(rm))] + if op <= 2 {
        seq![Op::SseLogic(op, 0, 1), Op::MovdquStore(RBX, vslot_of(rd), 0)]
    } else {
        seq![Op::SseLogic(3, 1, 0), Op::MovdquStore(RBX, vslot_of(rd), 1)]
    }
}

/// AND, EOR, ORR and BIC (vector, 16 bytes) leave in `v[rd]`, quadword by
/// quadword, `v[rn] & v[rm]`, `v[rn] ^ v[rm]`, `v[rn] | v[rm]` and
/// `v[rn] & !v[rm]`.
pub proof fn law_translate_simd_vlog(m: Machine, pc: u64, host: HostLinks, rd: u8, rn: u8, rm: u8, op: u8)
    requires
        m.wf(),
        m.xmm.len() == 16,
        op <= 3,
    ensures
        inst_bytes(pc, Inst::SimdVLog { rd, rn, rm, op }, host) == prog_bytes(vlog_prog(rd, rn, rm, op)),
        run(vlog_prog(rd, rn, rm, op), m) matches Some(m1) && vreg_lo(m1, rd) == arm_vlog(
            op,
            vreg_lo(m, rn) as u64,
            vreg_lo(m, rm) as u64,
        ) && vreg_hi(m1, rd) == arm_vlog(op, vreg_hi(m, rn) as u64, vreg_hi(m, rm) as u64),
{
    let l = seq![Op::MovdquLoad(0, RBX, vslot_of(rn)), Op::MovdquLoad(1, RBX, vslot_of(rm))];
    let d: u8 = if op <= 2 { 0 } else { 1 };
    let s: u8 = if op <= 2 { 1 } else { 0 };
    let c = seq![Op::SseLogic(op, d, s), Op::MovdquStore(RBX, vslot_of(rd), d)];
    lemma_bytes_two(Op::MovdquLoad(0, RBX, vslot_of(rn)), Op::MovdquLoad(1, RBX, vslot_of(rm)));
    lemma_bytes_two(Op::SseLogic(op, d, s), Op::MovdquStore(RBX, vslot_of(rd), d));
    lemma_prog_bytes_concat(l, c);
    assert(vlog_prog(rd, rn, rm, op) == l + c);
    assert(inst_bytes(pc, Inst::SimdVLog { rd, rn, rm, op }, host) =~= prog_bytes(l + c));
    lemma_byte_bounds();
    lemma_read_bound(m.mem, m.addr(RBX, vslot_of(rn)), 8);
    lemma_read_bound(m.mem, m.addr(RBX, vslot_of(rn)) + 8, 8);
    lemma_read_bound(m.mem, m.addr(RBX, vslot_of(rm)), 8);
    lemma_read_bound(m.mem, m.addr(RBX, vslot_of(rm)) + 8, 8);
    let m1 = exec_movdqu_load(m, 0, RBX, vslot_of(rn));
    let m2 = exec_movdqu_load(m1, 1, RBX, vslot_of(rm));
    lemma_run_two(Op::MovdquLoad(0, RBX, vslot_of(rn)), Op::MovdquLoad(1, RBX, vslot_of(rm)), m, m1, m2);
    let m3 = exec_sse_logic(m2, op, d, s);
    let m4 = exec_movdqu_store(m3, RBX, vslot_of(rd), d);
    lemma_run_two(Op::SseLogic(op, d, s), Op::MovdquStore(RBX, vslot_of(rd), d), m2, m3, m4);
    lemma_run_seq(l, c, m, m2, m4);
    lemma_read_pair(m3.mem, m3.addr(RBX, vslot_of(rd)), m3.xmm[d as int].0, m3.xmm[d as int].1);
}

// ---- FMUL, FADD, FSUB, FDIV (scalar double) ----

/// The IEEE operation of scalar FP `op` 4 (FMUL), 5 (FADD), 6 (FSUB) and 7
/// (FDIV).
pub open spec fn arm_fp_arith(op: u8) -> FpArith {
    if op == 4 {
        FpArith::Mul
    } else if op == 5 {
        FpArith::Add
    } else if op == 6 {
        FpArith::Sub
    } else {
        FpArith::Div
    }
}

/// The program of a scalar double operation: both operands into XMM0 and
/// XMM1, the operation into XMM0, its low quadword stored to `rd`.
pub open spec fn fp_double_prog(rd: u8, rn: u8, rm: u8, op: u8) -> Seq<Op> {
    seq![
        Op::MovqLoad(0, RBX, vslot_of(rn)),
        Op::MovqLoad(1, RBX, vslot_of(rm)),
        Op::SseArithSd(arm_fp_arith(op), 0, 1),
        Op::MovqStore(RBX, vslot_of(rd), 0),
    ]
}

/// FMUL, FADD, FSUB and FDIV on doubles store the IEEE product, sum,
/// difference `d[rn] - d[rm]` or quotient `d[rn] / d[rm]` of the low
/// quadwords of `v[rn]` and `v[rm]` in the low quadword of `v[rd]`.
pub proof fn law_translate_fp_double(m: Machine, pc: u64, host: HostLinks, rd: u8, rn: u8, rm: u8, op: u8)
    requires
        m.wf(),
        m.xmm.len() == 16,
        4 <= op <= 7,
    ensures
        inst_bytes(pc, Inst::FpScalar { rd, rn, rm, op, sz: true, half: false }, host) == prog_bytes(
            fp_double_prog(rd, rn, rm, op),
        ),
        run(fp_double_prog(rd, rn, rm, op), m) matches Some(m1) && vreg_lo(m1, rd) == (m.fp.arith)(
            arm_fp_arith(op),
            vreg_lo(m, rn) as u64,
            vreg_lo(m, rm) as u64,
        ),
{
    let a = Op::MovqLoad(0, RBX, vslot_of(rn));
    let b = Op::MovqLoad(1, RBX, vslot_of(rm));
    let c = Op::SseArithSd(arm_fp_arith(op), 0, 1);
    let d = Op::MovqStore(RBX, vslot_of(rd), 0);
    lemma_bytes_two(a, b);
    lemma_bytes_two(c, d);
    lemma_prog_bytes_concat(seq![a, b], seq![c, d]);
    assert(fp_double_prog(rd, rn, rm, op) == seq![a, b] + seq![c, d]);
    assert(inst_bytes(pc, Inst::FpScalar { rd, rn, rm, op, sz: true, half: false }, host) =~= prog_bytes(
        seq![a, b] + seq![c, d],
    ));
    let m1 = exec_movq_load(m, 0, RBX, vslot_of(rn));
    let m2 = exec_movq_load(m1, 1, RBX, vslot_of(rm));
    lemma_run_two(a, b, m, m1, m2);
    let m3 = exec_sse_arith_sd(m2, arm_fp_arith(op), 0, 1);
    let m4 = exec_movq_store(m3, RBX, vslot_of(rd), 0);
    lemma_run_two(c, d, m2, m3, m4);
    lemma_run_seq(seq![a, b], seq![c, d], m, m2, m4);
    lemma_byte_bounds();
    lemma_read_write(m3.mem, m3.addr(RBX, vslot_of(rd)), m3.xmm[0].0 as nat, 8);
}

// ---- ST1 (multiple registers) ----

/// The offset of block `j` of 16 (`q`) or 8 bytes.
pub open spec fn block_off(q: bool, j: int) -> int {
    if q {
        16 * j
    } else {
        8 * j
    }
}

/// The ops that store register `rd + k` as block `k` at `[RDX]`.
pub open spec fn st1_block_prog(rd: u8, q: bool, k: int) -> Seq<Op> {
    let disp = (k * if q { 16int } else { 8int }) as i32;
    if q {
        seq![Op::MovdquLoad(0, RBX, reg_k(rd, k)), Op::MovdquStore(RDX, disp, 0)]
    } else {
        seq![Op::MovqLoad(0, RBX, reg_k(rd, k)), Op::MovqStore(RDX, disp, 0)]
    }
}

/// The first `n` blocks of ST1.
pub open spec fn st1_prog(rd: u8, q: bool, n: nat) -> Seq<Op>
    decreases n,
{
    if n == 0 {
        Seq::empty()
    } else {
        st1_prog(rd, q, (n - 1) as nat) + st1_block_prog(rd, q, n - 1)
    }
}

/// `x[rn] += post` through RAX, nothing for 0.
pub open spec fn post_prog(rn: u8, post: u8) -> Seq<Op> {
    if post != 0 {
        seq![
            Op::Load64(RAX, RBX, slot_of(rn as u32)),
            Op::AluRI(AluOp::Add, RAX, post as u32),
            Op::Store64(RBX, slot_of(rn as u32), RAX),
        ]
    } else {
        Seq::empty()
    }
}

/// The program of ST1 of `nreg` registers: the address in RDX, the blocks,
/// the post-index.
pub open spec fn st1n_prog(rd: u8, rn: u8, nreg: u8, q: bool, post: u8) -> Seq<Op> {
    ldg_prog(RDX, rn as u32) + st1_prog(rd, q, nreg as nat) + post_prog(rn, post)
}

/// `st1_prog` is what `translate` emits for the blocks.
proof fn lemma_st1_bytes(rd: u8, q: bool, n: nat)
    ensures
        prog_bytes(st1_prog(rd, q, n)) == multi_bytes(rd, q, false, n),
    decreases n,
{
    if n > 0 {
        let k = n - 1;
        let disp = (k * if q { 16int } else { 8int }) as i32;
        lemma_st1_bytes(rd, q, (n - 1) as nat);
        lemma_bytes_two(Op::MovdquLoad(0, RBX, reg_k(rd, k)), Op::MovdquStore(RDX, disp, 0));
        lemma_bytes_two(Op::MovqLoad(0, RBX, reg_k(rd, k)), Op::MovqStore(RDX, disp, 0));
        lemma_prog_bytes_concat(st1_prog(rd, q, (n - 1) as nat), st1_block_prog(rd, q, k));
    }
}

/// Two memories that agree on `[a, a + n)` read the same value there.
proof fn lemma_read_same(m1: vstd::map::Map<int, u8>, m2: vstd::map::Map<int, u8>, a: int, n: nat)
    requires
        forall|i: int| a <= i < a + n ==> m1[i] == m2[i],
    ensures
        read_mem(m1, a, n) == read_mem(m2, a, n),
    decreases n,
{
    if n > 0 {
        lemma_read_same(m1, m2, a + 1, (n - 1) as nat);
    }
}

/// Block `j` of the stored memory holds register `rd + j` of `m0`.
pub open spec fn block_ok(mem: vstd::map::Map<int, u8>, m0: Machine, rd: u8, q: bool, x: int, j: int) -> bool {
    &&& read_mem(mem, x + block_off(q, j), 8) == vreg_lo(m0, (rd + j) as u8)
    &&& q ==> read_mem(mem, x + block_off(q, j) + 8, 8) == vreg_hi(m0, (rd + j) as u8)
}

/// The region of `CpuState`, which the stores must not touch.
pub open spec fn in_state(m: Machine, a: int) -> bool {
    m.reg(RBX) <= a < m.reg(RBX) + 0x1000
}

/// The first `n` blocks store registers `rd..rd+n` of `m0` to `[x]`, leaving
/// `CpuState` and the general registers alone.
proof fn lemma_run_st1(m0: Machine, ms: Machine, rd: u8, q: bool, n: nat, x: int) -> (mk: Machine)
    requires
        ms.wf(),
        ms.xmm.len() == 16,
        ms.reg(RBX) == m0.reg(RBX),
        ms.reg(RDX) == x,
        ms.mem == m0.mem,
        rd + n <= 32,
        m0.reg(RBX) + 0x1000 <= pow64(),
        0 <= x,
        x + 16 * n <= pow64(),
        x + 16 * n <= m0.reg(RBX) || m0.reg(RBX) + 0x1000 <= x,
    ensures
        run(st1_prog(rd, q, n), ms) == Some(mk),
        mk.regs == ms.regs,
        mk.xmm.len() == 16,
        forall|a: int| in_state(m0, a) ==> mk.mem[a] == m0.mem[a],
        forall|j: int| 0 <= j < n ==> #[trigger] block_ok(mk.mem, m0, rd, q, x, j),
    decreases n,
{
    if n == 0 {
        run_start(st1_prog(rd, q, n), ms);
        assert(st1_prog(rd, q, n) =~= Seq::<Op>::empty());
        ms
    } else {
        let k = n - 1;
        let mk1 = lemma_run_st1(m0, ms, rd, q, (n - 1) as nat, x);
        let cs = m0.reg(RBX) as int;
        let r = (rd + k) as u8;
        assert(reg_k(rd, k) == vslot_of(r));
        let sa = mk1.addr(RBX, vslot_of(r));
        assert(sa == cs + 272 + 16 * r);
        assert(sa == m0.addr(RBX, vslot_of(r)));
        assert forall|i: int| sa <= i < sa + 16 implies mk1.mem[i] == m0.mem[i] by {
            assert(in_state(m0, i));
        }
        lemma_read_same(mk1.mem, m0.mem, sa, 8);
        lemma_read_same(mk1.mem, m0.mem, sa + 8, 8);
        lemma_byte_bounds();
        lemma_read_bound(m0.mem, sa, 8);
        lemma_read_bound(m0.mem, sa + 8, 8);
        let disp = (k * if q { 16int } else { 8int }) as i32;
        assert(disp as int == block_off(q, k));
        let d = x + block_off(q, k);
        let b = st1_block_prog(rd, q, k);
        let mk2 = if q {
            let n1 = exec_movdqu_load(mk1, 0, RBX, vslot_of(r));
            assert(n1.addr(RDX, disp) == d);
            let n2 = exec_movdqu_store(n1, RDX, disp, 0);
            lemma_run_two(Op::MovdquLoad(0, RBX, reg_k(rd, k)), Op::MovdquStore(RDX, disp, 0), mk1, n1, n2);
            lemma_read_pair(n1.mem, d, n1.xmm[0].0, n1.xmm[0].1);
            assert forall|a: int| in_state(m0, a) implies n2.mem[a] == m0.mem[a] by {
                lemma_write_frame(n1.mem, d, n1.xmm[0].0 as nat, 8, a);
                lemma_write_frame(write_mem(n1.mem, d, n1.xmm[0].0 as nat, 8), d + 8, n1.xmm[0].1 as nat, 8, a);
            }
            assert forall|j: int| 0 <= j < k implies #[trigger] block_ok(n2.mem, m0, rd, q, x, j) by {
                assert(block_ok(mk1.mem, m0, rd, q, x, j));
                let e = x + block_off(q, j);
                let w1 = write_mem(n1.mem, d, n1.xmm[0].0 as nat, 8);
                lemma_read_write_disjoint(n1.mem, d, n1.xmm[0].0 as nat, 8, e, 8);
                lemma_read_write_disjoint(w1, d + 8, n1.xmm[0].1 as nat, 8, e, 8);
                lemma_read_write_disjoint(n1.mem, d, n1.xmm[0].0 as nat, 8, e + 8, 8);
                lemma_read_write_disjoint(w1, d + 8, n1.xmm[0].1 as nat, 8, e + 8, 8);
            }
            n2
        } else {
            let n1 = exec_movq_load(mk1, 0, RBX, vslot_of(r));
            assert(n1.addr(RDX, disp) == d);
            let n2 = exec_movq_store(n1, RDX, disp, 0);
            lemma_run_two(Op::MovqLoad(0, RBX, reg_k(rd, k)), Op::MovqStore(RDX, disp, 0), mk1, n1, n2);
            lemma_read_write(n1.mem, d, n1.xmm[0].0 as nat, 8);
            assert forall|a: int| in_state(m0, a) implies n2.mem[a] == m0.mem[a] by {
                lemma_write_frame(n1.mem, d, n1.xmm[0].0 as nat, 8, a);
            }
            assert forall|j: int| 0 <= j < k implies #[trigger] block_ok(n2.mem, m0, rd, q, x, j) by {
                assert(block_ok(mk1.mem, m0, rd, q, x, j));
                lemma_read_write_disjoint(n1.mem, d, n1.xmm[0].0 as nat, 8, x + block_off(q, j), 8);
            }
            n2
        };
        assert(block_ok(mk2.mem, m0, rd, q, x, k));
        lemma_run_seq(st1_prog(rd, q, (n - 1) as nat), b, ms, mk1, mk2);
        mk2
    }
}

/// ST1 {v[rd], .., v[rd + nreg - 1]} stores register `rd + j` as block `j`
/// (16 bytes for `q`, else its low 8) at `x[rn] + j * block`, and moves
/// `x[rn]` by the post-index `post` (0 for none). The law needs
/// the registers to stay within v0..v31 and the stored bytes to lie outside
/// `CpuState` without wrapping the address space.
pub proof fn law_translate_st1n(m: Machine, pc: u64, host: HostLinks, rd: u8, rn: u8, nreg: u8, q: bool, post: u8)
    requires
        m.wf(),
        m.xmm.len() == 16,
        rd + nreg <= 32,
        m.reg(RBX) + 0x1000 <= pow64(),
        guest_reg(m, rn as u32) + 16 * nreg <= pow64(),
        guest_reg(m, rn as u32) + 16 * nreg <= m.reg(RBX) || m.reg(RBX) + 0x1000 <= guest_reg(
            m,
            rn as u32,
        ),
    ensures
        inst_bytes(pc, Inst::St1N { rd, rn, nreg, q, post }, host) == prog_bytes(
            st1n_prog(rd, rn, nreg, q, post),
        ),
        run(st1n_prog(rd, rn, nreg, q, post), m) matches Some(m1) && (forall|j: int|
            0 <= j < nreg ==> #[trigger] block_ok(m1.mem, m, rd, q, guest_reg(m, rn as u32) as int, j))
            && guest_reg(m1, rn as u32) == (guest_reg(m, rn as u32) + post) % pow64(),
{
    let x = guest_reg(m, rn as u32) as int;
    let p = ldg_prog(RDX, rn as u32);
    let s = st1_prog(rd, q, nreg as nat);
    let t = post_prog(rn, post);
    // the bytes
    lemma_st1_bytes(rd, q, nreg as nat);
    lemma_bytes_one(Op::Load64(RAX, RBX, slot_of(rn as u32)));
    lemma_bytes_two(Op::AluRI(AluOp::Add, RAX, post as u32), Op::Store64(RBX, slot_of(rn as u32), RAX));
    lemma_prog_bytes_concat(
        seq![Op::Load64(RAX, RBX, slot_of(rn as u32))],
        seq![Op::AluRI(AluOp::Add, RAX, post as u32), Op::Store64(RBX, slot_of(rn as u32), RAX)],
    );
    assert(post != 0 ==> t == seq![Op::Load64(RAX, RBX, slot_of(rn as u32))] + seq![
        Op::AluRI(AluOp::Add, RAX, post as u32),
        Op::Store64(RBX, slot_of(rn as u32), RAX),
    ]);
    assert(prog_bytes(t) =~= post_bytes(rn, post));
    lemma_prog_bytes_concat(p, s);
    lemma_prog_bytes_concat(p + s, t);
    assert(inst_bytes(pc, Inst::St1N { rd, rn, nreg, q, post }, host) =~= prog_bytes(p + s + t));
    // the run
    let m1 = lemma_load(m, RDX, rn);
    let mk = lemma_run_st1(m, m1, rd, q, nreg as nat, x);
    lemma_run_seq(p, s, m, m1, mk);
    let cs = m.reg(RBX) as int;
    if post != 0 {
        let sa = slot_of(rn as u32);
        let n1 = exec_load64(mk, RAX, RBX, sa);
        let n2 = exec_alu_imm(n1, AluOp::Add, RAX, post as u32);
        let n3 = exec_store64(n2, RBX, sa, RAX);
        let a = n2.addr(RBX, sa);
        assert(a == cs + 8 * rn);
        run_start(t, mk);
        run_next(t, 0, mk, mk, n1);
        run_next(t, 1, mk, n1, n2);
        run_next(t, 2, mk, n2, n3);
        lemma_take_all(t);
        assert forall|j: int| 0 <= j < nreg implies #[trigger] block_ok(n3.mem, m, rd, q, x, j) by {
            assert(block_ok(mk.mem, m, rd, q, x, j));
            lemma_read_write_disjoint(n2.mem, a, n2.reg(RAX) as nat, 8, x + block_off(q, j), 8);
            lemma_read_write_disjoint(n2.mem, a, n2.reg(RAX) as nat, 8, x + block_off(q, j) + 8, 8);
        }
        // the base slot was not among the stored bytes
        assert forall|i: int| a <= i < a + 8 implies mk.mem[i] == m.mem[i] by {
            assert(in_state(m, i));
        }
        lemma_read_same(mk.mem, m.mem, a, 8);
        assert(n1.reg(RAX) == x);
        assert(sext32(post as u32) == post as u64);
        lemma_byte_bounds();
        lemma_read_write(n2.mem, a, n2.reg(RAX) as nat, 8);
        lemma_run_seq(p + s, t, m, mk, n3);
    } else {
        run_start(t, mk);
        assert(t =~= Seq::<Op>::empty());
        lemma_run_seq(p + s, t, m, mk, mk);
        let a = m.addr(RBX, slot_of(rn as u32));
        assert(a == cs + 8 * rn);
        assert forall|i: int| a <= i < a + 8 implies mk.mem[i] == m.mem[i] by {
            assert(in_state(m, i));
        }
        lemma_read_same(mk.mem, m.mem, a, 8);
        vstd::arithmetic::div_mod::lemma_small_mod(x as nat, pow64() as nat);
    }
}

// ---- FCMEQ, FCMGT, FCMGE (vector, register) ----

/// Whether FCMEQ (`op` 0), FCMGT (1) or FCMGE (2) holds for two lanes in
/// order `o`.
pub open spec fn arm_fp_rel(op: u8, o: FpOrder) -> bool {
    if op == 0 {
        o is Equal
    } else if op == 1 {
        o is Greater
    } else {
        o is Greater || o is Equal
    }
}

/// An all-ones lane of `es` bytes.
pub open spec fn lane_mask(es: u8) -> nat {
    if es == 8 {
        0xFFFF_FFFF_FFFF_FFFF
    } else {
        0xFFFF_FFFF
    }
}

/// The byte position of lane `j` of `es` (4 or 8) bytes.
pub open spec fn lane_pos(es: u8, j: int) -> int {
    if es == 8 {
        8 * j
    } else {
        4 * j
    }
}

/// The address of byte `off` of vector register `r`.
pub open spec fn vbyte(m: Machine, r: u8, off: int) -> int {
    m.reg(RBX) + 272 + 16 * r + off
}

/// Lane `j` of vector register `r`.
pub open spec fn vlane(m: Machine, r: u8, es: u8, j: int) -> nat {
    read_mem(m.mem, vbyte(m, r, lane_pos(es, j)), es as nat)
}

/// The compare result as a mask in RAX: `setcc al`, `movzx eax, al`,
/// `neg rax`.
pub open spec fn mask_prog(cc: u8) -> Seq<Op> {
    seq![Op::Setcc(cc, RAX), Op::MovzxR8(RAX)] + seq![Op::Neg(RAX)]
}

/// The ops of lane `i`: both lanes into XMM0 and XMM1 (through EAX for
/// singles), the compare, the mask, the store to lane `i` of `rd`.
pub open spec fn rel_lane_prog(rd: u8, rn: u8, rm: u8, es: u8, op: u8, i: int) -> Seq<Op> {
    let o = lane_off(rn, i * es);
    let p = lane_off(rm, i * es);
    let d = lane_off(rd, i * es);
    if es == 8 {
        seq![Op::MovqLoad(0, RBX, o), Op::MovqLoad(1, RBX, p)] + seq![Op::Comisd(0, 1)] + mask_prog(
            fp_rel_cc(op),
        ) + seq![Op::Store64(RBX, d, RAX)]
    } else {
        seq![Op::Load32(RAX, RBX, o), Op::MovdToXmm(0, RAX)] + seq![
            Op::Load32(RAX, RBX, p),
            Op::MovdToXmm(1, RAX),
        ] + seq![Op::Comiss(0, 1)] + mask_prog(fp_rel_cc(op)) + seq![Op::Store32(RBX, d, RAX)]
    }
}

/// The first `n` lanes.
pub open spec fn rel_prog(rd: u8, rn: u8, rm: u8, es: u8, op: u8, n: nat) -> Seq<Op>
    decreases n,
{
    if n == 0 {
        Seq::empty()
    } else {
        rel_prog(rd, rn, rm, es, op, (n - 1) as nat) + rel_lane_prog(rd, rn, rm, es, op, n - 1)
    }
}

/// The ops of one lane are what `translate` emits for it.
#[verifier::spinoff_prover]
proof fn lemma_lane_bytes(rd: u8, rn: u8, rm: u8, es: u8, op: u8, i: int)
    requires
        es == 4 || es == 8,
    ensures
        prog_bytes(rel_lane_prog(rd, rn, rm, es, op, i)) == fp_rel_lane_bytes(rd, rn, rm, es, fp_rel_cc(op), i),
{
    let o = lane_off(rn, i * es);
    let p = lane_off(rm, i * es);
    let d = lane_off(rd, i * es);
    let cc = fp_rel_cc(op);
    let mk = mask_prog(cc);
    lemma_bytes_two(Op::Setcc(cc, RAX), Op::MovzxR8(RAX));
    lemma_bytes_one(Op::Neg(RAX));
    lemma_prog_bytes_concat(seq![Op::Setcc(cc, RAX), Op::MovzxR8(RAX)], seq![Op::Neg(RAX)]);
    assert(prog_bytes(mk) =~= mask_out_bytes(cc));
    let l = rel_lane_prog(rd, rn, rm, es, op, i);
    if es == 8 {
        let a = seq![Op::MovqLoad(0, RBX, o), Op::MovqLoad(1, RBX, p)];
        let c = seq![Op::Comisd(0, 1)];
        let st = seq![Op::Store64(RBX, d, RAX)];
        lemma_bytes_two(Op::MovqLoad(0, RBX, o), Op::MovqLoad(1, RBX, p));
        lemma_bytes_one(Op::Comisd(0, 1));
        lemma_bytes_one(Op::Store64(RBX, d, RAX));
        lemma_prog_bytes_concat(a, c);
        lemma_prog_bytes_concat(a + c, mk);
        lemma_prog_bytes_concat(a + c + mk, st);
        assert(l == a + c + mk + st);
        assert(prog_bytes(l) =~= fp_rel_lane_bytes(rd, rn, rm, es, cc, i));
    } else {
        let a = seq![Op::Load32(RAX, RBX, o), Op::MovdToXmm(0, RAX)];
        let b = seq![Op::Load32(RAX, RBX, p), Op::MovdToXmm(1, RAX)];
        let c = seq![Op::Comiss(0, 1)];
        let st = seq![Op::Store32(RBX, d, RAX)];
        lemma_bytes_two(Op::Load32(RAX, RBX, o), Op::MovdToXmm(0, RAX));
        lemma_bytes_two(Op::Load32(RAX, RBX, p), Op::MovdToXmm(1, RAX));
        lemma_bytes_one(Op::Comiss(0, 1));
        lemma_bytes_one(Op::Store32(RBX, d, RAX));
        assert(prog_bytes(a) =~= s_in_bytes(0, o));
        assert(prog_bytes(b) =~= s_in_bytes(1, p));
        assert(prog_bytes(c) =~= comiss_bytes(0, 1));
        lemma_prog_bytes_concat(a, b);
        lemma_prog_bytes_concat(a + b, c);
        lemma_prog_bytes_concat(a + b + c, mk);
        lemma_prog_bytes_concat(a + b + c + mk, st);
        assert(l == a + b + c + mk + st);
        assert(prog_bytes(l) =~= fp_rel_lane_bytes(rd, rn, rm, es, cc, i));
    }
}

/// `rel_prog` is what `translate` emits.
proof fn lemma_rel_bytes(rd: u8, rn: u8, rm: u8, es: u8, op: u8, n: nat)
    requires
        es == 4 || es == 8,
    ensures
        prog_bytes(rel_prog(rd, rn, rm, es, op, n)) == fp_rel_lanes_bytes(rd, rn, rm, es, fp_rel_cc(op), n),
    decreases n,
{
    if n > 0 {
        lemma_rel_bytes(rd, rn, rm, es, op, (n - 1) as nat);
        lemma_lane_bytes(rd, rn, rm, es, op, n - 1);
        lemma_prog_bytes_concat(rel_prog(rd, rn, rm, es, op, (n - 1) as nat), rel_lane_prog(rd, rn, rm, es, op, n - 1));
    }
}

/// `setcc`, `movzx`, `neg` leave all ones in RAX when the condition holds and
/// zero otherwise.
proof fn lemma_run_mask(m: Machine, cc: u8, e: u64) -> (m1: Machine)
    requires
        m.wf(),
        m.flags == Some(e),
    ensures
        run(mask_prog(cc), m) == Some(m1),
        m1.reg(RAX) == (if x86_cond(cc, e) { 0xFFFF_FFFF_FFFF_FFFFu64 } else { 0u64 }),
        m1.regs == m.regs.update(RAX as int, m1.reg(RAX)),
        m1.mem == m.mem,
        m1.xmm == m.xmm,
        m1.fp == m.fp,
{
    let old = m.reg(RAX);
    let c: int = if x86_cond(cc, e) { 1 } else { 0 };
    vstd::arithmetic::div_mod::lemma_fundamental_div_mod(old as int, 256);
    vstd::arithmetic::div_mod::lemma_mod_bound(old as int, 256);
    let n1 = exec_setcc(m, cc, RAX, e);
    let v = old - old % 256 + c;
    assert(v == 256 * (old / 256) + c);
    vstd::arithmetic::div_mod::lemma_mod_multiples_vanish(old as int / 256, c, 256);
    vstd::arithmetic::div_mod::lemma_small_mod(c as nat, 256);
    let n2 = exec_movzx_r8(n1, RAX);
    assert(n2.reg(RAX) == c);
    let n3 = exec_neg(n2, RAX);
    lemma_sext32_value(0, 0, 1);
    lemma_run_two(Op::Setcc(cc, RAX), Op::MovzxR8(RAX), m, n1, n2);
    lemma_run_one(Op::Neg(RAX), n2, n3);
    lemma_run_seq(seq![Op::Setcc(cc, RAX), Op::MovzxR8(RAX)], seq![Op::Neg(RAX)], m, n2, n3);
    assert(n3.regs =~= m.regs.update(RAX as int, n3.reg(RAX)));
    n3
}

/// The mask a lane gets in the model: all ones when the `setcc` condition of
/// `op` holds on the compare flags of the two lanes.
pub open spec fn lane_result(m: Machine, rn: u8, rm: u8, es: u8, op: u8, j: int) -> nat {
    if x86_cond(fp_rel_cc(op), (m.fp.flags)(es, vlane(m, rn, es, j) as u64, vlane(m, rm, es, j) as u64)) {
        lane_mask(es)
    } else {
        0
    }
}

/// Lane `j` of `rd` in `mem` holds the result of the compare of lane `j`
/// of `m0`.
pub open spec fn lane_done(mem: vstd::map::Map<int, u8>, m0: Machine, rd: u8, rn: u8, rm: u8, es: u8, op: u8, j: int) -> bool {
    read_mem(mem, vbyte(m0, rd, lane_pos(es, j)), es as nat) == lane_result(m0, rn, rm, es, op, j)
}

/// The first `n` lanes compare lanes of `m0` and write lanes of `rd`,
/// touching no memory outside lanes `0..n` of `rd`.
#[verifier::rlimit(50)]
#[verifier::spinoff_prover]
proof fn lemma_run_rel(m0: Machine, rd: u8, rn: u8, rm: u8, es: u8, op: u8, n: nat) -> (mk: Machine)
    requires
        m0.wf(),
        m0.xmm.len() == 16,
        es == 4 || es == 8,
        lane_pos(es, n as int) <= 16,
        rd < 32,
        rn < 32,
        rm < 32,
        m0.reg(RBX) + 0x1000 <= pow64(),
    ensures
        run(rel_prog(rd, rn, rm, es, op, n), m0) == Some(mk),
        mk.wf(),
        mk.xmm.len() == 16,
        mk.reg(RBX) == m0.reg(RBX),
        mk.fp == m0.fp,
        forall|a: int|
            !(vbyte(m0, rd, 0) <= a < vbyte(m0, rd, lane_pos(es, n as int))) ==> mk.mem[a] == m0.mem[a],
        forall|j: int| 0 <= j < n ==> #[trigger] lane_done(mk.mem, m0, rd, rn, rm, es, op, j),
    decreases n,
{
    if n == 0 {
        run_start(rel_prog(rd, rn, rm, es, op, n), m0);
        assert(rel_prog(rd, rn, rm, es, op, n) =~= Seq::<Op>::empty());
        m0
    } else {
        let i = n - 1;
        let ms = lemma_run_rel(m0, rd, rn, rm, es, op, (n - 1) as nat);
        let cc = fp_rel_cc(op);
        let o = lane_off(rn, i * es);
        let p = lane_off(rm, i * es);
        let d = lane_off(rd, i * es);
        assert(i * es == lane_pos(es, i)) by (nonlinear_arith)
            requires
                es == 4 || es == 8,
        ;
        let ao = vbyte(m0, rn, lane_pos(es, i));
        let bo = vbyte(m0, rm, lane_pos(es, i));
        let dd = vbyte(m0, rd, lane_pos(es, i));
        assert(ms.addr(RBX, o) == ao);
        assert(ms.addr(RBX, p) == bo);
        assert(ms.addr(RBX, d) == dd);
        // the source lanes are not among the lanes written so far
        assert forall|x: int| ao <= x < ao + es implies ms.mem[x] == m0.mem[x] by {}
        assert forall|x: int| bo <= x < bo + es implies ms.mem[x] == m0.mem[x] by {}
        lemma_read_same(ms.mem, m0.mem, ao, es as nat);
        lemma_read_same(ms.mem, m0.mem, bo, es as nat);
        lemma_byte_bounds();
        lemma_read_bound(m0.mem, ao, es as nat);
        lemma_read_bound(m0.mem, bo, es as nat);
        let a = vlane(m0, rn, es, i);
        let b = vlane(m0, rm, es, i);
        let l = rel_lane_prog(rd, rn, rm, es, op, i);
        let mk = if es == 8 {
            let n1 = exec_movq_load(ms, 0, RBX, o);
            let n2 = exec_movq_load(n1, 1, RBX, p);
            let n3 = exec_comis(n2, 8, 0, 1);
            let e = (m0.fp.flags)(8, a as u64, b as u64);
            assert(n3.flags == Some(e));
            let n4 = lemma_run_mask(n3, cc, e);
            let n5 = exec_store64(n4, RBX, d, RAX);
            let x = seq![Op::MovqLoad(0, RBX, o), Op::MovqLoad(1, RBX, p)];
            lemma_run_two(Op::MovqLoad(0, RBX, o), Op::MovqLoad(1, RBX, p), ms, n1, n2);
            lemma_run_one(Op::Comisd(0, 1), n2, n3);
            lemma_run_one(Op::Store64(RBX, d, RAX), n4, n5);
            lemma_run_seq(x, seq![Op::Comisd(0, 1)], ms, n2, n3);
            lemma_run_seq(x + seq![Op::Comisd(0, 1)], mask_prog(cc), ms, n3, n4);
            lemma_run_seq(x + seq![Op::Comisd(0, 1)] + mask_prog(cc), seq![Op::Store64(RBX, d, RAX)], ms, n4, n5);
            assert(l == x + seq![Op::Comisd(0, 1)] + mask_prog(cc) + seq![Op::Store64(RBX, d, RAX)]);
            lemma_read_write(n4.mem, dd, n4.reg(RAX) as nat, 8);
            assert forall|z: int| !(vbyte(m0, rd, 0) <= z < vbyte(m0, rd, lane_pos(es, n as int))) implies n5.mem[z] == m0.mem[z] by {
                lemma_write_frame(n4.mem, dd, n4.reg(RAX) as nat, 8, z);
            }
            assert forall|j: int| 0 <= j < i implies #[trigger] lane_done(n5.mem, m0, rd, rn, rm, es, op, j) by {
                assert(lane_done(ms.mem, m0, rd, rn, rm, es, op, j));
                lemma_read_write_disjoint(n4.mem, dd, n4.reg(RAX) as nat, 8, vbyte(m0, rd, lane_pos(es, j)), 8);
            }
            n5
        } else {
            let n1 = exec_load32(ms, RAX, RBX, o);
            let n2 = exec_movd_to_xmm(n1, 0, RAX);
            let n3 = exec_load32(n2, RAX, RBX, p);
            let n4 = exec_movd_to_xmm(n3, 1, RAX);
            let n5 = exec_comis(n4, 4, 0, 1);
            vstd::arithmetic::div_mod::lemma_small_mod(a, 0x1_0000_0000);
            vstd::arithmetic::div_mod::lemma_small_mod(b, 0x1_0000_0000);
            let e = (m0.fp.flags)(4, a as u64, b as u64);
            assert(n5.flags == Some(e));
            let n6 = lemma_run_mask(n5, cc, e);
            let n7 = exec_store32(n6, RBX, d, RAX);
            let x = seq![Op::Load32(RAX, RBX, o), Op::MovdToXmm(0, RAX)];
            let y = seq![Op::Load32(RAX, RBX, p), Op::MovdToXmm(1, RAX)];
            lemma_run_two(Op::Load32(RAX, RBX, o), Op::MovdToXmm(0, RAX), ms, n1, n2);
            lemma_run_two(Op::Load32(RAX, RBX, p), Op::MovdToXmm(1, RAX), n2, n3, n4);
            lemma_run_one(Op::Comiss(0, 1), n4, n5);
            lemma_run_one(Op::Store32(RBX, d, RAX), n6, n7);
            lemma_run_seq(x, y, ms, n2, n4);
            lemma_run_seq(x + y, seq![Op::Comiss(0, 1)], ms, n4, n5);
            lemma_run_seq(x + y + seq![Op::Comiss(0, 1)], mask_prog(cc), ms, n5, n6);
            lemma_run_seq(x + y + seq![Op::Comiss(0, 1)] + mask_prog(cc), seq![Op::Store32(RBX, d, RAX)], ms, n6, n7);
            assert(l == x + y + seq![Op::Comiss(0, 1)] + mask_prog(cc) + seq![Op::Store32(RBX, d, RAX)]);
            let w = n6.reg(RAX) as nat % 0x1_0000_0000;
            assert(w == (if x86_cond(cc, e) { 0xFFFF_FFFFnat } else { 0nat }));
            lemma_read_write(n6.mem, dd, w, 4);
            assert forall|z: int| !(vbyte(m0, rd, 0) <= z < vbyte(m0, rd, lane_pos(es, n as int))) implies n7.mem[z] == m0.mem[z] by {
                lemma_write_frame(n6.mem, dd, w, 4, z);
            }
            assert forall|j: int| 0 <= j < i implies #[trigger] lane_done(n7.mem, m0, rd, rn, rm, es, op, j) by {
                assert(lane_done(ms.mem, m0, rd, rn, rm, es, op, j));
                lemma_read_write_disjoint(n6.mem, dd, w, 4, vbyte(m0, rd, lane_pos(es, j)), 4);
            }
            n7
        };
        assert(lane_done(mk.mem, m0, rd, rn, rm, es, op, i));
        lemma_run_seq(rel_prog(rd, rn, rm, es, op, (n - 1) as nat), l, m0, ms, mk);
        mk
    }
}

/// The `setcc` condition of FCMEQ, FCMGT and FCMGE on the flags of a compare
/// is the AArch64 relation, but for FCMEQ on an unordered pair, which `sete`
/// takes for equal.
proof fn lemma_rel_cond(op: u8, o: FpOrder, f: u64)
    requires
        comisd_flags(o, f),
        op == 0 ==> !(o is Unordered),
    ensures
        x86_cond(fp_rel_cc(op), f) == arm_fp_rel(op, o),
{
}

/// FCMEQ, FCMGT and FCMGE (vector, register) on lanes of 4 or 8 bytes set
/// each lane of `v[rd]` to all ones exactly when the lanes of `v[rn]` and
/// `v[rm]` are equal, the first greater, or the first greater or equal, and
/// to zero otherwise; FCMEQ on an unordered pair (a NaN) is left out, where
/// the translation answers all ones.
pub proof fn law_translate_vec_fp_compare(
    m: Machine,
    pc: u64,
    host: HostLinks,
    rd: u8,
    rn: u8,
    rm: u8,
    esize: u8,
    op: u8,
    q: bool,
)
    requires
        m.wf(),
        m.xmm.len() == 16,
        m.fp.ok(),
        esize == 4 || esize == 8,
        op <= 2,
        rd < 32,
        rn < 32,
        rm < 32,
        m.reg(RBX) + 0x1000 <= pow64(),
    ensures
        inst_bytes(pc, Inst::VecFpCompare { rd, rn, rm, esize, op, q }, host) == prog_bytes(
            rel_prog(rd, rn, rm, esize, op, lane_count(esize, q)),
        ),
        run(rel_prog(rd, rn, rm, esize, op, lane_count(esize, q)), m) matches Some(m1) && forall|j: int|
            0 <= j < lane_count(esize, q) ==> ({
                let o = (m.fp.order)(esize, vlane(m, rn, esize, j) as u64, vlane(m, rm, esize, j) as u64);
                (op != 0 || !(o is Unordered)) ==> #[trigger] vlane(m1, rd, esize, j) == (if arm_fp_rel(op, o) {
                    lane_mask(esize)
                } else {
                    0
                })
            }),
{
    let n = lane_count(esize, q);
    lemma_rel_bytes(rd, rn, rm, esize, op, n);
    assert(inst_bytes(pc, Inst::VecFpCompare { rd, rn, rm, esize, op, q }, host) == vec_fp_rel_bytes(
        rd,
        rn,
        rm,
        esize,
        op,
        q,
    ));
    assert(lane_pos(esize, n as int) <= 16);
    let m1 = lemma_run_rel(m, rd, rn, rm, esize, op, n);
    assert forall|j: int| 0 <= j < n implies ({
        let o = (m.fp.order)(esize, vlane(m, rn, esize, j) as u64, vlane(m, rm, esize, j) as u64);
        (op != 0 || !(o is Unordered)) ==> #[trigger] vlane(m1, rd, esize, j) == (if arm_fp_rel(op, o) {
            lane_mask(esize)
        } else {
            0
        })
    }) by {
        assert(lane_done(m1.mem, m, rd, rn, rm, esize, op, j));
        let a = vlane(m, rn, esize, j) as u64;
        let b = vlane(m, rm, esize, j) as u64;
        let o = (m.fp.order)(esize, a, b);
        assert(comisd_flags(o, (m.fp.flags)(esize, a, b)));
        if op != 0 || !(o is Unordered) {
            lemma_rel_cond(op, o, (m.fp.flags)(esize, a, b));
        }
        assert(vbyte(m1, rd, lane_pos(esize, j)) == vbyte(m, rd, lane_pos(esize, j)));
    }
}

} // verus!
