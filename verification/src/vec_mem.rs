//! The vector structure loads and stores: LD1/ST1 of whole registers or
//! one lane, LD1/ST1 of several consecutive registers, and LD2..LD4 /
//! ST2..ST4, which interleave the elements of two to four registers in
//! memory. The guest address is `x[rn]` (read through its slot into RDX).
use vstd::prelude::*;
use crate::fp_ops::vslot;
use crate::simd_ops::lane_off;
use crate::translate::{ldg, ldg_bytes, slot_of, stg, stg_bytes, vslot_of};
use crate::x86::{
    enc_ari_imm, enc_mov_load32, enc_mov_load64, enc_mov_ri64, enc_mov_store16, enc_mov_store32,
    enc_mov_store64, enc_mov_store8, enc_movdqu_load, enc_movdqu_store, enc_movq_load,
    enc_movq_store, enc_movzx_byte_mem, enc_movzx_word_mem, CodeBuf, RAX, RBX, RDX,
};

verus! {

/// `x[rn] += n` through RAX (the post-index of LD1/ST1 of one register).
pub open spec fn post_inc_bytes(rn: u8, n: u8) -> Seq<u8> {
    ldg_bytes(RAX, rn) + enc_ari_imm(0, RAX, n as u32) + stg_bytes(rn, RAX)
}

/// The post-index of the multi-register forms: `x[rn] += post` through its
/// slot, nothing for 0.
pub open spec fn post_bytes(rn: u8, post: u8) -> Seq<u8> {
    if post != 0 {
        enc_mov_load64(RAX, RBX, slot_of(rn as u32)) + enc_ari_imm(0, RAX, post as u32) + enc_mov_store64(
            RBX,
            slot_of(rn as u32),
            RAX,
        )
    } else {
        Seq::empty()
    }
}

#[verifier::spinoff_prover]
fn post_inc(buf: &mut CodeBuf, rn: u8, post: u8)
    ensures
        final(buf)@ == old(buf)@ + post_bytes(rn, post),
{
    let ghost start = buf@;
    if post != 0 {
        let g = (rn as i32) * 8;
        buf.mov_load64(RAX, RBX, g);
        buf.add_ri64(RAX, post as u32);
        buf.mov_store64(RBX, g, RAX);
    }
    proof {
        assert(buf@ =~= start + post_bytes(rn, post));
    }
}

/// One register's worth at `[RDX + disp]` into the slot `slot`: 16 bytes,
/// or 8 with the high half cleared.
pub open spec fn block_load_bytes(slot: i32, disp: i32, full: bool) -> Seq<u8> {
    if full {
        enc_movdqu_load(0, RDX, disp) + enc_movdqu_store(RBX, slot, 0)
    } else {
        enc_movq_load(0, RDX, disp) + enc_movq_store(RBX, slot, 0) + enc_mov_ri64(RAX, 0)
            + enc_mov_store64(RBX, (slot + 8) as i32, RAX)
    }
}

#[verifier::spinoff_prover]
fn block_load(buf: &mut CodeBuf, slot: i32, disp: i32, full: bool)
    requires
        slot <= 0x7fff_0000,
    ensures
        final(buf)@ == old(buf)@ + block_load_bytes(slot, disp, full),
{
    let ghost start = buf@;
    if full {
        buf.movdqu_load(0, RDX, disp);
        buf.movdqu_store(RBX, slot, 0);
    } else {
        buf.movq_load(0, RDX, disp);
        buf.movq_store(RBX, slot, 0);
        buf.mov_ri64(RAX, 0);
        buf.mov_store64(RBX, slot + 8, RAX);  // the high half cleared
    }
    proof {
        assert(buf@ =~= start + block_load_bytes(slot, disp, full));
    }
}

/// One register's worth from the slot `slot` to `[RDX + disp]`: 16 bytes or 8.
pub open spec fn block_store_bytes(slot: i32, disp: i32, full: bool) -> Seq<u8> {
    if full {
        enc_movdqu_load(0, RBX, slot) + enc_movdqu_store(RDX, disp, 0)
    } else {
        enc_movq_load(0, RBX, slot) + enc_movq_store(RDX, disp, 0)
    }
}

#[verifier::spinoff_prover]
fn block_store(buf: &mut CodeBuf, slot: i32, disp: i32, full: bool)
    ensures
        final(buf)@ == old(buf)@ + block_store_bytes(slot, disp, full),
{
    let ghost start = buf@;
    if full {
        buf.movdqu_load(0, RBX, slot);
        buf.movdqu_store(RDX, disp, 0);
    } else {
        buf.movq_load(0, RBX, slot);
        buf.movq_store(RDX, disp, 0);
    }
    proof {
        assert(buf@ =~= start + block_store_bytes(slot, disp, full));
    }
}

/// LD1 {Vt.T}, [Xn], #bytes: 16 bytes (or 8, the high half cleared) from
/// `x[rn]` into `rd`, then `x[rn] += bytes`.
pub open spec fn ld1v_bytes(rd: u8, rn: u8, bytes: u8) -> Seq<u8> {
    ldg_bytes(RDX, rn) + block_load_bytes(vslot_of(rd), 0, bytes == 16) + post_inc_bytes(rn, bytes)
}

#[verifier::spinoff_prover]
pub(crate) fn translate_ld1v(buf: &mut CodeBuf, rd: u8, rn: u8, bytes: u8)
    ensures
        final(buf)@ == old(buf)@ + ld1v_bytes(rd, rn, bytes),
{
    let ghost start = buf@;
    ldg(buf, RDX, rn as u32);  // the guest address
    block_load(buf, vslot(rd), 0, bytes == 16);
    ldg(buf, RAX, rn as u32);
    buf.add_ri64(RAX, bytes as u32);  // post-index
    stg(buf, rn as u32, RAX);
    proof {
        assert(buf@ =~= start + ld1v_bytes(rd, rn, bytes));
    }
}

/// ST1 {Vt.T}, [Xn], #bytes: 16 bytes (or 8) of `rd` to `x[rn]`, then
/// `x[rn] += bytes`.
pub open spec fn st1v_bytes(rd: u8, rn: u8, bytes: u8) -> Seq<u8> {
    ldg_bytes(RDX, rn) + block_store_bytes(vslot_of(rd), 0, bytes == 16) + post_inc_bytes(rn, bytes)
}

#[verifier::spinoff_prover]
pub(crate) fn translate_st1v(buf: &mut CodeBuf, rd: u8, rn: u8, bytes: u8)
    ensures
        final(buf)@ == old(buf)@ + st1v_bytes(rd, rn, bytes),
{
    let ghost start = buf@;
    ldg(buf, RDX, rn as u32);
    block_store(buf, vslot(rd), 0, bytes == 16);
    ldg(buf, RAX, rn as u32);
    buf.add_ri64(RAX, bytes as u32);
    stg(buf, rn as u32, RAX);
    proof {
        assert(buf@ =~= start + st1v_bytes(rd, rn, bytes));
    }
}

/// LD1 {Vt.T}[index], [Xn]: `esize` bytes (8, 4, 2, or 1 for any other
/// size) from `x[rn]` into lane `index` of `rd`.
pub open spec fn ld1l_bytes(rd: u8, rn: u8, esize: u8, index: u8) -> Seq<u8> {
    let off = lane_off(rd, index * esize);
    ldg_bytes(RDX, rn) + if esize == 8 {
        enc_mov_load64(RAX, RDX, 0) + enc_mov_store64(RBX, off, RAX)
    } else if esize == 4 {
        enc_mov_load32(RAX, RDX, 0) + enc_mov_store32(RBX, off, RAX)
    } else if esize == 2 {
        enc_movzx_word_mem(RAX, RDX, 0) + enc_mov_store16(RBX, off, RAX)
    } else {
        enc_movzx_byte_mem(RAX, RDX, 0) + enc_mov_store8(RBX, off, RAX)
    }
}

#[verifier::spinoff_prover]
pub(crate) fn translate_ld1l(buf: &mut CodeBuf, rd: u8, rn: u8, esize: u8, index: u8)
    ensures
        final(buf)@ == old(buf)@ + ld1l_bytes(rd, rn, esize, index),
{
    let ghost start = buf@;
    proof {
        assert(0 <= index * esize <= 255 * 255) by (nonlinear_arith)
            requires
                index <= 255,
                esize <= 255,
        ;
    }
    let off = vslot(rd) + (index as i32) * (esize as i32);
    ldg(buf, RDX, rn as u32);
    if esize == 8 {
        buf.mov_load64(RAX, RDX, 0);
        buf.mov_store64(RBX, off, RAX);
    } else if esize == 4 {
        buf.mov_load32(RAX, RDX, 0);
        buf.mov_store32(RBX, off, RAX);
    } else if esize == 2 {
        buf.movzx_word_mem(RAX, RDX, 0);
        buf.mov_store16(RBX, off, RAX);
    } else {
        buf.movzx_byte_mem(RAX, RDX, 0);
        buf.mov_store8(RBX, off, RAX);
    }
    proof {
        assert(buf@ =~= start + ld1l_bytes(rd, rn, esize, index));
    }
}

/// The slot of register `rd + k` (register numbers wrap at 256).
pub open spec fn reg_k(rd: u8, k: int) -> i32 {
    vslot_of(((rd + k) % 256) as u8)
}

/// The first `n` registers of LD1 (`ld`) or ST1 of several consecutive
/// registers: register `rd + k` to or from `[RDX + k * block]`.
pub open spec fn multi_bytes(rd: u8, full: bool, ld: bool, n: nat) -> Seq<u8>
    decreases n,
{
    if n == 0 {
        Seq::empty()
    } else {
        let k = n - 1;
        let disp = (k * if full { 16int } else { 8int }) as i32;
        multi_bytes(rd, full, ld, (n - 1) as nat) + if ld {
            block_load_bytes(reg_k(rd, k), disp, full)
        } else {
            block_store_bytes(reg_k(rd, k), disp, full)
        }
    }
}

/// LD1/ST1 {Vt, ..} of `nreg` consecutive registers of 16 (`q`) or 8
/// bytes, then the post-index.
pub open spec fn ld1n_bytes(rd: u8, rn: u8, nreg: u8, q: bool, post: u8, ld: bool) -> Seq<u8> {
    ldg_bytes(RDX, rn) + multi_bytes(rd, q, ld, nreg as nat) + post_bytes(rn, post)
}

#[verifier::spinoff_prover]
pub(crate) fn translate_ld1n(buf: &mut CodeBuf, rd: u8, rn: u8, nreg: u8, q: bool, post: u8, ld: bool)
    ensures
        final(buf)@ == old(buf)@ + ld1n_bytes(rd, rn, nreg, q, post, ld),
{
    let ghost start = buf@;
    ldg(buf, RDX, rn as u32);
    let ghost p1 = buf@;
    let block: i32 = if q { 16 } else { 8 };
    let mut k: u8 = 0;
    while k < nreg
        invariant
            k <= nreg,
            block == (if q { 16int } else { 8int }),
            buf@ == p1 + multi_bytes(rd, q, ld, k as nat),
        decreases nreg - k,
    {
        let ghost before = buf@;
        let r: u8 = ((rd as u32 + k as u32) % 256) as u8;
        let slot = vslot(r);
        let disp = (k as i32) * block;
        if ld {
            block_load(buf, slot, disp, q);
        } else {
            block_store(buf, slot, disp, q);
        }
        proof {
            assert(slot == reg_k(rd, k as int));
            assert(buf@ =~= p1 + multi_bytes(rd, q, ld, (k + 1) as nat));
        }
        k = k + 1;
    }
    post_inc(buf, rn, post);
    proof {
        assert(buf@ =~= start + ld1n_bytes(rd, rn, nreg, q, post, ld));
    }
}

/// Step `t` of LD2..LD4 (`ld`) or ST2..ST4 with `k` registers of `per`
/// bytes used (`per = (total / es) * es`): byte `b` of element `i` of
/// register `j`, at `[RDX + i*k*es + j*es + b]` in memory and at byte
/// `i*es + b` of register `rd + j`, moved through AL.
pub open spec fn struct_step_bytes(rd: u8, k: int, es: int, per: int, ld: bool, t: int) -> Seq<u8> {
    let j = t / per;
    let r = t % per;
    let i = r / es;
    let b = r % es;
    let mem = (i * k * es + j * es + b) as i32;
    let reg = (reg_k(rd, j) + r) as i32;
    if ld {
        enc_movzx_byte_mem(RAX, RDX, mem) + enc_mov_store8(RBX, reg, RAX)
    } else {
        enc_movzx_byte_mem(RAX, RBX, reg) + enc_mov_store8(RDX, mem, RAX)
    }
}

/// The first `n` steps.
pub open spec fn struct_steps_bytes(rd: u8, k: int, es: int, per: int, ld: bool, n: nat) -> Seq<u8>
    decreases n,
{
    if n == 0 {
        Seq::empty()
    } else {
        struct_steps_bytes(rd, k, es, per, ld, (n - 1) as nat) + struct_step_bytes(rd, k, es, per, ld, n - 1)
    }
}

/// LD2..LD4 / ST2..ST4 of `k` registers of 16 (`q`) or 8 bytes with
/// `esize`-byte elements: every byte of the `total / esize` elements of each
/// register in turn, then the post-index.
pub open spec fn struct_bytes(rd: u8, rn: u8, k: u8, q: bool, post: u8, esize: u8, ld: bool) -> Seq<u8> {
    let total: int = if q { 16 } else { 8 };
    let per = (total / esize as int) * esize;
    ldg_bytes(RDX, rn) + struct_steps_bytes(rd, k as int, esize as int, per, ld, (k * per) as nat)
        + post_bytes(rn, post)
}

#[verifier::spinoff_prover]
fn struct_step(buf: &mut CodeBuf, rd: u8, k: u32, es: u32, per: u32, ld: bool, t: u32)
    requires
        2 <= k <= 4,
        1 <= es <= 255,
        1 <= per <= 16,
        t < k * per,
    ensures
        final(buf)@ == old(buf)@ + struct_step_bytes(rd, k as int, es as int, per as int, ld, t as int),
{
    let ghost start = buf@;
    let j = t / per;
    let r = t % per;
    let i = r / es;
    let b = r % es;
    proof {
        assert(j < 4) by (nonlinear_arith)
            requires
                t < k * per,
                k <= 4,
                per >= 1,
                j == t / per,
        ;
        assert(r < per);
        assert(i <= r && i * es <= r) by (nonlinear_arith)
            requires
                es >= 1,
                i == r / es,
                r >= 0,
        ;
        assert(i * k <= 64 && i * k * es <= 64) by (nonlinear_arith)
            requires
                i * es <= 16,
                i <= 16,
                k <= 4,
                es >= 1,
        ;
        assert(j * es <= 3 * 255) by (nonlinear_arith)
            requires
                j < 4,
                es <= 255,
        ;
    }
    let mem: i32 = (i * k * es + j * es + b) as i32;
    let reg_n: u8 = ((rd as u32 + j) % 256) as u8;
    let reg: i32 = vslot(reg_n) + r as i32;
    if ld {
        buf.movzx_byte_mem(RAX, RDX, mem);
        buf.mov_store8(RBX, reg, RAX);
    } else {
        buf.movzx_byte_mem(RAX, RBX, reg);
        buf.mov_store8(RDX, mem, RAX);
    }
    proof {
        assert(buf@ =~= start + struct_step_bytes(rd, k as int, es as int, per as int, ld, t as int));
    }
}

#[verifier::spinoff_prover]
pub(crate) fn translate_struct(buf: &mut CodeBuf, rd: u8, rn: u8, k: u8, q: bool, post: u8, esize: u8, ld: bool)
    requires
        2 <= k <= 4,
        esize != 0,
    ensures
        final(buf)@ == old(buf)@ + struct_bytes(rd, rn, k, q, post, esize, ld),
{
    let ghost start = buf@;
    ldg(buf, RDX, rn as u32);
    let ghost p1 = buf@;
    let total: u32 = if q { 16 } else { 8 };
    let es = esize as u32;
    let nel = total / es;
    proof {
        assert(nel * es <= total) by (nonlinear_arith)
            requires
                es >= 1,
                nel == total / es,
        ;
    }
    let per = nel * es;
    proof {
        assert(k * per <= 64) by (nonlinear_arith)
            requires
                k <= 4,
                per <= 16,
        ;
    }
    let n = (k as u32) * per;
    if per == 0 {
        proof {
            assert(struct_steps_bytes(rd, k as int, es as int, per as int, ld, 0) =~= Seq::<u8>::empty());
        }
    } else {
        let mut t: u32 = 0;
        while t < n
            invariant
                t <= n,
                n == k * per,
                2 <= k <= 4,
                1 <= es,
                es == esize,
                1 <= per <= 16,
                buf@ == p1 + struct_steps_bytes(rd, k as int, es as int, per as int, ld, t as nat),
            decreases n - t,
        {
            let ghost before = buf@;
            struct_step(buf, rd, k as u32, es, per, ld, t);
            proof {
                assert(buf@ =~= p1 + struct_steps_bytes(rd, k as int, es as int, per as int, ld, (t + 1) as nat));
            }
            t = t + 1;
        }
    }
    post_inc(buf, rn, post);
    proof {
        assert(buf@ =~= start + struct_bytes(rd, rn, k, q, post, esize, ld));
    }
}

} // verus!
