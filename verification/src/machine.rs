//! A model of the x86-64 instructions that the translator's fixed sequences
//! use, precise enough to state what those sequences compute.
//!
//! The model tracks the sixteen general registers, RFLAGS (as `None` once an
//! instruction leaves the status flags unspecified; a subtraction sets CF,
//! ZF, SF and OF), a stack of pushed
//! quadwords kept apart from data memory, and byte-addressed data memory.
//! Each `Op` has the byte encoding that the emitter of `crate::x86` writes for
//! it, so a sequence of ops stands for the bytes `prog_bytes` of it.
use vstd::prelude::*;
use crate::x86::{
    enc_ari_imm, enc_binop, enc_binop32, enc_movdqu_load, enc_movdqu_store, enc_movq_load,
    enc_movq_store, enc_sse_rr, enc_sse_rex_rr, enc_setcc_rm8, enc_movzx_r32_r8, rex_byte,
    enc_mov_load32, enc_mov_load64, enc_mov_ri32, enc_mov_ri64,
    enc_mov_rr64, enc_mov_store16, enc_mov_store32, enc_mov_store64, enc_mov_store8,
    enc_lea64, enc_movzx_byte_mem, enc_movzx_word_mem, enc_pop, enc_push, enc_shift_ri8,
    enc_shift32_ri8, enc_cmov_rr64, enc_grp3, enc_shift_cl, enc_zero_ext_r32, enc_bswap, mem_base_ok, modrm_byte, rex_w, RAX,
    RCX, RDX,
};

verus! {

/// The register-register / register-immediate ALU operations of the model.
#[derive(Clone, Copy, PartialEq, Eq)]
pub enum AluOp {
    Add,
    Or,
    And,
    Sub,
    Xor,
}

/// The shift-by-immediate operations of the model.
#[derive(Clone, Copy, PartialEq, Eq)]
pub enum ShiftOp {
    Shl,
    Shr,
    Sar,
    Ror,
}

/// One modelled x86-64 instruction.
pub enum Op {
    /// `push r64`
    Push(u8),
    /// `pop r64`
    Pop(u8),
    /// `pushfq`
    Pushfq,
    /// `popfq`
    Popfq,
    /// `mov rd, rs` (64-bit)
    MovRR(u8, u8),
    /// `mov rd, imm64`
    MovImm64(u8, u64),
    /// `mov rd, imm32` sign-extended
    MovImm32(u8, u32),
    /// `op rd, rs` (64-bit)
    AluRR(AluOp, u8, u8),
    /// `op rd, imm32` sign-extended (64-bit)
    AluRI(AluOp, u8, u32),
    /// `shift rd, imm8` (64-bit)
    ShiftRI(ShiftOp, u8, u8),
    /// `movsxd rd, rs32`
    Movsxd(u8, u8),
    /// `mov rd, qword [base + disp]`
    Load64(u8, u8, i32),
    /// `mov qword [base + disp], src`
    Store64(u8, i32, u8),
    /// `mov rd32, dword [base + disp]` (zero-extending)
    Load32(u8, u8, i32),
    /// `mov dword [base + disp], src32`
    Store32(u8, i32, u8),
    /// `movzx rd32, word [base + disp]`
    Load16(u8, u8, i32),
    /// `ror rd32, imm8` (the result zero-extended to 64 bits)
    Ror32(u8, u8),
    /// `mov word [base + disp], src16`
    Store16(u8, i32, u8),
    /// `movzx rd32, byte [base + disp]`
    Load8(u8, u8, i32),
    /// `mov byte [base + disp], src8`
    Store8(u8, i32, u8),
    /// `lea rd, [base + disp]`
    Lea(u8, u8, i32),
    /// `cmc`: complement the carry flag
    Cmc,
    /// `cmovcc rd, rs` (64-bit), by the second opcode byte `0x40 + t`
    Cmov(u8, u8, u8),
    /// `not r64`
    Not(u8),
    /// `neg r64`
    Neg(u8),
    /// `shift rd, cl` (64-bit)
    ShiftCl(ShiftOp, u8),
    /// `imul rd, rs` (64-bit, the low half of the product)
    Imul(u8, u8),
    /// one-operand `mul rs` (`false`) or `imul rs` (`true`): RDX:RAX = RAX * rs
    MulWide(bool, u8),
    /// `div rs` (64-bit, unsigned): RAX, RDX = RDX:RAX / rs, RDX:RAX % rs
    Div(u8),
    /// `test rd, rs` (64-bit): the flags of `rd & rs`
    Test(u8, u8),
    /// `adc rd, rs` (64-bit): `rd + rs + CF`
    Adc(u8, u8),
    /// `sbb rd, rs` (64-bit): `rd - rs - CF`
    Sbb(u8, u8),
    /// `mov r32, r32`: the low half of `r` zero-extended
    Zext32(u8),
    /// `bswap r64`: the bytes of `r` in reverse order
    Bswap(u8),
    /// `lzcnt rax, rax`: the number of leading zero bits of RAX
    LzcntRax,
    /// `op rd32, rs32`: the 32-bit operation, zero-extended into `rd`
    AluRR32(AluOp, u8, u8),
    /// `movdqu xmm, [base + disp]`
    MovdquLoad(u8, u8, i32),
    /// `movdqu [base + disp], xmm`
    MovdquStore(u8, i32, u8),
    /// `movq xmm, [base + disp]` (the high quadword cleared)
    MovqLoad(u8, u8, i32),
    /// `movq [base + disp], xmm`
    MovqStore(u8, i32, u8),
    /// `pand`/`pxor`/`por`/`pandn dst, src` (`op` 0..3)
    SseLogic(u8, u8, u8),
    /// `addsd`/`subsd`/`mulsd`/`divsd dst, src`
    SseArithSd(FpArith, u8, u8),
    /// `comisd a, b`
    Comisd(u8, u8),
    /// `comiss a, b`
    Comiss(u8, u8),
    /// `movd xmm, r32` (the rest of the register cleared)
    MovdToXmm(u8, u8),
    /// `setcc r8` on the low nibble `cc` of the condition code
    Setcc(u8, u8),
    /// `movzx r32, r8` of a register into itself
    MovzxR8(u8),
}

/// Opcode of the register-register form (`op r/m64, r64`).
pub open spec fn alu_rr_opcode(op: AluOp) -> u8 {
    match op {
        AluOp::Add => 0x01,
        AluOp::Or => 0x09,
        AluOp::And => 0x21,
        AluOp::Sub => 0x29,
        AluOp::Xor => 0x31,
    }
}

/// ModRM.reg extension of the immediate form (`81 /ext`).
pub open spec fn alu_ext(op: AluOp) -> u8 {
    match op {
        AluOp::Add => 0,
        AluOp::Or => 1,
        AluOp::And => 4,
        AluOp::Sub => 5,
        AluOp::Xor => 6,
    }
}

/// ModRM.reg extension of the shift (`C1 /ext ib`).
pub open spec fn shift_ext(op: ShiftOp) -> u8 {
    match op {
        ShiftOp::Shl => 4,
        ShiftOp::Shr => 5,
        ShiftOp::Sar => 7,
        ShiftOp::Ror => 1,
    }
}

/// The bytes the emitter writes for `op`.
pub open spec fn op_bytes(op: Op) -> Seq<u8> {
    match op {
        Op::Push(r) => enc_push(r),
        Op::Pop(r) => enc_pop(r),
        Op::Pushfq => seq![0x9Cu8],
        Op::Popfq => seq![0x9Du8],
        Op::MovRR(rd, rs) => enc_mov_rr64(rd, rs),
        Op::MovImm64(rd, imm) => enc_mov_ri64(rd, imm),
        Op::MovImm32(rd, imm) => enc_mov_ri32(rd, imm),
        Op::AluRR(op, rd, rs) => enc_binop(alu_rr_opcode(op), rd, rs),
        Op::AluRI(op, rd, imm) => enc_ari_imm(alu_ext(op), rd, imm),
        Op::ShiftRI(op, rd, imm) => enc_shift_ri8(shift_ext(op), rd, imm),
        Op::Movsxd(rd, rs) => seq![rex_w(rd, rs), 0x63u8, modrm_byte(3, rd & 7, rs & 7)],
        Op::Load64(rd, base, disp) => enc_mov_load64(rd, base, disp),
        Op::Store64(base, disp, src) => enc_mov_store64(base, disp, src),
        Op::Load32(rd, base, disp) => enc_mov_load32(rd, base, disp),
        Op::Store32(base, disp, src) => enc_mov_store32(base, disp, src),
        Op::Load16(rd, base, disp) => enc_movzx_word_mem(rd, base, disp),
        Op::Ror32(rd, imm) => enc_shift32_ri8(1, rd, imm),
        Op::Store16(base, disp, src) => enc_mov_store16(base, disp, src),
        Op::Load8(rd, base, disp) => enc_movzx_byte_mem(rd, base, disp),
        Op::Store8(base, disp, src) => enc_mov_store8(base, disp, src),
        Op::Lea(rd, base, disp) => enc_lea64(rd, base, disp),
        Op::Cmc => seq![0xF5u8],
        Op::Cmov(cc, rd, rs) => enc_cmov_rr64(cc, rd, rs),
        Op::Not(r) => enc_grp3(2, r),
        Op::Neg(r) => enc_grp3(3, r),
        Op::ShiftCl(op, rd) => enc_shift_cl(shift_ext(op), rd),
        Op::Imul(rd, rs) => seq![rex_w(rd, rs), 0x0Fu8, 0xAFu8, modrm_byte(3, rd & 7, rs & 7)],
        Op::MulWide(signed, rs) => enc_grp3(if signed { 5 } else { 4 }, rs),
        Op::Div(rs) => enc_grp3(6, rs),
        Op::Test(rd, rs) => enc_binop(0x85, rd, rs),
        Op::Adc(rd, rs) => enc_binop(0x11, rd, rs),
        Op::Sbb(rd, rs) => enc_binop(0x19, rd, rs),
        Op::Zext32(r) => enc_zero_ext_r32(r),
        Op::Bswap(r) => enc_bswap(true, r),
        Op::LzcntRax => seq![0xF3u8, 0x48u8, 0x0Fu8, 0xBDu8, 0xC0u8],
        Op::AluRR32(op, rd, rs) => enc_binop32(alu_rr_opcode(op), rd, rs),
        Op::MovdquLoad(x, base, disp) => enc_movdqu_load(x, base, disp),
        Op::MovdquStore(base, disp, x) => enc_movdqu_store(base, disp, x),
        Op::MovqLoad(x, base, disp) => enc_movq_load(x, base, disp),
        Op::MovqStore(base, disp, x) => enc_movq_store(base, disp, x),
        Op::SseLogic(op, d, s) => enc_sse_rr(0x66, sse_logic_opcode(op), d, s),
        Op::SseArithSd(k, d, s) => enc_sse_rr(0xF2, sd_opcode(k), d, s),
        Op::Comisd(a, b) => enc_sse_rex_rr(0x66, 0x2F, a, b),
        Op::Comiss(a, b) => seq![rex_byte(false, a, 0, b), 0x0Fu8, 0x2Fu8, modrm_byte(3, a & 7, b & 7)],
        Op::MovdToXmm(x, r) => enc_sse_rr(0x66, 0x6E, x, r),
        Op::Setcc(cc, r) => enc_setcc_rm8(cc, r),
        Op::MovzxR8(r) => enc_movzx_r32_r8(r, r),
    }
}

/// The bytes of a sequence of ops, in order.
pub open spec fn prog_bytes(p: Seq<Op>) -> Seq<u8>
    decreases p.len(),
{
    if p.len() == 0 {
        Seq::empty()
    } else {
        prog_bytes(p.drop_last()) + op_bytes(p.last())
    }
}

/// Bookkeeping for an emitting function that follows the program `prog`:
/// having emitted the bytes of its first `k` ops after `start`, and then
/// those of op `k`, it has emitted the bytes of its first `k + 1` ops.
pub proof fn emitted_nth(start: Seq<u8>, prog: Seq<Op>, k: int, after: Seq<u8>)
    requires
        0 <= k < prog.len(),
        after =~= start + prog_bytes(prog.take(k)) + op_bytes(prog[k]),
    ensures
        after == start + prog_bytes(prog.take(k + 1)),
{
    assert(prog.take(k + 1).drop_last() =~= prog.take(k));
    assert(after =~= start + prog_bytes(prog.take(k + 1)));
}

/// A program's first `len` ops are the program.
pub proof fn lemma_take_all(prog: Seq<Op>)
    ensures
        prog.take(prog.len() as int) == prog,
{
    assert(prog.take(prog.len() as int) =~= prog);
}

/// Machine state.
pub struct Machine {
    /// RAX..R15, indexed by register number.
    pub regs: Seq<u64>,
    /// RFLAGS; `None` after an instruction that leaves the flags unspecified.
    pub flags: Option<u64>,
    /// The quadwords pushed and not yet popped, the top last.
    pub stack: Seq<u64>,
    /// Data memory, one byte per address.
    pub mem: Map<int, u8>,
    /// XMM0..XMM15 as (low, high) quadwords.
    pub xmm: Seq<(u64, u64)>,
    /// What the floating-point instructions compute; the model leaves IEEE
    /// arithmetic and ordering unspecified and names them here.
    pub fp: FpUnit,
}

/// The outcome of a floating-point compare.
pub enum FpOrder {
    Less,
    Equal,
    Greater,
    Unordered,
}

/// The IEEE operations of `addsd`, `subsd`, `mulsd`, `divsd` (and of FADD,
/// FSUB, FMUL, FDIV on doubles).
pub enum FpArith {
    Add,
    Sub,
    Mul,
    Div,
}

/// The floating-point functions the model uses, left unspecified: the order
/// of two values of `es` bytes (4: single, 8: double) given by their bits,
/// the RFLAGS `comiss`/`comisd` leaves for them, and the IEEE double result
/// of an arithmetic operation.
pub struct FpUnit {
    pub order: spec_fn(u8, u64, u64) -> FpOrder,
    pub flags: spec_fn(u8, u64, u64) -> u64,
    pub arith: spec_fn(FpArith, u64, u64) -> u64,
}

/// The flags `comisd a, b` sets for each outcome: CF/ZF/PF = 1/0/0 for less,
/// 0/1/0 for equal, 0/0/0 for greater, 1/1/1 for unordered.
pub open spec fn comisd_flags(o: FpOrder, f: u64) -> bool {
    match o {
        FpOrder::Less => cf(f) && !zf(f) && !pf(f),
        FpOrder::Equal => !cf(f) && zf(f) && !pf(f),
        FpOrder::Greater => !cf(f) && !zf(f) && !pf(f),
        FpOrder::Unordered => cf(f) && zf(f) && pf(f),
    }
}

impl FpUnit {
    /// The compare flags encode the order, as `comiss`/`comisd` define them.
    pub open spec fn ok(self) -> bool {
        forall|es: u8, a: u64, b: u64| #[trigger] comisd_flags((self.order)(es, a, b), (self.flags)(es, a, b))
    }
}

/// The bitwise operations of `pand` (0), `pxor` (1), `por` (2), `pandn` (3).
pub open spec fn sse_logic_opcode(op: u8) -> u8 {
    if op == 0 {
        0xDB
    } else if op == 1 {
        0xEF
    } else if op == 2 {
        0xEB
    } else {
        0xDF
    }
}

/// One quadword of a bitwise SSE operation on `d` (destination) and `s`.
pub open spec fn sse_logic(op: u8, d: u64, s: u64) -> u64 {
    if op == 0 {
        d & s
    } else if op == 1 {
        d ^ s
    } else if op == 2 {
        d | s
    } else {
        !d & s
    }
}

/// The second opcode byte of `addsd`, `subsd`, `mulsd`, `divsd`.
pub open spec fn sd_opcode(k: FpArith) -> u8 {
    match k {
        FpArith::Add => 0x58,
        FpArith::Sub => 0x5C,
        FpArith::Mul => 0x59,
        FpArith::Div => 0x5E,
    }
}

impl Machine {
    /// Sixteen registers.
    pub open spec fn wf(self) -> bool {
        self.regs.len() == 16
    }

    /// The value of register `r`.
    pub open spec fn reg(self, r: u8) -> u64 {
        self.regs[r as int]
    }

    /// This state with register `r` set to `v`.
    pub open spec fn set_reg(self, r: u8, v: u64) -> Machine {
        Machine { regs: self.regs.update(r as int, v), ..self }
    }

    /// The address `[base + disp]`, wrapping modulo 2^64.
    pub open spec fn addr(self, base: u8, disp: i32) -> int {
        (self.reg(base) + disp) % 0x1_0000_0000_0000_0000
    }
}

/// A register number the model accepts.
pub open spec fn reg_ok(r: u8) -> bool {
    r < 16
}

/// The little-endian value of the `n` bytes at `a`.
pub open spec fn read_mem(mem: Map<int, u8>, a: int, n: nat) -> nat
    decreases n,
{
    if n == 0 {
        0
    } else {
        (mem[a] + 256 * read_mem(mem, a + 1, (n - 1) as nat)) as nat
    }
}

/// `mem` with the low `n` bytes of `v` written little-endian at `a`.
pub open spec fn write_mem(mem: Map<int, u8>, a: int, v: nat, n: nat) -> Map<int, u8>
    decreases n,
{
    if n == 0 {
        mem
    } else {
        write_mem(mem.insert(a, (v % 256) as u8), a + 1, v / 256, (n - 1) as nat)
    }
}

/// A 32-bit immediate sign-extended to 64 bits.
pub open spec fn sext32(v: u32) -> u64 {
    v as i32 as i64 as u64
}

/// The result of an ALU operation on 64-bit operands.
pub open spec fn alu(op: AluOp, a: u64, b: u64) -> u64 {
    match op {
        AluOp::Add => ((a + b) % 0x1_0000_0000_0000_0000) as u64,
        AluOp::Or => a | b,
        AluOp::And => a & b,
        AluOp::Sub => ((a - b) % 0x1_0000_0000_0000_0000) as u64,
        AluOp::Xor => a ^ b,
    }
}

/// Whether the signed 64-bit subtraction `a - b` overflows.
pub open spec fn sub_overflows(a: u64, b: u64) -> bool {
    let d = (a as i64) as int - (b as i64) as int;
    d < i64::MIN || d > i64::MAX
}

/// The status flags of the 64-bit subtraction `a - b` in their RFLAGS bits:
/// CF (bit 0) the borrow, ZF (6) a zero result, SF (7) its bit 63, OF (11)
/// signed overflow. The model keeps no other status bit.
pub open spec fn sub_flags(a: u64, b: u64) -> u64 {
    let r = alu(AluOp::Sub, a, b);
    (if a < b {
        1u64
    } else {
        0u64
    }) | (if r == 0 {
        0x40u64
    } else {
        0u64
    }) | (if r >> 63u64 == 1 {
        0x80u64
    } else {
        0u64
    }) | (if sub_overflows(a, b) {
        0x800u64
    } else {
        0u64
    })
}

/// Bit `bit` of `f`.
pub open spec fn flag(f: u64, bit: u64) -> bool {
    (f >> bit) & 1 == 1
}

/// The carry flag (RFLAGS bit 0).
pub open spec fn cf(f: u64) -> bool {
    flag(f, 0)
}

/// The parity flag (RFLAGS bit 2); set by `comisd` for an unordered result.
pub open spec fn pf(f: u64) -> bool {
    flag(f, 2)
}

/// The zero flag (RFLAGS bit 6).
pub open spec fn zf(f: u64) -> bool {
    flag(f, 6)
}

/// The sign flag (RFLAGS bit 7).
pub open spec fn sf(f: u64) -> bool {
    flag(f, 7)
}

/// The overflow flag (RFLAGS bit 11).
pub open spec fn of(f: u64) -> bool {
    flag(f, 11)
}

/// Whether the x86 condition of the `jcc` second opcode byte `cc`
/// (0F 80+t; `cmovcc` and `setcc` use the same low nibble t) holds for
/// RFLAGS `e`.
pub open spec fn x86_cond(cc: u8, e: u64) -> bool {
    let t = cc % 16;
    if t == 0 {
        of(e)
    } else if t == 1 {
        !of(e)
    } else if t == 2 {
        cf(e)
    } else if t == 3 {
        !cf(e)
    } else if t == 4 {
        zf(e)
    } else if t == 5 {
        !zf(e)
    } else if t == 6 {
        cf(e) || zf(e)
    } else if t == 7 {
        !cf(e) && !zf(e)
    } else if t == 8 {
        sf(e)
    } else if t == 9 {
        !sf(e)
    } else if t == 10 {
        pf(e)
    } else if t == 11 {
        !pf(e)
    } else if t == 12 {
        sf(e) != of(e)
    } else if t == 13 {
        sf(e) == of(e)
    } else if t == 14 {
        zf(e) || sf(e) != of(e)
    } else {
        !zf(e) && sf(e) == of(e)
    }
}

/// RFLAGS after `cmc`: CF complemented, unknown flags stay unknown.
pub open spec fn cmc_flags(flags: Option<u64>) -> Option<u64> {
    match flags {
        Some(f) => Some(f ^ 1),
        None => None,
    }
}

/// Whether the signed 64-bit sum `a + b` overflows.
pub open spec fn add_overflows(a: u64, b: u64) -> bool {
    let d = (a as i64) as int + (b as i64) as int;
    d < i64::MIN || d > i64::MAX
}

/// The status flags of the 64-bit addition `a + b` in their RFLAGS bits: CF
/// the carry out, ZF a zero result, SF its bit 63, OF signed overflow.
pub open spec fn add_flags(a: u64, b: u64) -> u64 {
    let r = alu(AluOp::Add, a, b);
    (if a + b > u64::MAX {
        1u64
    } else {
        0u64
    }) | (if r == 0 {
        0x40u64
    } else {
        0u64
    }) | (if r >> 63u64 == 1 {
        0x80u64
    } else {
        0u64
    }) | (if add_overflows(a, b) {
        0x800u64
    } else {
        0u64
    })
}

/// RFLAGS after a 64-bit ALU operation: those of an addition or a
/// subtraction; the model leaves them unspecified after the others.
pub open spec fn alu_flags(op: AluOp, a: u64, b: u64) -> Option<u64> {
    match op {
        AluOp::Add => Some(add_flags(a, b)),
        AluOp::Sub => Some(sub_flags(a, b)),
        _ => None,
    }
}

/// The result of a 64-bit shift by an immediate; x86 uses the count modulo 64.
pub open spec fn shift(op: ShiftOp, v: u64, imm: u8) -> u64 {
    let c = (imm % 64) as u64;
    match op {
        ShiftOp::Shl => v << c,
        ShiftOp::Shr => v >> c,
        ShiftOp::Sar => ((v as i64) >> c) as u64,
        ShiftOp::Ror => if c == 0 {
            v
        } else {
            (v >> c) | (v << (64 - c) as u64)
        },
    }
}

/// A 32-bit rotate right; x86 uses the count modulo 32.
pub open spec fn ror32(v: u32, imm: u8) -> u32 {
    let c = (imm % 32) as u32;
    if c == 0 {
        v
    } else {
        (v >> c) | (v << (32 - c) as u32)
    }
}

/// The status flags of a logical result `r` (`test`, `and`): ZF a zero
/// result, SF its bit 63, CF and OF clear.
pub open spec fn logic_flags(r: u64) -> u64 {
    (if r == 0 {
        0x40u64
    } else {
        0u64
    }) | (if r >> 63u64 == 1 {
        0x80u64
    } else {
        0u64
    })
}

/// The result of `adc` (`sub` false: `a + b + c`) or `sbb` (`a - b - c`)
/// modulo 2^64, `c` the carry flag. The model leaves their flags unspecified.
pub open spec fn adc_value(sub: bool, a: u64, b: u64, c: bool) -> u64 {
    let ci: int = if c {
        1
    } else {
        0
    };
    (if sub {
        (a - b - ci) % pow64()
    } else {
        (a + b + ci) % pow64()
    }) as u64
}

/// The bytes of `v` in reverse order.
pub open spec fn byte_reverse(v: u64) -> u64 {
    ((v & 0xff) << 56u64) | (((v >> 8u64) & 0xff) << 48u64) | (((v >> 16u64) & 0xff) << 40u64) | (((
    v >> 24u64) & 0xff) << 32u64) | (((v >> 32u64) & 0xff) << 24u64) | (((v >> 40u64) & 0xff)
        << 16u64) | (((v >> 48u64) & 0xff) << 8u64) | ((v >> 56u64) & 0xff)
}

/// The number of bits of `v` up to its highest set bit (0 for 0).
pub open spec fn bit_length(v: nat) -> nat
    decreases v,
{
    if v == 0 {
        0
    } else {
        1 + bit_length(v / 2)
    }
}

/// 2^64.
pub open spec fn pow64() -> int {
    0x1_0000_0000_0000_0000
}

/// The full product of one-operand `mul` (`signed` false) or `imul` (true)
/// of `a` and `b`: unsigned, or both read as two's complement.
pub open spec fn wide_product(signed: bool, a: u64, b: u64) -> int {
    if signed {
        (a as i64) as int * (b as i64) as int
    } else {
        a as int * b as int
    }
}

/// The state after executing `op`, or `None` when the model does not cover
/// it (a register outside `0..16`, a base that needs a SIB byte, a pop from an
/// empty stack, a `pushfq` while the flags are unspecified, or a `div` that
/// faults: a zero divisor or a quotient that does not fit in 64 bits).
#[verifier::opaque]
pub open spec fn step(op: Op, m: Machine) -> Option<Machine> {
    match op {
        Op::Push(r) => if reg_ok(r) {
            Some(Machine { stack: m.stack.push(m.reg(r)), ..m })
        } else {
            None
        },
        Op::Pop(r) => if reg_ok(r) && m.stack.len() > 0 {
            Some(Machine { stack: m.stack.drop_last(), ..m.set_reg(r, m.stack.last()) })
        } else {
            None
        },
        Op::Pushfq => match m.flags {
            Some(f) => Some(Machine { stack: m.stack.push(f), ..m }),
            None => None,
        },
        Op::Popfq => if m.stack.len() > 0 {
            Some(Machine { flags: Some(m.stack.last()), stack: m.stack.drop_last(), ..m })
        } else {
            None
        },
        Op::MovRR(rd, rs) => if reg_ok(rd) && reg_ok(rs) {
            Some(m.set_reg(rd, m.reg(rs)))
        } else {
            None
        },
        Op::MovImm64(rd, imm) => if reg_ok(rd) {
            Some(m.set_reg(rd, imm))
        } else {
            None
        },
        Op::MovImm32(rd, imm) => if reg_ok(rd) {
            Some(m.set_reg(rd, sext32(imm)))
        } else {
            None
        },
        Op::AluRR(op, rd, rs) => if reg_ok(rd) && reg_ok(rs) {
            Some(
                Machine {
                    flags: alu_flags(op, m.reg(rd), m.reg(rs)),
                    ..m.set_reg(rd, alu(op, m.reg(rd), m.reg(rs)))
                },
            )
        } else {
            None
        },
        Op::AluRI(op, rd, imm) => if reg_ok(rd) {
            Some(
                Machine {
                    flags: alu_flags(op, m.reg(rd), sext32(imm)),
                    ..m.set_reg(rd, alu(op, m.reg(rd), sext32(imm)))
                },
            )
        } else {
            None
        },
        Op::ShiftRI(op, rd, imm) => if reg_ok(rd) {
            Some(Machine { flags: None, ..m.set_reg(rd, shift(op, m.reg(rd), imm)) })
        } else {
            None
        },
        Op::Movsxd(rd, rs) => if reg_ok(rd) && reg_ok(rs) {
            Some(m.set_reg(rd, sext32(m.reg(rs) as u32)))
        } else {
            None
        },
        Op::Load64(rd, base, disp) => if reg_ok(rd) && reg_ok(base) && mem_base_ok(base) {
            Some(m.set_reg(rd, read_mem(m.mem, m.addr(base, disp), 8) as u64))
        } else {
            None
        },
        Op::Store64(base, disp, src) => if reg_ok(src) && reg_ok(base) && mem_base_ok(base) {
            Some(Machine { mem: write_mem(m.mem, m.addr(base, disp), m.reg(src) as nat, 8), ..m })
        } else {
            None
        },
        Op::Load32(rd, base, disp) => if reg_ok(rd) && reg_ok(base) && mem_base_ok(base) {
            Some(m.set_reg(rd, read_mem(m.mem, m.addr(base, disp), 4) as u64))
        } else {
            None
        },
        Op::Store32(base, disp, src) => if reg_ok(src) && reg_ok(base) && mem_base_ok(base) {
            Some(
                Machine {
                    mem: write_mem(m.mem, m.addr(base, disp), m.reg(src) as nat % 0x1_0000_0000, 4),
                    ..m
                },
            )
        } else {
            None
        },
        Op::Ror32(rd, imm) => if reg_ok(rd) {
            Some(Machine { flags: None, ..m.set_reg(rd, ror32(m.reg(rd) as u32, imm) as u64) })
        } else {
            None
        },
        Op::Load16(rd, base, disp) => if reg_ok(rd) && reg_ok(base) && mem_base_ok(base) {
            Some(m.set_reg(rd, read_mem(m.mem, m.addr(base, disp), 2) as u64))
        } else {
            None
        },
        Op::Store16(base, disp, src) => if reg_ok(src) && reg_ok(base) && mem_base_ok(base) {
            Some(Machine { mem: write_mem(m.mem, m.addr(base, disp), m.reg(src) as nat % 0x1_0000, 2), ..m })
        } else {
            None
        },
        Op::Load8(rd, base, disp) => if reg_ok(rd) && reg_ok(base) && mem_base_ok(base) {
            Some(m.set_reg(rd, read_mem(m.mem, m.addr(base, disp), 1) as u64))
        } else {
            None
        },
        Op::Store8(base, disp, src) => if reg_ok(src) && reg_ok(base) && mem_base_ok(base) {
            Some(Machine { mem: write_mem(m.mem, m.addr(base, disp), m.reg(src) as nat % 0x100, 1), ..m })
        } else {
            None
        },
        Op::Lea(rd, base, disp) => if reg_ok(rd) && reg_ok(base) && mem_base_ok(base) {
            Some(m.set_reg(rd, m.addr(base, disp) as u64))
        } else {
            None
        },
        Op::Cmc => Some(Machine { flags: cmc_flags(m.flags), ..m }),
        Op::Cmov(cc, rd, rs) => if reg_ok(rd) && reg_ok(rs) {
            match m.flags {
                Some(e) => if x86_cond(cc, e) {
                    Some(m.set_reg(rd, m.reg(rs)))
                } else {
                    Some(m)
                },
                None => None,
            }
        } else {
            None
        },
        Op::Not(r) => if reg_ok(r) {
            Some(m.set_reg(r, !m.reg(r)))
        } else {
            None
        },
        Op::Neg(r) => if reg_ok(r) {
            Some(Machine { flags: None, ..m.set_reg(r, (0u64 as int - m.reg(r) as int) as u64) })
        } else {
            None
        },
        Op::ShiftCl(op, rd) => if reg_ok(rd) {
            Some(Machine { flags: None, ..m.set_reg(rd, shift(op, m.reg(rd), (m.reg(RCX) % 64) as u8)) })
        } else {
            None
        },
        Op::Imul(rd, rs) => if reg_ok(rd) && reg_ok(rs) {
            Some(Machine { flags: None, ..m.set_reg(rd, ((m.reg(rd) as int * m.reg(rs) as int) % pow64()) as u64) })
        } else {
            None
        },
        Op::MulWide(signed, rs) => if reg_ok(rs) {
            let p = wide_product(signed, m.reg(RAX), m.reg(rs));
            Some(
                Machine {
                    flags: None,
                    ..m.set_reg(RAX, (p % pow64()) as u64).set_reg(RDX, ((p / pow64()) % pow64()) as u64)
                },
            )
        } else {
            None
        },
        Op::Test(rd, rs) => if reg_ok(rd) && reg_ok(rs) {
            Some(Machine { flags: Some(logic_flags(m.reg(rd) & m.reg(rs))), ..m })
        } else {
            None
        },
        Op::Adc(rd, rs) => match m.flags {
            Some(e) => if reg_ok(rd) && reg_ok(rs) {
                Some(Machine { flags: None, ..m.set_reg(rd, adc_value(false, m.reg(rd), m.reg(rs), cf(e))) })
            } else {
                None
            },
            None => None,
        },
        Op::Zext32(r) => if reg_ok(r) {
            Some(m.set_reg(r, m.reg(r) % 0x1_0000_0000))
        } else {
            None
        },
        Op::Bswap(r) => if reg_ok(r) {
            Some(m.set_reg(r, byte_reverse(m.reg(r))))
        } else {
            None
        },
        Op::MovdquLoad(x, base, disp) => if reg_ok(x) && reg_ok(base) && mem_base_ok(base) {
            let a = m.addr(base, disp);
            Some(
                Machine {
                    xmm: m.xmm.update(x as int, (read_mem(m.mem, a, 8) as u64, read_mem(m.mem, a + 8, 8) as u64)),
                    ..m
                },
            )
        } else {
            None
        },
        Op::MovdquStore(base, disp, x) => if reg_ok(x) && reg_ok(base) && mem_base_ok(base) {
            let a = m.addr(base, disp);
            Some(
                Machine {
                    mem: write_mem(write_mem(m.mem, a, m.xmm[x as int].0 as nat, 8), a + 8, m.xmm[x as int].1 as nat, 8),
                    ..m
                },
            )
        } else {
            None
        },
        Op::MovqLoad(x, base, disp) => if reg_ok(x) && reg_ok(base) && mem_base_ok(base) {
            Some(Machine { xmm: m.xmm.update(x as int, (read_mem(m.mem, m.addr(base, disp), 8) as u64, 0u64)), ..m })
        } else {
            None
        },
        Op::MovqStore(base, disp, x) => if reg_ok(x) && reg_ok(base) && mem_base_ok(base) {
            Some(Machine { mem: write_mem(m.mem, m.addr(base, disp), m.xmm[x as int].0 as nat, 8), ..m })
        } else {
            None
        },
        Op::SseLogic(op, d, s) => if reg_ok(d) && reg_ok(s) {
            let (dl, dh) = m.xmm[d as int];
            let (sl, sh) = m.xmm[s as int];
            Some(Machine { xmm: m.xmm.update(d as int, (sse_logic(op, dl, sl), sse_logic(op, dh, sh))), ..m })
        } else {
            None
        },
        Op::SseArithSd(k, d, s) => if reg_ok(d) && reg_ok(s) {
            Some(
                Machine {
                    xmm: m.xmm.update(d as int, ((m.fp.arith)(k, m.xmm[d as int].0, m.xmm[s as int].0), m.xmm[d as int].1)),
                    ..m
                },
            )
        } else {
            None
        },
        Op::Comisd(a, b) => if reg_ok(a) && reg_ok(b) {
            Some(Machine { flags: Some((m.fp.flags)(8, m.xmm[a as int].0, m.xmm[b as int].0)), ..m })
        } else {
            None
        },
        Op::Comiss(a, b) => if reg_ok(a) && reg_ok(b) {
            Some(
                Machine {
                    flags: Some((m.fp.flags)(4, m.xmm[a as int].0 % 0x1_0000_0000, m.xmm[b as int].0 % 0x1_0000_0000)),
                    ..m
                },
            )
        } else {
            None
        },
        Op::MovdToXmm(x, r) => if reg_ok(x) && reg_ok(r) {
            Some(Machine { xmm: m.xmm.update(x as int, (m.reg(r) % 0x1_0000_0000, 0u64)), ..m })
        } else {
            None
        },
        Op::Setcc(cc, r) => match m.flags {
            Some(e) => if r < 4 {
                Some(m.set_reg(r, (m.reg(r) - m.reg(r) % 256 + if x86_cond(cc, e) { 1int } else { 0 }) as u64))
            } else {
                None
            },
            None => None,
        },
        Op::MovzxR8(r) => if r < 4 {
            Some(m.set_reg(r, m.reg(r) % 256))
        } else {
            None
        },
        Op::AluRR32(op, rd, rs) => if reg_ok(rd) && reg_ok(rs) {
            Some(Machine { flags: None, ..m.set_reg(rd, alu(op, m.reg(rd), m.reg(rs)) % 0x1_0000_0000) })
        } else {
            None
        },
        Op::LzcntRax => Some(Machine { flags: None, ..m.set_reg(RAX, (64 - bit_length(m.reg(RAX) as nat)) as u64) }),
        Op::Sbb(rd, rs) => match m.flags {
            Some(e) => if reg_ok(rd) && reg_ok(rs) {
                Some(Machine { flags: None, ..m.set_reg(rd, adc_value(true, m.reg(rd), m.reg(rs), cf(e))) })
            } else {
                None
            },
            None => None,
        },
        Op::Div(rs) => {
            let n = m.reg(RDX) as int * pow64() + m.reg(RAX) as int;
            if reg_ok(rs) && m.reg(rs) != 0 && n / (m.reg(rs) as int) < pow64() {
                Some(
                    Machine {
                        flags: None,
                        ..m.set_reg(RAX, (n / (m.reg(rs) as int)) as u64).set_reg(
                            RDX,
                            (n % (m.reg(rs) as int)) as u64,
                        )
                    },
                )
            } else {
                None
            }
        },
    }
}

/// The state after executing the ops of `p` in order, or `None` when one of
/// them is outside the model.
pub open spec fn run(p: Seq<Op>, m: Machine) -> Option<Machine>
    decreases p.len(),
{
    if p.len() == 0 {
        Some(m)
    } else {
        match run(p.drop_last(), m) {
            Some(m1) => step(p.last(), m1),
            None => None,
        }
    }
}

/// `256^n`: one more than the largest value `n` bytes hold.
pub open spec fn byte_bound(n: nat) -> nat
    decreases n,
{
    if n == 0 {
        1
    } else {
        256 * byte_bound((n - 1) as nat)
    }
}

/// Running the first `k + 1` ops of a program is running the first `k` and
/// then op `k`.
pub proof fn run_next(prog: Seq<Op>, k: int, m: Machine, mk: Machine, next: Machine)
    requires
        0 <= k < prog.len(),
        run(prog.take(k), m) == Some(mk),
        step(prog[k], mk) == Some(next),
    ensures
        run(prog.take(k + 1), m) == Some(next),
{
    assert(prog.take(k + 1).drop_last() =~= prog.take(k));
    assert(prog.take(k + 1).last() == prog[k]);
}

/// Running no ops leaves the state alone.
pub proof fn run_start(prog: Seq<Op>, m: Machine)
    ensures
        run(prog.take(0), m) == Some(m),
{
    assert(prog.take(0).len() == 0);
}

/// Running two programs in turn is running their concatenation.
pub proof fn lemma_run_concat(p: Seq<Op>, q: Seq<Op>, m: Machine)
    ensures
        run(p + q, m) == (match run(p, m) {
            Some(m1) => run(q, m1),
            None => None,
        }),
    decreases q.len(),
{
    if q.len() == 0 {
        assert(p + q =~= p);
    } else {
        lemma_run_concat(p, q.drop_last(), m);
        assert((p + q).drop_last() =~= p + q.drop_last());
        assert((p + q).last() == q.last());
    }
}

/// A write of `n` bytes at `a` leaves every other address alone.
pub proof fn lemma_write_frame(mem: Map<int, u8>, a: int, v: nat, n: nat, x: int)
    requires
        x < a || a + n <= x,
    ensures
        write_mem(mem, a, v, n)[x] == mem[x],
    decreases n,
{
    if n > 0 {
        lemma_write_frame(mem.insert(a, (v % 256) as u8), a + 1, v / 256, (n - 1) as nat, x);
    }
}

/// Reading `k` bytes at `b` after a write of `n` bytes at `a` that does not
/// overlap them reads the old bytes.
pub proof fn lemma_read_write_disjoint(mem: Map<int, u8>, a: int, v: nat, n: nat, b: int, k: nat)
    requires
        b + k <= a || a + n <= b,
    ensures
        read_mem(write_mem(mem, a, v, n), b, k) == read_mem(mem, b, k),
    decreases k,
{
    if k > 0 {
        lemma_write_frame(mem, a, v, n, b);
        lemma_read_write_disjoint(mem, a, v, n, b + 1, (k - 1) as nat);
    }
}

/// Reading back the `n` bytes just written gives the value written, when it
/// fits in `n` bytes.
pub proof fn lemma_read_write(mem: Map<int, u8>, a: int, v: nat, n: nat)
    requires
        v < byte_bound(n),
    ensures
        read_mem(write_mem(mem, a, v, n), a, n) == v,
    decreases n,
{
    if n > 0 {
        let mem1 = mem.insert(a, (v % 256) as u8);
        lemma_write_frame(mem1, a + 1, v / 256, (n - 1) as nat, a);
        vstd::arithmetic::div_mod::lemma_fundamental_div_mod(v as int, 256);
        vstd::arithmetic::div_mod::lemma_multiply_divide_lt(v as int, 256, byte_bound((n - 1) as nat) as int);
        lemma_read_write(mem1, a + 1, v / 256, (n - 1) as nat);
    }
}

/// `n` bytes hold a value below `256^n`.
pub proof fn lemma_read_bound(mem: Map<int, u8>, a: int, n: nat)
    ensures
        read_mem(mem, a, n) < byte_bound(n),
    decreases n,
{
    if n > 0 {
        lemma_read_bound(mem, a + 1, (n - 1) as nat);
        let rest = read_mem(mem, a + 1, (n - 1) as nat);
        vstd::arithmetic::mul::lemma_mul_inequality(rest as int + 1, byte_bound((n - 1) as nat) as int, 256);
    }
}

/// `256^n` for the access sizes.
pub proof fn lemma_byte_bounds()
    ensures
        byte_bound(1) == 0x100,
        byte_bound(2) == 0x1_0000,
        byte_bound(4) == 0x1_0000_0000,
        byte_bound(8) == 0x1_0000_0000_0000_0000,
{
    reveal_with_fuel(byte_bound, 9);
}

// ---- the effect of each op (the definition of `step`, one case at a time) ----

/// `push r`
pub proof fn exec_push(m: Machine, r: u8) -> (next: Machine)
    requires
        reg_ok(r),
    ensures
        step(Op::Push(r), m) == Some(next),
        next == (Machine { stack: m.stack.push(m.reg(r)), ..m }),
{
    reveal(step);
    Machine { stack: m.stack.push(m.reg(r)), ..m }
}

/// `pop r`
pub proof fn exec_pop(m: Machine, r: u8) -> (next: Machine)
    requires
        reg_ok(r),
        m.stack.len() > 0,
    ensures
        step(Op::Pop(r), m) == Some(next),
        next == (Machine { stack: m.stack.drop_last(), ..m.set_reg(r, m.stack.last()) }),
{
    reveal(step);
    Machine { stack: m.stack.drop_last(), ..m.set_reg(r, m.stack.last()) }
}

/// `pushfq`
pub proof fn exec_pushfq(m: Machine) -> (next: Machine)
    requires
        m.flags is Some,
    ensures
        step(Op::Pushfq, m) == Some(next),
        next == (Machine { stack: m.stack.push(m.flags.unwrap()), ..m }),
{
    reveal(step);
    Machine { stack: m.stack.push(m.flags.unwrap()), ..m }
}

/// `popfq`
pub proof fn exec_popfq(m: Machine) -> (next: Machine)
    requires
        m.stack.len() > 0,
    ensures
        step(Op::Popfq, m) == Some(next),
        next == (Machine { flags: Some(m.stack.last()), stack: m.stack.drop_last(), ..m }),
{
    reveal(step);
    Machine { flags: Some(m.stack.last()), stack: m.stack.drop_last(), ..m }
}

/// `mov rd, rs`
pub proof fn exec_mov(m: Machine, rd: u8, rs: u8) -> (next: Machine)
    requires
        reg_ok(rd),
        reg_ok(rs),
    ensures
        step(Op::MovRR(rd, rs), m) == Some(next),
        next == m.set_reg(rd, m.reg(rs)),
{
    reveal(step);
    m.set_reg(rd, m.reg(rs))
}

/// `mov rd, imm64`
pub proof fn exec_mov_imm64(m: Machine, rd: u8, imm: u64) -> (next: Machine)
    requires
        reg_ok(rd),
    ensures
        step(Op::MovImm64(rd, imm), m) == Some(next),
        next == m.set_reg(rd, imm),
{
    reveal(step);
    m.set_reg(rd, imm)
}

/// `mov rd, imm32` (sign-extended)
pub proof fn exec_mov_imm32(m: Machine, rd: u8, imm: u32) -> (next: Machine)
    requires
        reg_ok(rd),
    ensures
        step(Op::MovImm32(rd, imm), m) == Some(next),
        next == m.set_reg(rd, sext32(imm)),
{
    reveal(step);
    m.set_reg(rd, sext32(imm))
}

/// `op rd, rs`
pub proof fn exec_alu(m: Machine, op: AluOp, rd: u8, rs: u8) -> (next: Machine)
    requires
        reg_ok(rd),
        reg_ok(rs),
    ensures
        step(Op::AluRR(op, rd, rs), m) == Some(next),
        next == (Machine {
            flags: alu_flags(op, m.reg(rd), m.reg(rs)),
            ..m.set_reg(rd, alu(op, m.reg(rd), m.reg(rs)))
        }),
{
    reveal(step);
    Machine {
        flags: alu_flags(op, m.reg(rd), m.reg(rs)),
        ..m.set_reg(rd, alu(op, m.reg(rd), m.reg(rs)))
    }
}

/// `cmovcc rd, rs` copies rs into rd when the condition holds on the
/// known flags.
pub proof fn exec_cmov(m: Machine, cc: u8, rd: u8, rs: u8, e: u64) -> (next: Machine)
    requires
        reg_ok(rd),
        reg_ok(rs),
        m.flags == Some(e),
    ensures
        step(Op::Cmov(cc, rd, rs), m) == Some(next),
        next == (if x86_cond(cc, e) {
            m.set_reg(rd, m.reg(rs))
        } else {
            m
        }),
{
    reveal(step);
    if x86_cond(cc, e) {
        m.set_reg(rd, m.reg(rs))
    } else {
        m
    }
}

/// `not r` complements r.
pub proof fn exec_not(m: Machine, r: u8) -> (next: Machine)
    requires
        reg_ok(r),
    ensures
        step(Op::Not(r), m) == Some(next),
        next == m.set_reg(r, !m.reg(r)),
{
    reveal(step);
    m.set_reg(r, !m.reg(r))
}

/// `neg r` negates r modulo 2^64.
pub proof fn exec_neg(m: Machine, r: u8) -> (next: Machine)
    requires
        reg_ok(r),
    ensures
        step(Op::Neg(r), m) == Some(next),
        next == (Machine { flags: None, ..m.set_reg(r, (0u64 as int - m.reg(r) as int) as u64) }),
{
    reveal(step);
    Machine { flags: None, ..m.set_reg(r, (0u64 as int - m.reg(r) as int) as u64) }
}

/// `cmc` flips CF and nothing else.
pub proof fn exec_cmc(m: Machine) -> (next: Machine)
    ensures
        step(Op::Cmc, m) == Some(next),
        next == (Machine { flags: cmc_flags(m.flags), ..m }),
{
    reveal(step);
    Machine { flags: cmc_flags(m.flags), ..m }
}

/// `op rd, imm32` (sign-extended)
pub proof fn exec_alu_imm(m: Machine, op: AluOp, rd: u8, imm: u32) -> (next: Machine)
    requires
        reg_ok(rd),
    ensures
        step(Op::AluRI(op, rd, imm), m) == Some(next),
        next == (Machine {
            flags: alu_flags(op, m.reg(rd), sext32(imm)),
            ..m.set_reg(rd, alu(op, m.reg(rd), sext32(imm)))
        }),
{
    reveal(step);
    Machine {
        flags: alu_flags(op, m.reg(rd), sext32(imm)),
        ..m.set_reg(rd, alu(op, m.reg(rd), sext32(imm)))
    }
}

/// `shift rd, imm8`
pub proof fn exec_shift(m: Machine, op: ShiftOp, rd: u8, imm: u8) -> (next: Machine)
    requires
        reg_ok(rd),
    ensures
        step(Op::ShiftRI(op, rd, imm), m) == Some(next),
        next == (Machine { flags: None, ..m.set_reg(rd, shift(op, m.reg(rd), imm)) }),
{
    reveal(step);
    Machine { flags: None, ..m.set_reg(rd, shift(op, m.reg(rd), imm)) }
}

/// `movsxd rd, rs32`
pub proof fn exec_movsxd(m: Machine, rd: u8, rs: u8) -> (next: Machine)
    requires
        reg_ok(rd),
        reg_ok(rs),
    ensures
        step(Op::Movsxd(rd, rs), m) == Some(next),
        next == m.set_reg(rd, sext32(m.reg(rs) as u32)),
{
    reveal(step);
    m.set_reg(rd, sext32(m.reg(rs) as u32))
}

/// `mov rd, qword [base + disp]`
pub proof fn exec_load64(m: Machine, rd: u8, base: u8, disp: i32) -> (next: Machine)
    requires
        reg_ok(rd),
        reg_ok(base),
        mem_base_ok(base),
    ensures
        step(Op::Load64(rd, base, disp), m) == Some(next),
        next == m.set_reg(rd, read_mem(m.mem, m.addr(base, disp), 8) as u64),
{
    reveal(step);
    m.set_reg(rd, read_mem(m.mem, m.addr(base, disp), 8) as u64)
}

/// `mov qword [base + disp], src`
pub proof fn exec_store64(m: Machine, base: u8, disp: i32, src: u8) -> (next: Machine)
    requires
        reg_ok(src),
        reg_ok(base),
        mem_base_ok(base),
    ensures
        step(Op::Store64(base, disp, src), m) == Some(next),
        next == (Machine { mem: write_mem(m.mem, m.addr(base, disp), m.reg(src) as nat, 8), ..m }),
{
    reveal(step);
    Machine { mem: write_mem(m.mem, m.addr(base, disp), m.reg(src) as nat, 8), ..m }
}

/// `mov rd32, dword [base + disp]`
pub proof fn exec_load32(m: Machine, rd: u8, base: u8, disp: i32) -> (next: Machine)
    requires
        reg_ok(rd),
        reg_ok(base),
        mem_base_ok(base),
    ensures
        step(Op::Load32(rd, base, disp), m) == Some(next),
        next == m.set_reg(rd, read_mem(m.mem, m.addr(base, disp), 4) as u64),
{
    reveal(step);
    m.set_reg(rd, read_mem(m.mem, m.addr(base, disp), 4) as u64)
}

/// `mov dword [base + disp], src32`
pub proof fn exec_store32(m: Machine, base: u8, disp: i32, src: u8) -> (next: Machine)
    requires
        reg_ok(src),
        reg_ok(base),
        mem_base_ok(base),
    ensures
        step(Op::Store32(base, disp, src), m) == Some(next),
        next == (Machine {
            mem: write_mem(m.mem, m.addr(base, disp), m.reg(src) as nat % 0x1_0000_0000, 4),
            ..m
        }),
{
    reveal(step);
    Machine {
        mem: write_mem(m.mem, m.addr(base, disp), m.reg(src) as nat % 0x1_0000_0000, 4),
        ..m
    }
}

/// The little-endian value of `n + k` bytes is that of the first `n` plus
/// `256^n` times that of the next `k`.
pub proof fn lemma_read_split(mem: Map<int, u8>, a: int, n: nat, k: nat)
    ensures
        read_mem(mem, a, n + k) == read_mem(mem, a, n) + byte_bound(n) * read_mem(mem, a + n, k),
    decreases n,
{
    if n > 0 {
        lemma_read_split(mem, a + 1, (n - 1) as nat, k);
        assert((n + k - 1) as nat == (n - 1) as nat + k);
        let x = read_mem(mem, a + 1, (n - 1) as nat) as int;
        let b = byte_bound((n - 1) as nat) as int;
        let y = read_mem(mem, a + n, k) as int;
        assert(read_mem(mem, a, n + k) == mem[a] + 256 * read_mem(mem, a + 1, (n - 1) as nat + k));
        assert(read_mem(mem, a, n) == mem[a] + 256 * x);
        assert(byte_bound(n) == 256 * b);
        assert(a + 1 + (n - 1) as nat == a + n);
        assert(read_mem(mem, a + 1 + (n - 1) as nat, k) == y);
        assert(read_mem(mem, a + 1, (n - 1) as nat + k) == x + b * y);
        let lhs = read_mem(mem, a, n + k) as int;
        let r = read_mem(mem, a, n) as int;
        let bb = byte_bound(n) as int;
        let ma = mem[a] as int;
        assert(lhs == r + bb * y) by (nonlinear_arith)
            requires
                lhs == ma + 256 * (x + b * y),
                r == ma + 256 * x,
                bb == 256 * b,
        ;
    } else {
        assert(byte_bound(n) == 1);
        assert(read_mem(mem, a, n) == 0);
        let y = read_mem(mem, a + n, k) as int;
        assert(a + n == a && n + k == k);
        assert(1 * y == y);
    }
}

/// `movzx rd32, word [base + disp]`
pub proof fn exec_load16(m: Machine, rd: u8, base: u8, disp: i32) -> (next: Machine)
    requires
        reg_ok(rd),
        reg_ok(base),
        mem_base_ok(base),
    ensures
        step(Op::Load16(rd, base, disp), m) == Some(next),
        next == m.set_reg(rd, read_mem(m.mem, m.addr(base, disp), 2) as u64),
{
    reveal(step);
    m.set_reg(rd, read_mem(m.mem, m.addr(base, disp), 2) as u64)
}

/// `mov word [base + disp], src16`
pub proof fn exec_store16(m: Machine, base: u8, disp: i32, src: u8) -> (next: Machine)
    requires
        reg_ok(src),
        reg_ok(base),
        mem_base_ok(base),
    ensures
        step(Op::Store16(base, disp, src), m) == Some(next),
        next == (Machine {
            mem: write_mem(m.mem, m.addr(base, disp), m.reg(src) as nat % 0x1_0000, 2),
            ..m
        }),
{
    reveal(step);
    Machine { mem: write_mem(m.mem, m.addr(base, disp), m.reg(src) as nat % 0x1_0000, 2), ..m }
}

/// `movzx rd32, byte [base + disp]`
pub proof fn exec_load8(m: Machine, rd: u8, base: u8, disp: i32) -> (next: Machine)
    requires
        reg_ok(rd),
        reg_ok(base),
        mem_base_ok(base),
    ensures
        step(Op::Load8(rd, base, disp), m) == Some(next),
        next == m.set_reg(rd, read_mem(m.mem, m.addr(base, disp), 1) as u64),
{
    reveal(step);
    m.set_reg(rd, read_mem(m.mem, m.addr(base, disp), 1) as u64)
}

/// `mov byte [base + disp], src8`
pub proof fn exec_store8(m: Machine, base: u8, disp: i32, src: u8) -> (next: Machine)
    requires
        reg_ok(src),
        reg_ok(base),
        mem_base_ok(base),
    ensures
        step(Op::Store8(base, disp, src), m) == Some(next),
        next == (Machine {
            mem: write_mem(m.mem, m.addr(base, disp), m.reg(src) as nat % 0x100, 1),
            ..m
        }),
{
    reveal(step);
    Machine { mem: write_mem(m.mem, m.addr(base, disp), m.reg(src) as nat % 0x100, 1), ..m }
}

/// `ror rd32, imm8`
pub proof fn exec_ror32(m: Machine, rd: u8, imm: u8) -> (next: Machine)
    requires
        reg_ok(rd),
    ensures
        step(Op::Ror32(rd, imm), m) == Some(next),
        next == (Machine { flags: None, ..m.set_reg(rd, ror32(m.reg(rd) as u32, imm) as u64) }),
{
    reveal(step);
    Machine { flags: None, ..m.set_reg(rd, ror32(m.reg(rd) as u32, imm) as u64) }
}

/// `lea rd, [base + disp]`
pub proof fn exec_lea(m: Machine, rd: u8, base: u8, disp: i32) -> (next: Machine)
    requires
        reg_ok(rd),
        reg_ok(base),
        mem_base_ok(base),
    ensures
        step(Op::Lea(rd, base, disp), m) == Some(next),
        next == m.set_reg(rd, m.addr(base, disp) as u64),
{
    reveal(step);
    m.set_reg(rd, m.addr(base, disp) as u64)
}

/// `shift rd, cl` shifts by the count in CL modulo 64.
pub proof fn exec_shift_cl(m: Machine, op: ShiftOp, rd: u8) -> (next: Machine)
    requires
        reg_ok(rd),
    ensures
        step(Op::ShiftCl(op, rd), m) == Some(next),
        next == (Machine { flags: None, ..m.set_reg(rd, shift(op, m.reg(rd), (m.reg(RCX) % 64) as u8)) }),
{
    reveal(step);
    Machine { flags: None, ..m.set_reg(rd, shift(op, m.reg(rd), (m.reg(RCX) % 64) as u8)) }
}

/// `imul rd, rs` keeps the low 64 bits of the product.
pub proof fn exec_imul(m: Machine, rd: u8, rs: u8) -> (next: Machine)
    requires
        reg_ok(rd),
        reg_ok(rs),
    ensures
        step(Op::Imul(rd, rs), m) == Some(next),
        next == (Machine { flags: None, ..m.set_reg(rd, ((m.reg(rd) as int * m.reg(rs) as int) % pow64()) as u64) }),
{
    reveal(step);
    Machine { flags: None, ..m.set_reg(rd, ((m.reg(rd) as int * m.reg(rs) as int) % pow64()) as u64) }
}

/// One-operand `mul`/`imul rs`: the product's low half in RAX, high in RDX.
pub proof fn exec_mul_wide(m: Machine, signed: bool, rs: u8) -> (next: Machine)
    requires
        reg_ok(rs),
    ensures
        step(Op::MulWide(signed, rs), m) == Some(next),
        next == (Machine {
            flags: None,
            ..m.set_reg(RAX, (wide_product(signed, m.reg(RAX), m.reg(rs)) % pow64()) as u64).set_reg(
                RDX,
                ((wide_product(signed, m.reg(RAX), m.reg(rs)) / pow64()) % pow64()) as u64,
            )
        }),
{
    reveal(step);
    let p = wide_product(signed, m.reg(RAX), m.reg(rs));
    Machine { flags: None, ..m.set_reg(RAX, (p % pow64()) as u64).set_reg(RDX, ((p / pow64()) % pow64()) as u64) }
}

/// `div rs` with RDX zero and a nonzero divisor: the quotient of RAX in RAX,
/// the remainder in RDX.
pub proof fn exec_div(m: Machine, rs: u8) -> (next: Machine)
    requires
        reg_ok(rs),
        m.wf(),
        m.reg(RDX) == 0,
        m.reg(rs) != 0,
    ensures
        step(Op::Div(rs), m) == Some(next),
        next == (Machine {
            flags: None,
            ..m.set_reg(RAX, m.reg(RAX) / m.reg(rs)).set_reg(RDX, m.reg(RAX) % m.reg(rs))
        }),
{
    reveal(step);
    let n = m.reg(RDX) as int * pow64() + m.reg(RAX) as int;
    assert(n == m.reg(RAX) as int);
    vstd::arithmetic::div_mod::lemma_div_is_ordered_by_denominator(n, 1, m.reg(rs) as int);
    Machine { flags: None, ..m.set_reg(RAX, m.reg(RAX) / m.reg(rs)).set_reg(RDX, m.reg(RAX) % m.reg(rs)) }
}

/// `test rd, rs` sets the flags of `rd & rs` and changes nothing else.
pub proof fn exec_test(m: Machine, rd: u8, rs: u8) -> (next: Machine)
    requires
        reg_ok(rd),
        reg_ok(rs),
    ensures
        step(Op::Test(rd, rs), m) == Some(next),
        next == (Machine { flags: Some(logic_flags(m.reg(rd) & m.reg(rs))), ..m }),
{
    reveal(step);
    Machine { flags: Some(logic_flags(m.reg(rd) & m.reg(rs))), ..m }
}

/// `adc rd, rs` / `sbb rd, rs` on known flags.
pub proof fn exec_adc(m: Machine, sub: bool, rd: u8, rs: u8, e: u64) -> (next: Machine)
    requires
        reg_ok(rd),
        reg_ok(rs),
        m.flags == Some(e),
    ensures
        step(if sub { Op::Sbb(rd, rs) } else { Op::Adc(rd, rs) }, m) == Some(next),
        next == (Machine { flags: None, ..m.set_reg(rd, adc_value(sub, m.reg(rd), m.reg(rs), cf(e))) }),
{
    reveal(step);
    Machine { flags: None, ..m.set_reg(rd, adc_value(sub, m.reg(rd), m.reg(rs), cf(e))) }
}

/// `mov r32, r32` keeps the low half of `r`.
pub proof fn exec_zext32(m: Machine, r: u8) -> (next: Machine)
    requires
        reg_ok(r),
    ensures
        step(Op::Zext32(r), m) == Some(next),
        next == m.set_reg(r, m.reg(r) % 0x1_0000_0000),
{
    reveal(step);
    m.set_reg(r, m.reg(r) % 0x1_0000_0000)
}

/// `bswap r` reverses the bytes of `r`.
pub proof fn exec_bswap(m: Machine, r: u8) -> (next: Machine)
    requires
        reg_ok(r),
    ensures
        step(Op::Bswap(r), m) == Some(next),
        next == m.set_reg(r, byte_reverse(m.reg(r))),
{
    reveal(step);
    m.set_reg(r, byte_reverse(m.reg(r)))
}

/// `lzcnt rax, rax` counts the leading zero bits of RAX.
pub proof fn exec_lzcnt(m: Machine) -> (next: Machine)
    ensures
        step(Op::LzcntRax, m) == Some(next),
        next == (Machine { flags: None, ..m.set_reg(RAX, (64 - bit_length(m.reg(RAX) as nat)) as u64) }),
{
    reveal(step);
    Machine { flags: None, ..m.set_reg(RAX, (64 - bit_length(m.reg(RAX) as nat)) as u64) }
}

/// `op rd32, rs32` keeps the low half of the 64-bit result (the low half of
/// a sum, difference or logical operation depends only on the low halves).
pub proof fn exec_alu32(m: Machine, op: AluOp, rd: u8, rs: u8) -> (next: Machine)
    requires
        reg_ok(rd),
        reg_ok(rs),
    ensures
        step(Op::AluRR32(op, rd, rs), m) == Some(next),
        next == (Machine { flags: None, ..m.set_reg(rd, alu(op, m.reg(rd), m.reg(rs)) % 0x1_0000_0000) }),
{
    reveal(step);
    Machine { flags: None, ..m.set_reg(rd, alu(op, m.reg(rd), m.reg(rs)) % 0x1_0000_0000) }
}

/// `movdqu xmm, [base + disp]`
pub proof fn exec_movdqu_load(m: Machine, x: u8, base: u8, disp: i32) -> (next: Machine)
    requires
        reg_ok(x),
        reg_ok(base),
        mem_base_ok(base),
    ensures
        step(Op::MovdquLoad(x, base, disp), m) == Some(next),
        next == (Machine {
            xmm: m.xmm.update(
                x as int,
                (read_mem(m.mem, m.addr(base, disp), 8) as u64, read_mem(m.mem, m.addr(base, disp) + 8, 8) as u64),
            ),
            ..m
        }),
{
    reveal(step);
    let a = m.addr(base, disp);
    Machine { xmm: m.xmm.update(x as int, (read_mem(m.mem, a, 8) as u64, read_mem(m.mem, a + 8, 8) as u64)), ..m }
}

/// `movdqu [base + disp], xmm`
pub proof fn exec_movdqu_store(m: Machine, base: u8, disp: i32, x: u8) -> (next: Machine)
    requires
        reg_ok(x),
        reg_ok(base),
        mem_base_ok(base),
    ensures
        step(Op::MovdquStore(base, disp, x), m) == Some(next),
        next == (Machine {
            mem: write_mem(
                write_mem(m.mem, m.addr(base, disp), m.xmm[x as int].0 as nat, 8),
                m.addr(base, disp) + 8,
                m.xmm[x as int].1 as nat,
                8,
            ),
            ..m
        }),
{
    reveal(step);
    let a = m.addr(base, disp);
    Machine { mem: write_mem(write_mem(m.mem, a, m.xmm[x as int].0 as nat, 8), a + 8, m.xmm[x as int].1 as nat, 8), ..m }
}

/// `movq xmm, [base + disp]`
pub proof fn exec_movq_load(m: Machine, x: u8, base: u8, disp: i32) -> (next: Machine)
    requires
        reg_ok(x),
        reg_ok(base),
        mem_base_ok(base),
    ensures
        step(Op::MovqLoad(x, base, disp), m) == Some(next),
        next == (Machine { xmm: m.xmm.update(x as int, (read_mem(m.mem, m.addr(base, disp), 8) as u64, 0u64)), ..m }),
{
    reveal(step);
    Machine { xmm: m.xmm.update(x as int, (read_mem(m.mem, m.addr(base, disp), 8) as u64, 0u64)), ..m }
}

/// `movq [base + disp], xmm`
pub proof fn exec_movq_store(m: Machine, base: u8, disp: i32, x: u8) -> (next: Machine)
    requires
        reg_ok(x),
        reg_ok(base),
        mem_base_ok(base),
    ensures
        step(Op::MovqStore(base, disp, x), m) == Some(next),
        next == (Machine { mem: write_mem(m.mem, m.addr(base, disp), m.xmm[x as int].0 as nat, 8), ..m }),
{
    reveal(step);
    Machine { mem: write_mem(m.mem, m.addr(base, disp), m.xmm[x as int].0 as nat, 8), ..m }
}

/// A bitwise SSE operation on both quadwords.
pub proof fn exec_sse_logic(m: Machine, op: u8, d: u8, s: u8) -> (next: Machine)
    requires
        reg_ok(d),
        reg_ok(s),
    ensures
        step(Op::SseLogic(op, d, s), m) == Some(next),
        next == (Machine {
            xmm: m.xmm.update(
                d as int,
                (sse_logic(op, m.xmm[d as int].0, m.xmm[s as int].0), sse_logic(op, m.xmm[d as int].1, m.xmm[s as int].1)),
            ),
            ..m
        }),
{
    reveal(step);
    Machine {
        xmm: m.xmm.update(
            d as int,
            (sse_logic(op, m.xmm[d as int].0, m.xmm[s as int].0), sse_logic(op, m.xmm[d as int].1, m.xmm[s as int].1)),
        ),
        ..m
    }
}

/// A scalar double operation on the low quadwords.
pub proof fn exec_sse_arith_sd(m: Machine, k: FpArith, d: u8, s: u8) -> (next: Machine)
    requires
        reg_ok(d),
        reg_ok(s),
    ensures
        step(Op::SseArithSd(k, d, s), m) == Some(next),
        next == (Machine {
            xmm: m.xmm.update(d as int, ((m.fp.arith)(k, m.xmm[d as int].0, m.xmm[s as int].0), m.xmm[d as int].1)),
            ..m
        }),
{
    reveal(step);
    Machine { xmm: m.xmm.update(d as int, ((m.fp.arith)(k, m.xmm[d as int].0, m.xmm[s as int].0), m.xmm[d as int].1)), ..m }
}

/// `comisd a, b` / `comiss a, b` (`es` 8 or 4) set the compare flags of the low
/// lanes.
pub proof fn exec_comis(m: Machine, es: u8, a: u8, b: u8) -> (next: Machine)
    requires
        reg_ok(a),
        reg_ok(b),
        es == 4 || es == 8,
    ensures
        step(if es == 8 { Op::Comisd(a, b) } else { Op::Comiss(a, b) }, m) == Some(next),
        next == (Machine {
            flags: Some(
                if es == 8 {
                    (m.fp.flags)(8, m.xmm[a as int].0, m.xmm[b as int].0)
                } else {
                    (m.fp.flags)(4, m.xmm[a as int].0 % 0x1_0000_0000, m.xmm[b as int].0 % 0x1_0000_0000)
                },
            ),
            ..m
        }),
{
    reveal(step);
    Machine {
        flags: Some(
            if es == 8 {
                (m.fp.flags)(8, m.xmm[a as int].0, m.xmm[b as int].0)
            } else {
                (m.fp.flags)(4, m.xmm[a as int].0 % 0x1_0000_0000, m.xmm[b as int].0 % 0x1_0000_0000)
            },
        ),
        ..m
    }
}

/// `movd xmm, r32`
pub proof fn exec_movd_to_xmm(m: Machine, x: u8, r: u8) -> (next: Machine)
    requires
        reg_ok(x),
        reg_ok(r),
    ensures
        step(Op::MovdToXmm(x, r), m) == Some(next),
        next == (Machine { xmm: m.xmm.update(x as int, (m.reg(r) % 0x1_0000_0000, 0u64)), ..m }),
{
    reveal(step);
    Machine { xmm: m.xmm.update(x as int, (m.reg(r) % 0x1_0000_0000, 0u64)), ..m }
}

/// `setcc r8` on known flags.
pub proof fn exec_setcc(m: Machine, cc: u8, r: u8, e: u64) -> (next: Machine)
    requires
        r < 4,
        m.flags == Some(e),
    ensures
        step(Op::Setcc(cc, r), m) == Some(next),
        next == m.set_reg(r, (m.reg(r) - m.reg(r) % 256 + if x86_cond(cc, e) { 1int } else { 0 }) as u64),
{
    reveal(step);
    m.set_reg(r, (m.reg(r) - m.reg(r) % 256 + if x86_cond(cc, e) { 1int } else { 0 }) as u64)
}

/// `movzx r32, r8`
pub proof fn exec_movzx_r8(m: Machine, r: u8) -> (next: Machine)
    requires
        r < 4,
    ensures
        step(Op::MovzxR8(r), m) == Some(next),
        next == m.set_reg(r, m.reg(r) % 256),
{
    reveal(step);
    m.set_reg(r, m.reg(r) % 256)
}

/// The bytes of two programs run one after the other are the bytes of each,
/// in order.
pub proof fn lemma_prog_bytes_concat(p: Seq<Op>, q: Seq<Op>)
    ensures
        prog_bytes(p + q) == prog_bytes(p) + prog_bytes(q),
    decreases q.len(),
{
    if q.len() == 0 {
        assert(p + q =~= p);
        assert(prog_bytes(p) + prog_bytes(q) =~= prog_bytes(p));
    } else {
        lemma_prog_bytes_concat(p, q.drop_last());
        assert((p + q).drop_last() =~= p + q.drop_last());
        assert((p + q).last() == q.last());
        assert(prog_bytes(p + q) =~= prog_bytes(p) + prog_bytes(q));
    }
}

} // verus!
