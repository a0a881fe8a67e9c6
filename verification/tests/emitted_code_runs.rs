//! Runs the emitted sequences on a small x86-64 interpreter that covers the
//! instruction forms they use, and checks what they compute.
use arm64jit::translate::{
    apply_shift_const, fp_scalar_xfer, ldg, ldg_src, load_nzcv_to_eflags, mov_guest_imm,
    permute_source, stg, stg0, stg_if_writable, store_nzcv, store_nzcv_fp, x86_cc_for_cond,
    zext_w, ShiftKind, NZCV_OFF, VECTOR_BASE,
};
use arm64jit::decode::Inst;
use arm64jit::translate::{translate, Fixup, HostLinks};
use arm64jit::x86::{CodeBuf, R10, RAX, RBX, RCX, RDI, RDX};
use std::collections::HashMap;

const BASE: u64 = 0x10_0000;
const CF: u64 = 1;
const PF: u64 = 1 << 2;
const ZF: u64 = 1 << 6;
const SF: u64 = 1 << 7;
const OF: u64 = 1 << 11;

struct Cpu {
    regs: [u64; 16],
    flags: u64,
    last_a: u64,
    last_b: u64,
    stack: Vec<u64>,
    mem: HashMap<u64, u8>,
}

impl Cpu {
    fn new() -> Cpu {
        let mut regs = [0u64; 16];
        for (i, r) in regs.iter_mut().enumerate() {
            *r = 0x1111_1111_1111_1111u64.wrapping_mul(i as u64 + 1);
        }
        regs[RBX as usize] = BASE;
        Cpu { regs, flags: 0x202, last_a: 0, last_b: 0, stack: Vec::new(), mem: HashMap::new() }
    }

    fn read(&self, a: u64, n: u64) -> u64 {
        let mut v = 0u64;
        for k in (0..n).rev() {
            v = (v << 8) | *self.mem.get(&(a + k)).unwrap_or(&0) as u64;
        }
        v
    }

    fn write(&mut self, a: u64, v: u64, n: u64) {
        for k in 0..n {
            self.mem.insert(a + k, (v >> (8 * k)) as u8);
        }
    }

    fn run(&mut self, code: &[u8]) {
        let mut i = 0usize;
        while i < code.len() {
            if code[i..].starts_with(&[0xF3, 0x48, 0x0F, 0xBD, 0xC0]) {
                self.regs[0] = self.regs[0].leading_zeros() as u64;
                i += 5;
                continue;
            }
            let mut size16 = false;
            if code[i] == 0x66 {
                size16 = true;
                i += 1;
            }
            let mut rex = 0u8;
            if code[i] & 0xF0 == 0x40 {
                rex = code[i];
                i += 1;
            }
            let w = rex & 8 != 0;
            let rr = ((rex >> 2) & 1) as usize * 8;
            let rb = (rex & 1) as usize * 8;
            let op = code[i];
            i += 1;
            match op {
                0x50..=0x57 => self.stack.push(self.regs[(op - 0x50) as usize + rb]),
                0x58..=0x5F => self.regs[(op - 0x58) as usize + rb] = self.stack.pop().unwrap(),
                0xC3 => return,
                0x9C => self.stack.push(self.flags),
                0x9D => self.flags = self.stack.pop().unwrap(),
                0xF5 => self.flags ^= 1,
                0xB8..=0xBF => {
                    let r = (op - 0xB8) as usize + rb;
                    if w {
                        self.regs[r] = u64::from_le_bytes(code[i..i + 8].try_into().unwrap());
                        i += 8;
                    } else {
                        self.regs[r] = u32::from_le_bytes(code[i..i + 4].try_into().unwrap()) as u64;
                        i += 4;
                    }
                }
                0x0F if (0x80..=0x8F).contains(&code[i]) => {
                    let cc = code[i];
                    let rel = i32::from_le_bytes(code[i + 1..i + 5].try_into().unwrap());
                    i += 5;
                    if x86_cond(cc, self.flags) {
                        i = (i as i64 + rel as i64) as usize;
                    }
                }
                0xE9 => {
                    let rel = i32::from_le_bytes(code[i..i + 4].try_into().unwrap());
                    i += 4;
                    i = (i as i64 + rel as i64) as usize;
                }
                0x0F if (0xC8..=0xCF).contains(&code[i]) => {
                    let r = (code[i] - 0xC8) as usize + rb;
                    i += 1;
                    self.regs[r] = if w {
                        self.regs[r].swap_bytes()
                    } else {
                        (self.regs[r] as u32).swap_bytes() as u64
                    };
                }
                0x0F if code[i] == 0xBA => {
                    let m = code[i + 1];
                    assert!(m >> 6 == 3 && (m >> 3) & 7 == 4, "0F BA form");
                    let r = (m & 7) as usize + rb;
                    let b = code[i + 2] & 63;
                    i += 3;
                    self.flags = (self.flags & !CF) | ((self.regs[r] >> b) & 1);
                }
                0xC7 | 0x81 | 0xC1 | 0xD3 | 0x89 | 0x8B | 0x88 | 0x8D | 0x01 | 0x09 | 0x11 | 0x19 | 0x21 | 0x29 | 0x31 | 0x63 | 0x0F | 0xF7 | 0x39 | 0x85 => {
                    let mut opcode = op;
                    if op == 0x0F {
                        opcode = code[i];
                        i += 1;
                        assert!(
                            opcode == 0xB6 || opcode == 0xB7 || opcode == 0xBE || opcode == 0xBF || opcode == 0xAF || (0x40..=0x4F).contains(&opcode) || (0x90..=0x9F).contains(&opcode),
                            "0F {:02x}",
                            opcode
                        );
                    }
                    let m = code[i];
                    i += 1;
                    let md = m >> 6;
                    let reg = ((m >> 3) & 7) as usize + rr;
                    let rm = (m & 7) as usize + rb;
                    if md == 3 {
                        self.reg_form(opcode, w, reg, rm, code, &mut i);
                    } else {
                        let mut sib_index: u64 = 0;
                        let mut base_reg = rm;
                        if m & 7 == 4 {
                            let sib = code[i];
                            i += 1;
                            let rx = ((rex >> 1) & 1) as usize * 8;
                            let idx = ((sib >> 3) & 7) as usize + rx;
                            sib_index = self.regs[idx] << (sib >> 6);
                            base_reg = (sib & 7) as usize + rb;
                        }
                        let disp: i64 = match md {
                            0 => 0,
                            1 => {
                                i += 1;
                                code[i - 1] as i8 as i64
                            }
                            _ => {
                                i += 4;
                                i32::from_le_bytes(code[i - 4..i].try_into().unwrap()) as i64
                            }
                        };
                        let addr = self.regs[base_reg].wrapping_add(sib_index).wrapping_add(disp as u64);
                        match opcode {
                            0x89 => {
                                let n = if w { 8 } else if size16 { 2 } else { 4 };
                                self.write(addr, self.regs[reg], n);
                            }
                            0x88 => self.write(addr, self.regs[reg], 1),
                            0x8B => self.regs[reg] = self.read(addr, if w { 8 } else { 4 }),
                            0xB7 => self.regs[reg] = self.read(addr, 2),
                            0xB6 => self.regs[reg] = self.read(addr, 1),
                            0xBE => {
                                let v = self.read(addr, 1) as u8 as i8 as i64 as u64;
                                self.regs[reg] = if w { v } else { v & 0xffff_ffff };
                            }
                            0xBF => {
                                let v = self.read(addr, 2) as u16 as i16 as i64 as u64;
                                self.regs[reg] = if w { v } else { v & 0xffff_ffff };
                            }
                            0x8D => self.regs[reg] = addr,
                            _ => panic!("memory form {:02x}", opcode),
                        }
                    }
                }
                _ => panic!("opcode {:02x}", op),
            }
        }
    }

    fn sub_flags(&self, a: u64, b: u64, w: bool) -> u64 {
        let (r, c, s, o) = if w {
            let r = a.wrapping_sub(b);
            (r, a < b, r >> 63 == 1, (a as i64).checked_sub(b as i64).is_none())
        } else {
            let (a, b) = (a as u32, b as u32);
            let r = a.wrapping_sub(b);
            (r as u64, a < b, r >> 31 == 1, (a as i32).checked_sub(b as i32).is_none())
        };
        (c as u64) | if r == 0 { ZF } else { 0 } | if s { SF } else { 0 } | if o { OF } else { 0 }
    }

    fn add_flags(&self, a: u64, b: u64, w: bool) -> u64 {
        let (r, c, s, o) = if w {
            let (r, c) = a.overflowing_add(b);
            (r, c, r >> 63 == 1, (a as i64).checked_add(b as i64).is_none())
        } else {
            let (a, b) = (a as u32, b as u32);
            let (r, c) = a.overflowing_add(b);
            (r as u64, c, r >> 31 == 1, (a as i32).checked_add(b as i32).is_none())
        };
        (c as u64) | if r == 0 { ZF } else { 0 } | if s { SF } else { 0 } | if o { OF } else { 0 }
    }

    fn reg_form(&mut self, op: u8, w: bool, reg: usize, rm: usize, code: &[u8], i: &mut usize) {
        let mask = if w { u64::MAX } else { 0xffff_ffff };
        self.last_a = self.regs[rm];
        self.last_b = if op == 0x81 {
            let imm = u32::from_le_bytes(code[*i..*i + 4].try_into().unwrap());
            if w { imm as i32 as i64 as u64 } else { imm as u64 }
        } else {
            self.regs[reg]
        };
        match op {
            0x89 => self.regs[rm] = self.regs[reg] & mask,
            0x01 => self.regs[rm] = self.regs[rm].wrapping_add(self.regs[reg]) & mask,
            0x11 => {
                let c = self.flags & CF;
                self.regs[rm] = self.regs[rm].wrapping_add(self.regs[reg]).wrapping_add(c) & mask;
                self.flags = 0xDEAD_0000;
            }
            0x19 => {
                let c = self.flags & CF;
                self.regs[rm] = self.regs[rm].wrapping_sub(self.regs[reg]).wrapping_sub(c) & mask;
                self.flags = 0xDEAD_0000;
            }
            0x29 => self.regs[rm] = self.regs[rm].wrapping_sub(self.regs[reg]) & mask,
            0x09 => self.regs[rm] = (self.regs[rm] | self.regs[reg]) & mask,
            0x21 => self.regs[rm] = (self.regs[rm] & self.regs[reg]) & mask,
            0x31 => self.regs[rm] = (self.regs[rm] ^ self.regs[reg]) & mask,
            0x63 => self.regs[reg] = self.regs[rm] as u32 as i32 as i64 as u64,
            0xC7 | 0x81 => {
                let imm = u32::from_le_bytes(code[*i..*i + 4].try_into().unwrap());
                *i += 4;
                let v = if w { imm as i32 as i64 as u64 } else { imm as u64 };
                let ext = (reg & 7) as u8;
                let d = self.regs[rm];
                self.regs[rm] = if op == 0xC7 {
                    v
                } else {
                    match ext {
                        0 => d.wrapping_add(v),
                        1 => d | v,
                        4 => d & v,
                        5 => d.wrapping_sub(v),
                        6 => d ^ v,
                        7 => d,
                        _ => panic!("81 /{}", ext),
                    }
                } & mask;
                if op == 0x81 {
                    self.flags = 0xDEAD_0000;
                }
            }
            0xC1 => {
                let c = (code[*i] & 63) as u32;
                *i += 1;
                let d = self.regs[rm];
                self.regs[rm] = if w {
                    match (reg & 7) as u8 {
                        4 => d << c,
                        5 => d >> c,
                        7 => ((d as i64) >> c) as u64,
                        1 => d.rotate_right(c),
                        e => panic!("C1 /{}", e),
                    }
                } else {
                    let c = c & 31;
                    let d = d as u32;
                    (match (reg & 7) as u8 {
                        4 => d << c,
                        5 => d >> c,
                        7 => ((d as i32) >> c) as u32,
                        1 => d.rotate_right(c),
                        e => panic!("C1 /{}", e),
                    }) as u64
                };
                self.flags = 0xDEAD_0000;
            }
            0xD3 => {
                let c = (self.regs[1] & 63) as u32;
                let d = self.regs[rm];
                self.regs[rm] = match (reg & 7) as u8 {
                    1 => d.rotate_right(c),
                    4 => d << c,
                    5 => d >> c,
                    7 => ((d as i64) >> c) as u64,
                    e => panic!("D3 /{}", e),
                };
                self.flags = 0xDEAD_0000;
            }
            0x39 => self.flags = self.sub_flags(self.regs[rm], self.regs[reg], w),
            0x85 => {
                let r = self.regs[rm] & self.regs[reg] & mask;
                let top = if w { r >> 63 } else { r >> 31 };
                self.flags = if r == 0 { ZF } else { 0 } | if top == 1 { SF } else { 0 };
            }
            0xAF => self.regs[reg] = self.regs[reg].wrapping_mul(self.regs[rm]) & mask,
            0x90..=0x9F => {
                let bit = x86_cond(0x80 + (op & 0xF), self.flags) as u64;
                self.regs[rm] = (self.regs[rm] & !0xff) | bit;
            }
            0xB6 => self.regs[reg] = self.regs[rm] & 0xff,
            0x40..=0x4F => {
                if x86_cond(0x80 + (op & 0xF), self.flags) {
                    self.regs[reg] = self.regs[rm];
                }
            }
            0xF7 => match (reg & 7) as u8 {
                2 => self.regs[rm] = !self.regs[rm] & mask,
                4 if w => {
                    let p = self.regs[0] as u128 * self.regs[rm] as u128;
                    self.regs[0] = p as u64;
                    self.regs[2] = (p >> 64) as u64;
                    self.flags = 0xDEAD_0000;
                }
                5 if w => {
                    let p = self.regs[0] as i64 as i128 * self.regs[rm] as i64 as i128;
                    self.regs[0] = p as u64;
                    self.regs[2] = (p >> 64) as u64;
                    self.flags = 0xDEAD_0000;
                }
                6 if w => {
                    let n = ((self.regs[2] as u128) << 64) | self.regs[0] as u128;
                    let d = self.regs[rm] as u128;
                    assert!(d != 0 && n / d <= u64::MAX as u128, "div fault");
                    self.regs[0] = (n / d) as u64;
                    self.regs[2] = (n % d) as u64;
                    self.flags = 0xDEAD_0000;
                }
                3 => {
                    self.regs[rm] = self.regs[rm].wrapping_neg() & mask;
                    self.flags = 0xDEAD_0000;
                }
                e => panic!("F7 /{}", e),
            },
            _ => panic!("register form {:02x}", op),
        }
        if matches!(op, 0x01 | 0x29 | 0x09 | 0x21 | 0x31) {
            self.flags = 0xDEAD_0000;
        }
        if op == 0x29 || (op == 0x81 && (reg & 7 == 5 || reg & 7 == 7)) {
            self.flags = self.sub_flags(self.last_a, self.last_b, w);
        }
        if op == 0x01 || (op == 0x81 && reg & 7 == 0) {
            self.flags = self.add_flags(self.last_a, self.last_b, w);
        }
    }

    fn slot(&self, off: i32) -> u64 {
        self.read(BASE.wrapping_add(off as i64 as u64), 8)
    }
}

fn code(f: impl FnOnce(&mut CodeBuf)) -> Vec<u8> {
    let mut buf = CodeBuf::new();
    f(&mut buf);
    buf.as_slice().to_vec()
}

fn bit(v: u64, b: u32) -> bool {
    (v >> b) & 1 == 1
}

fn x86_cond(cc: u8, e: u64) -> bool {
    let (cf, pf, zf, sf, of) = (bit(e, 0), bit(e, 2), bit(e, 6), bit(e, 7), bit(e, 11));
    match cc & 0xf {
        0 => of,
        1 => !of,
        2 => cf,
        3 => !cf,
        4 => zf,
        5 => !zf,
        6 => cf || zf,
        7 => !cf && !zf,
        8 => sf,
        9 => !sf,
        10 => pf,
        11 => !pf,
        12 => sf != of,
        13 => sf == of,
        14 => zf || sf != of,
        _ => !zf && sf == of,
    }
}

fn arm_cond(cond: u8, n: bool, z: bool, c: bool, v: bool) -> bool {
    match cond {
        0 => z,
        1 => !z,
        2 => c,
        3 => !c,
        4 => n,
        5 => !n,
        6 => v,
        7 => !v,
        8 => c && !z,
        9 => !(c && !z),
        10 => n == v,
        11 => n != v,
        12 => !z && n == v,
        13 => !(!z && n == v),
        _ => true,
    }
}

#[test]
fn store_nzcv_packs_the_live_flags() {
    for bits in 0u64..16 {
        let f = 0x202
            | if bits & 1 != 0 { CF } else { 0 }
            | if bits & 2 != 0 { ZF } else { 0 }
            | if bits & 4 != 0 { SF } else { 0 }
            | if bits & 8 != 0 { OF } else { 0 }
            | PF;
        let mut cpu = Cpu::new();
        cpu.flags = f;
        let regs = cpu.regs;
        cpu.run(&code(store_nzcv));
        let word = cpu.read(BASE + NZCV_OFF as u64, 4);
        let expect = (bit(f, 7) as u64) << 31
            | (bit(f, 6) as u64) << 30
            | (bit(f, 0) as u64) << 29
            | (bit(f, 11) as u64) << 28;
        assert_eq!(word, expect);
        assert_eq!(cpu.regs, regs);
        assert!(cpu.stack.is_empty());
    }
}

#[test]
fn nzcv_roundtrip_restores_the_flags() {
    for bits in 0u64..16 {
        let f = 0x202
            | if bits & 1 != 0 { CF } else { 0 }
            | if bits & 2 != 0 { ZF } else { 0 }
            | if bits & 4 != 0 { SF } else { 0 }
            | if bits & 8 != 0 { OF } else { 0 };
        let mut cpu = Cpu::new();
        cpu.flags = f;
        let regs = cpu.regs;
        cpu.run(&code(store_nzcv));
        cpu.run(&code(load_nzcv_to_eflags));
        let e = cpu.flags;
        for b in [0, 6, 7, 11] {
            assert_eq!(bit(e, b), bit(f, b), "flag bit {} of {:#x}", b, f);
        }
        assert!(!bit(e, 2));
        let mut expect = regs;
        expect[RDX as usize] = e;
        assert_eq!(cpu.regs, expect);
    }
}

#[test]
fn branches_after_the_roundtrip_follow_the_arm_condition() {
    for bits in 0u64..16 {
        let f = 0x202
            | if bits & 1 != 0 { CF } else { 0 }
            | if bits & 2 != 0 { ZF } else { 0 }
            | if bits & 4 != 0 { SF } else { 0 }
            | if bits & 8 != 0 { OF } else { 0 };
        let mut cpu = Cpu::new();
        cpu.flags = f;
        cpu.run(&code(store_nzcv));
        cpu.run(&code(load_nzcv_to_eflags));
        let (n, z, c, v) = (bit(f, 7), bit(f, 6), !bit(f, 0), bit(f, 11));
        for cond in 0u8..14 {
            let cc = x86_cc_for_cond(cond).unwrap();
            assert_eq!(x86_cond(cc, cpu.flags), arm_cond(cond, n, z, c, v), "cond {}", cond);
        }
    }
}

#[test]
fn fp_compares_store_the_fcmp_flags() {
    // (comisd flags, fcmp N Z C V)
    let cases = [
        (CF, (true, false, false, false)),
        (ZF, (false, true, true, false)),
        (0, (false, false, true, false)),
        (CF | ZF | PF, (false, false, true, true)),
    ];
    for (flags, (n, z, c, v)) in cases {
        let mut cpu = Cpu::new();
        cpu.flags = 0x202 | flags;
        let regs = cpu.regs;
        cpu.run(&code(store_nzcv_fp));
        let word = cpu.read(BASE + NZCV_OFF as u64, 4);
        let expect = (n as u64) << 31 | (z as u64) << 30 | (!c as u64) << 29 | (v as u64) << 28;
        assert_eq!(word, expect);
        for r in 0..16 {
            if r != RDI as usize {
                assert_eq!(cpu.regs[r], regs[r]);
            }
        }
        cpu.run(&code(load_nzcv_to_eflags));
        for cond in 0u8..14 {
            let cc = x86_cc_for_cond(cond).unwrap();
            assert_eq!(x86_cond(cc, cpu.flags), arm_cond(cond, n, z, c, v));
        }
    }
}

#[test]
fn nan_is_not_less_or_equal() {
    // b.ls after an unordered compare must not be taken.
    let mut cpu = Cpu::new();
    cpu.flags = 0x202 | CF | ZF | PF;
    cpu.run(&code(store_nzcv_fp));
    cpu.run(&code(load_nzcv_to_eflags));
    assert!(!x86_cond(x86_cc_for_cond(9).unwrap(), cpu.flags));
    assert!(!x86_cond(x86_cc_for_cond(0).unwrap(), cpu.flags));
}

#[test]
fn guest_registers_read_back() {
    let mut cpu = Cpu::new();
    cpu.regs[RCX as usize] = 0xdead_beef_0123_4567;
    cpu.run(&code(|b| stg(b, 7, RCX)));
    assert_eq!(cpu.slot(56), 0xdead_beef_0123_4567);
    cpu.run(&code(|b| ldg(b, R10, 7)));
    assert_eq!(cpu.regs[R10 as usize], 0xdead_beef_0123_4567);
    cpu.run(&code(|b| stg0(b, 7)));
    assert_eq!(cpu.slot(56), 0);
    assert_eq!(cpu.regs[RAX as usize], 0);
}

#[test]
fn xzr_source_and_destination() {
    let mut cpu = Cpu::new();
    cpu.write(BASE + 248, 0x5555, 8);
    cpu.run(&code(|b| ldg_src(b, 31)));
    assert_eq!(cpu.regs[RAX as usize], 0);
    cpu.write(BASE + 240, 0x7777, 8);
    cpu.run(&code(|b| ldg_src(b, 30)));
    assert_eq!(cpu.regs[RAX as usize], 0x7777);
    cpu.regs[RAX as usize] = 9;
    cpu.run(&code(|b| stg_if_writable(b, 31)));
    assert_eq!(cpu.slot(248), 0x5555);
    cpu.run(&code(|b| stg_if_writable(b, 3)));
    assert_eq!(cpu.slot(24), 9);
}

#[test]
fn guest_immediates_land_in_the_slot() {
    for val in [0u64, 5, u64::MAX, 0xffff_ffff, 0x8000_0000, 0xffff_ffff_8000_0000, 0x1234_5678_9abc_def0] {
        let mut cpu = Cpu::new();
        cpu.run(&code(|b| mov_guest_imm(b, 4, val)));
        assert_eq!(cpu.slot(32), val);
        assert_eq!(cpu.regs[RAX as usize], val);
    }
}

#[test]
fn zext_w_clears_the_upper_half() {
    let mut cpu = Cpu::new();
    cpu.regs[RCX as usize] = 0xffff_ffff_8000_0001;
    cpu.run(&code(|b| zext_w(b, RCX)));
    assert_eq!(cpu.regs[RCX as usize], 0x8000_0001);
}

#[test]
fn shifted_operands() {
    let run = |v: u64, kind: ShiftKind, amt: u8, sf: bool| {
        let mut cpu = Cpu::new();
        cpu.regs[RCX as usize] = v;
        cpu.run(&code(|b| apply_shift_const(b, RCX, kind, amt, sf)));
        cpu.regs[RCX as usize]
    };
    // asr w, #1 of 0x80000000 is 0xc0000000 in the low 32 bits.
    assert_eq!(run(0x8000_0000, ShiftKind::Asr, 1, false) as u32, 0xc000_0000);
    // the magic-division sign correction: asr w, #31 of a negative value is -1.
    assert_eq!(run(0xffff_fff0, ShiftKind::Asr, 31, false) as u32, 0xffff_ffff);
    assert_eq!(run(0x8000_0000, ShiftKind::Asr, 1, true), 0x4000_0000);
    assert_eq!(run(0x8000_0000_0000_0000, ShiftKind::Asr, 4, true), 0xf800_0000_0000_0000);
    assert_eq!(run(3, ShiftKind::Lsl, 3, true), 24);
    assert_eq!(run(0x80, ShiftKind::Lsr, 4, false), 8);
    assert_eq!(run(1, ShiftKind::Ror, 1, true), 0x8000_0000_0000_0000);
    assert_eq!(run(77, ShiftKind::Lsl, 0, true), 77);
    // a W rotate stays within the low 32 bits
    assert_eq!(run(1, ShiftKind::Ror, 1, false), 0x8000_0000);
    assert_eq!(run(0x1234_5678, ShiftKind::Ror, 8, false), 0x7812_3456);
}

#[test]
fn permute_source_copies_an_aliased_register() {
    let mut cpu = Cpu::new();
    let v5 = BASE + (VECTOR_BASE + 5 * 16) as u64;
    cpu.write(v5, 0x0011_2233_4455_6677, 8);
    cpu.write(v5 + 8, 0x8899_aabb_ccdd_eeff, 8);
    let mut buf = CodeBuf::new();
    let off = permute_source(&mut buf, 5, 5, true);
    cpu.run(buf.as_slice());
    assert_eq!(cpu.slot(off), 0x0011_2233_4455_6677);
    assert_eq!(cpu.slot(off + 8), 0x8899_aabb_ccdd_eeff);
    assert_eq!(cpu.read(v5, 8), 0x0011_2233_4455_6677);
}

#[test]
fn scalar_transfers_touch_only_the_low_bytes() {
    for size in [1u8, 2, 4, 8] {
        let mut cpu = Cpu::new();
        let slot = BASE + 0x110;
        cpu.write(slot, 0xaaaa_aaaa_aaaa_aaaa, 8);
        cpu.write(slot + 8, 0xbbbb_bbbb_bbbb_bbbb, 8);
        let src = 0x20_0000u64;
        cpu.regs[RDX as usize] = src;
        cpu.write(src, 0x0102_0304_0506_0708, 8);
        let mut buf = CodeBuf::new();
        fp_scalar_xfer(&mut buf, RDX, 0x110, size, true).unwrap();
        cpu.run(buf.as_slice());
        let n = size as u64;
        let mask = if n == 8 { u64::MAX } else { (1u64 << (8 * n)) - 1 };
        assert_eq!(cpu.read(slot, 8), (0xaaaa_aaaa_aaaa_aaaa & !mask) | (0x0102_0304_0506_0708 & mask));
        assert_eq!(cpu.read(slot + 8, 8), 0xbbbb_bbbb_bbbb_bbbb);
        // and back out to memory
        let dst = 0x30_0000u64;
        cpu.regs[RDX as usize] = dst;
        let mut back = CodeBuf::new();
        fp_scalar_xfer(&mut back, RDX, 0x110, size, false).unwrap();
        cpu.run(back.as_slice());
        assert_eq!(cpu.read(dst, n), 0x0102_0304_0506_0708 & mask);
        assert_eq!(cpu.read(dst + n, 1), 0);
    }
}

const HOST: HostLinks =
    HostLinks { svc_entry: 0, sha_entry: 0, svc_next_off: 0x900, redirect_off: 0x908, tpidr_off: 0x910, cntvct_off: 0x918 };

fn lowered(pc: u64, inst: Inst) -> Vec<u8> {
    let mut buf = CodeBuf::new();
    let mut fixups: Vec<Fixup> = Vec::new();
    translate(&mut buf, pc, inst, &mut fixups, HOST).unwrap();
    buf.as_slice().to_vec()
}

#[test]
fn movz_movk_build_a_constant() {
    let mut cpu = Cpu::new();
    cpu.run(&lowered(0, Inst::MoveWide { rd: 5, imm16: 0x8bb1, hw: 0, opc: 0, sf: true }));
    cpu.run(&lowered(0, Inst::MoveWide { rd: 5, imm16: 0x2, hw: 1, opc: 1, sf: true }));
    assert_eq!(cpu.slot(40), 0x2_8bb1);
    cpu.run(&lowered(0, Inst::MoveWide { rd: 5, imm16: 0xdead, hw: 3, opc: 1, sf: true }));
    assert_eq!(cpu.slot(40), 0xdead_0000_0002_8bb1);
    cpu.run(&lowered(0, Inst::MoveWide { rd: 6, imm16: 2, hw: 0, opc: 2, sf: false }));
    assert_eq!(cpu.slot(48), 0xffff_fffd);
}

#[test]
fn loads_and_stores_reach_guest_memory() {
    let mut cpu = Cpu::new();
    let data = 0x20_0000u64;
    cpu.write(BASE + 8, data, 8); // x1 = data
    cpu.write(data + 16, 0x0123_4567_89ab_cdef, 8);
    // ldr x0, [x1, #16]
    cpu.run(&lowered(0, Inst::LdStrImm { rt: 0, rn: 1, imm: 2, size: 8, ld: true, sext: false }));
    assert_eq!(cpu.slot(0), 0x0123_4567_89ab_cdef);
    // ldrh w2, [x1, #16]
    cpu.run(&lowered(0, Inst::LdStrImm { rt: 2, rn: 1, imm: 8, size: 2, ld: true, sext: false }));
    assert_eq!(cpu.slot(16), 0xcdef);
    // strb wzr, [x1, #17]
    cpu.run(&lowered(0, Inst::LdStrImm { rt: 31, rn: 1, imm: 17, size: 1, ld: false, sext: false }));
    assert_eq!(cpu.read(data + 16, 8), 0x0123_4567_89ab_00ef);
    // str x0, [x1], #8 (post-index): stores at x1, then x1 += 8
    cpu.run(&lowered(
        0,
        Inst::LdStrImmWb { rt: 0, rn: 1, imm9: 8, size: 8, ld: false, sext: false, writeback: true, pre: false },
    ));
    assert_eq!(cpu.read(data, 8), 0x0123_4567_89ab_cdef);
    assert_eq!(cpu.slot(8), data + 8);
    // ldr x3, [x1, #-8]! (pre-index): loads at x1 - 8, then x1 -= 8
    cpu.run(&lowered(
        0,
        Inst::LdStrImmWb { rt: 3, rn: 1, imm9: -8, size: 8, ld: true, sext: false, writeback: true, pre: true },
    ));
    assert_eq!(cpu.slot(24), 0x0123_4567_89ab_cdef);
    assert_eq!(cpu.slot(8), data);
}

#[test]
fn register_arithmetic_runs() {
    let mut cpu = Cpu::new();
    cpu.write(BASE + 8, 100, 8);
    cpu.write(BASE + 16, 3, 8);
    // add x0, x1, x2, lsl #4 = 100 + 48
    cpu.run(&lowered(
        0,
        Inst::AddSubReg {
            rd: 0,
            rn: 1,
            rm: 2,
            sub: false,
            s: false,
            shift: ShiftKind::Lsl,
            sh_amt: 4,
            sf: true,
            sp_operand: false,
        },
    ));
    assert_eq!(cpu.slot(0), 148);
    // sub w4, w2, w1: 3 - 100 wraps in 32 bits and zero-extends
    cpu.run(&lowered(
        0,
        Inst::AddSubReg {
            rd: 4,
            rn: 2,
            rm: 1,
            sub: true,
            s: false,
            shift: ShiftKind::Lsl,
            sh_amt: 0,
            sf: false,
            sp_operand: false,
        },
    ));
    assert_eq!(cpu.slot(32), 0xffff_ff9f);
    // eor x5, x1, x2
    cpu.run(&lowered(
        0,
        Inst::LogicReg { rd: 5, rn: 1, rm: 2, op: 2, s: false, shift: ShiftKind::Lsl, sh_amt: 0, sf: true },
    ));
    assert_eq!(cpu.slot(40), 100 ^ 3);
    // adrp x6, #0x3000 at pc 0x1234
    cpu.run(&lowered(0x1234, Inst::Adrp { rd: 6, imm: 0x3000 }));
    assert_eq!(cpu.slot(48), 0x4000);
}

#[test]
fn bitfield_extracts_run() {
    let run = |inst: Inst, x1: u64| -> u64 {
        let mut cpu = Cpu::new();
        cpu.write(BASE + 8, x1, 8);
        cpu.run(&lowered(0, inst));
        cpu.slot(0)
    };
    let bf = |immr: u32, imms: u32, sf: bool, arith: bool| Inst::BitField {
        rd: 0,
        rn: 1,
        immr,
        imms,
        sf,
        arith,
        insert: false,
    };
    // lsr x0, x1, #4
    assert_eq!(run(bf(4, 63, true, false), 0xf000_0000_0000_00f0), 0x0f00_0000_0000_000f);
    // asr x0, x1, #4
    assert_eq!(run(bf(4, 63, true, true), 0xf000_0000_0000_00f0), 0xff00_0000_0000_000f);
    // lsl w0, w1, #3 drops the upper half of x1
    assert_eq!(run(bf(29, 28, false, false), 0xffff_ffff_1000_0001), 0x8000_0008);
    // sxtw x0, w1
    assert_eq!(run(bf(0, 31, true, true), 0x1_8000_0001), 0xffff_ffff_8000_0001);
    // ubfx w0, w1, #8, #8
    assert_eq!(run(bf(8, 15, false, false), 0xdead_beef), 0xbe);
    // sbfx w0, w1, #4, #8: the field 0xf8 is -8
    assert_eq!(run(bf(4, 11, false, true), 0xf80), 0xffff_fff8);
    // ubfiz x0, x1, #8, #4
    assert_eq!(run(bf(56, 3, true, false), 0xff), 0xf00);
}

#[test]
fn pairs_and_register_offsets_run() {
    let mut cpu = Cpu::new();
    let stack = 0x30_0000u64;
    cpu.write(BASE + 248, stack, 8); // sp
    cpu.write(BASE + 8, 0x1111, 8); // x1
    cpu.write(BASE + 16, 0x2222, 8); // x2
    let pair = |rt: u8, rt2: u8, imm: i32, ld: bool, preidx: bool| Inst::LdStPair {
        rt,
        rt2,
        rn: 31,
        imm,
        ld,
        writeback: true,
        preidx,
        size_64: true,
        q128: false,
        fp_d: false,
        fp_s: false,
        sext: false,
    };
    // stp x1, x2, [sp, #-16]!
    cpu.run(&lowered(0, pair(1, 2, -16, false, true)));
    assert_eq!(cpu.slot(248), stack - 16);
    assert_eq!(cpu.read(stack - 16, 8), 0x1111);
    assert_eq!(cpu.read(stack - 8, 8), 0x2222);
    // ldp x3, x4, [sp], #16
    cpu.run(&lowered(0, pair(3, 4, 16, true, false)));
    assert_eq!(cpu.slot(24), 0x1111);
    assert_eq!(cpu.slot(32), 0x2222);
    assert_eq!(cpu.slot(248), stack);
    // ldr x5, [x6, w7, uxtw #3]: the upper half of x7 is dropped
    let table = 0x40_0000u64;
    cpu.write(BASE + 48, table, 8);
    cpu.write(BASE + 56, 0x1_0000_0002, 8);
    cpu.write(table + 16, 0xabcd, 8);
    cpu.run(&lowered(
        0,
        Inst::LdStrReg { rt: 5, rn: 6, rm: 7, size: 8, ld: true, shift: true, sext: false, index_ext: 2 },
    ));
    assert_eq!(cpu.slot(40), 0xabcd);
}

#[test]
fn rbit_reverses_all_64_bits() {
    for (x, want) in [(1u64, 1u64 << 63), (0xf0, 0x0f00_0000_0000_0000), (0x8000_0000_0000_0001, 0x8000_0000_0000_0001)] {
        let mut cpu = Cpu::new();
        cpu.write(BASE + 8, x, 8);
        cpu.run(&lowered(0, Inst::Rev { rd: 0, rn: 1, op: 0, sf: true }));
        assert_eq!(cpu.slot(0), want);
    }
}

#[test]
fn br_and_ret_set_the_guest_pc() {
    let mut cpu = Cpu::new();
    cpu.write(BASE + 8 * 9, 0x4000_1234, 8);
    cpu.run(&lowered(0, Inst::Br { rn: 9 }));
    assert_eq!(cpu.slot(256), 0x4000_1234);
    cpu.write(BASE + 240, 0x4000_5678, 8);
    cpu.write(BASE, 77, 8);
    cpu.run(&lowered(0, Inst::Ret));
    assert_eq!(cpu.slot(256), 0x4000_5678);
    assert_eq!(cpu.regs[RAX as usize], 77);
}

#[test]
fn scalar_fp_transfers_run() {
    let mut cpu = Cpu::new();
    let data = 0x50_0000u64;
    cpu.write(BASE + 16, data, 8); // x2
    cpu.write(BASE + VECTOR_BASE as u64 + 16, 0x1122_3344_5566_7788, 8); // d1
    cpu.write(BASE + VECTOR_BASE as u64 + 24, 0x99, 8); // upper half of v1
    // str d1, [x2], #8
    cpu.run(&lowered(0, Inst::FpLdStImmWb { vt: 1, rn: 2, imm9: 8, size: 8, ld: false, pre: false }));
    assert_eq!(cpu.read(data, 8), 0x1122_3344_5566_7788);
    assert_eq!(cpu.slot(16), data + 8);
    // ldr s4, [x2, #-8]! loads the low word, the rest of v4 stays
    cpu.write(BASE + VECTOR_BASE as u64 + 64, 0xffff_ffff_ffff_ffff, 8);
    cpu.run(&lowered(0, Inst::FpLdStImmWb { vt: 4, rn: 2, imm9: -8, size: 4, ld: true, pre: true }));
    assert_eq!(cpu.read(BASE + VECTOR_BASE as u64 + 64, 8), 0xffff_ffff_5566_7788);
    assert_eq!(cpu.slot(16), data);
    assert_eq!(cpu.read(BASE + VECTOR_BASE as u64 + 24, 8), 0x99);
}

#[test]
fn fp_moves_copy_bits() {
    let mut cpu = Cpu::new();
    let v = |r: u64| BASE + VECTOR_BASE as u64 + 16 * r;
    cpu.write(BASE + 24, 0xaaaa_bbbb_cccc_dddd, 8); // x3
    cpu.write(v(2), 0x1111_2222_3333_4444, 8);
    // fmov s2, w3 keeps the upper half of d2
    cpu.run(&lowered(0, Inst::FmovGp { f: false, sz: false, half: false, rd: 2, rn: 3 }));
    assert_eq!(cpu.read(v(2), 8), 0x1111_2222_cccc_dddd);
    // fmov x0, d2
    cpu.run(&lowered(0, Inst::FmovGp { f: true, sz: true, half: false, rd: 0, rn: 2 }));
    assert_eq!(cpu.slot(0), 0x1111_2222_cccc_dddd);
    // bic v2 halves, then movi
    cpu.write(v(2) + 8, 0xffff, 8);
    cpu.run(&lowered(0, Inst::VecMovi { vd: 2, lo: 0xffff_0000_ffff_0000, hi: 0xff, kind: 1 }));
    assert_eq!(cpu.read(v(2), 8), 0x1111_0000_cccc_0000);
    assert_eq!(cpu.read(v(2) + 8, 8), 0xff);
}

#[test]
fn subs_stores_the_compare_flags() {
    // cmp x1, #5 and subs x2, x1, #5 for a few x1
    for (x1, n, z, c, v) in [
        (3u64, true, false, true, false),
        (5, false, true, false, false),
        (9, false, false, false, false),
        (0x8000_0000_0000_0000, false, false, false, true),
    ] {
        for rd in [31u8, 2] {
            let mut cpu = Cpu::new();
            cpu.write(BASE + 8, x1, 8);
            let inst = Inst::AddSubImm { rd, rn: 1, imm12: 5, shift12: false, sub: true, s: true, sf: true };
            cpu.run(&lowered(0, inst));
            let want = (n as u64) << 31 | (z as u64) << 30 | (c as u64) << 29 | (v as u64) << 28;
            assert_eq!(cpu.read(BASE + NZCV_OFF as u64, 4), want, "x1 = {:x}", x1);
            if rd == 2 {
                assert_eq!(cpu.slot(16), x1.wrapping_sub(5));
            }
        }
    }
}

#[test]
fn adds_stores_the_add_flags() {
    // cmn x1, #5 and adds x2, x1, #5: C is stored as "no carry out"
    for (x1, n, z, c, v) in [
        (3u64, false, false, true, false),
        (u64::MAX - 4, false, true, false, false),
        (u64::MAX, false, false, false, false),
        (0x7fff_ffff_ffff_fffe, true, false, true, true),
    ] {
        for rd in [31u8, 2] {
            let mut cpu = Cpu::new();
            cpu.write(BASE + 8, x1, 8);
            let inst = Inst::AddSubImm { rd, rn: 1, imm12: 5, shift12: false, sub: false, s: true, sf: true };
            cpu.run(&lowered(0, inst));
            let want = (n as u64) << 31 | (z as u64) << 30 | (c as u64) << 29 | (v as u64) << 28;
            assert_eq!(cpu.read(BASE + NZCV_OFF as u64, 4), want, "x1 = {:x}", x1);
            if rd == 2 {
                assert_eq!(cpu.slot(16), x1.wrapping_add(5));
            }
        }
    }
}

#[test]
fn atomics_return_the_old_value() {
    let mut cpu = Cpu::new();
    let cell = 0x60_0000u64;
    cpu.write(BASE + 16, cell, 8); // x2 = &cell
    cpu.write(cell, 40, 8);
    cpu.write(BASE, 2, 8); // x0 = 2
    // ldadd x0, x1, [x2]
    cpu.run(&lowered(0, Inst::LseAtomic { op: 0, size64: true, rs: 0, rn: 2, rt: 1 }));
    assert_eq!(cpu.read(cell, 8), 42);
    assert_eq!(cpu.slot(8), 40);
    // swp w0, w3, [x2]: 32 bits, the upper half of the cell stays
    cpu.write(cell, 0x1_0000_0007, 8);
    cpu.run(&lowered(0, Inst::LseAtomic { op: 4, size64: false, rs: 0, rn: 2, rt: 3 }));
    assert_eq!(cpu.read(cell, 8), 0x1_0000_0002);
    assert_eq!(cpu.slot(24), 7);
    // ldeor x0, xzr, [x2] (stadd-like: no result register)
    cpu.write(cell, 0xff, 8);
    cpu.run(&lowered(0, Inst::LseAtomic { op: 2, size64: true, rs: 0, rn: 2, rt: 31 }));
    assert_eq!(cpu.read(cell, 8), 0xfd);
}

#[test]
fn fp_register_offset_load_runs() {
    let mut cpu = Cpu::new();
    let table = 0x70_0000u64;
    cpu.write(BASE + 8, table, 8); // x1
    cpu.write(BASE + 16, 0xffff_ffff_0000_0003, 8); // x2: uxtw keeps 3
    cpu.write(table + 12, 0x4049_0fdb, 4);
    // ldr s5, [x1, w2, uxtw #2]
    cpu.run(&lowered(
        0,
        Inst::FpLdStrReg { vt: 5, rn: 1, rm: 2, size: 4, ld: true, shift: true, index_ext: 2 },
    ));
    assert_eq!(cpu.read(BASE + VECTOR_BASE as u64 + 80, 4), 0x4049_0fdb);
}

#[test]
fn csel_family_selects_on_the_stored_flags() {
    for bits in 0u64..16 {
        let (n, z, c, v) = (bits & 8 != 0, bits & 4 != 0, bits & 2 != 0, bits & 1 != 0);
        for cond in 0u8..14 {
            for op in 0u8..4 {
                let mut cpu = Cpu::new();
                cpu.write(BASE + NZCV_OFF as u64, bits << 28, 4);
                cpu.write(BASE + 8, 5, 8); // x1
                cpu.write(BASE + 16, 9, 8); // x2
                cpu.run(&lowered(0, Inst::CSel { rd: 0, rn: 1, rm: 2, cond, op, sf: true }));
                // the stored C is the borrow: the AArch64 C is its complement
                let want = if arm_cond(cond, n, z, !c, v) {
                    5
                } else {
                    match op {
                        0 => 9,
                        1 => 10,
                        2 => !9u64,
                        _ => 9u64.wrapping_neg(),
                    }
                };
                assert_eq!(cpu.slot(0), want, "cond {} op {} nzcv {:04b}", cond, op, bits);
            }
        }
    }
}

#[test]
fn nzcv_load_then_store_keeps_the_flag_bits() {
    for word in [0xF000_0000u64, 0x5123_4567, 0xA000_0001, 0x0FFF_FFFF] {
        let mut cpu = Cpu::new();
        cpu.write(BASE + NZCV_OFF as u64, word, 4);
        let regs = cpu.regs;
        cpu.run(&code(load_nzcv_to_eflags));
        cpu.run(&code(store_nzcv));
        assert_eq!(cpu.read(BASE + NZCV_OFF as u64, 4), word & 0xF000_0000);
        for r in 0..16 {
            if r != RDX as usize {
                assert_eq!(cpu.regs[r], regs[r], "register {}", r);
            }
        }
    }
}

#[test]
fn full_width_bfxil_copies_the_register() {
    let mut cpu = Cpu::new();
    cpu.write(BASE, 0x1234, 8); // x0
    cpu.write(BASE + 8, 0xdead_beef_0bad_f00d, 8); // x1
    // bfxil x0, x1, #0, #64
    let inst = Inst::BitField { rd: 0, rn: 1, immr: 0, imms: 63, sf: true, arith: false, insert: true };
    let code = lowered(0, inst);
    // the field mask is all ones: mov rcx, 0xffff_ffff_ffff_ffff
    assert!(code.windows(10).any(|w| w == [0x48, 0xB9, 0xFF, 0xFF, 0xFF, 0xFF, 0xFF, 0xFF, 0xFF, 0xFF]));
    cpu.run(&code);
    assert_eq!(cpu.slot(0), 0xdead_beef_0bad_f00d);
}

fn vreg(r: u64) -> u64 {
    BASE + 272 + 16 * r
}

#[test]
fn vector_lane_operations_run() {
    let mut cpu = Cpu::new();
    for (k, v) in [7u32, 0xffff_fffe, 3, 5].iter().enumerate() {
        cpu.write(vreg(1) + 4 * k as u64, *v as u64, 4);
    }
    for (k, v) in [6u32, 2, 3, 9].iter().enumerate() {
        cpu.write(vreg(2) + 4 * k as u64, *v as u64, 4);
    }
    // mul v0.4s, v1.4s, v2.4s
    cpu.run(&lowered(0, Inst::SimdMul { rd: 0, rn: 1, rm: 2, lanes: 4 }));
    let lanes = |cpu: &Cpu, r: u64| (0..4).map(|k| cpu.read(vreg(r) + 4 * k, 4)).collect::<Vec<_>>();
    assert_eq!(lanes(&cpu, 0), vec![42, 0xffff_fffc, 9, 45]);
    // mla v0.4s, v1.4s, v2.s[0]: += v1 * 6
    cpu.run(&lowered(0, Inst::SimdMlaEl { rd: 0, rn: 1, rm: 2, index: 0, lanes: 4, sub: false }));
    assert_eq!(lanes(&cpu, 0), vec![84, 0xffff_fff0, 27, 75]);
    // cmhi / cmhs v3.4s, v1.4s, v2.4s
    cpu.run(&lowered(0, Inst::SimdCmhi { rd: 3, rn: 1, rm: 2, lanes: 4 }));
    assert_eq!(lanes(&cpu, 3), vec![0xffff_ffff, 0xffff_ffff, 0, 0]);
    cpu.run(&lowered(0, Inst::SimdCmhs { rd: 3, rn: 1, rm: 2, lanes: 4 }));
    assert_eq!(lanes(&cpu, 3), vec![0xffff_ffff, 0xffff_ffff, 0xffff_ffff, 0]);
    // cmtst v3.4s, v1.4s, v2.4s: 7&6, fffffffe&2, 3&3, 5&9
    cpu.run(&lowered(0, Inst::SimdCmTest { rd: 3, rn: 1, rm: 2, lanes: 4, esize: 4 }));
    assert_eq!(lanes(&cpu, 3), vec![0xffff_ffff, 0xffff_ffff, 0xffff_ffff, 0xffff_ffff]);
    cpu.write(vreg(2) + 12, 2, 4);
    cpu.run(&lowered(0, Inst::SimdCmTest { rd: 3, rn: 1, rm: 2, lanes: 4, esize: 4 }));
    assert_eq!(cpu.read(vreg(3) + 12, 4), 0);
}

#[test]
fn vector_64_bit_compares_and_sums_run() {
    let mut cpu = Cpu::new();
    cpu.write(vreg(1), 5, 8);
    cpu.write(vreg(1) + 8, 9, 8);
    cpu.write(vreg(2), 5, 8);
    cpu.write(vreg(2) + 8, 10, 8);
    // cmhs v0.2d: all ones where v1 >= v2 (the equal lane too)
    cpu.run(&lowered(0, Inst::SimdCmhsD { rd: 0, rn: 1, rm: 2 }));
    assert_eq!((cpu.read(vreg(0), 8), cpu.read(vreg(0) + 8, 8)), (u64::MAX, 0));
    // cmhi v0.2d: strictly above
    cpu.run(&lowered(0, Inst::SimdCmhiD { rd: 0, rn: 1, rm: 2 }));
    assert_eq!((cpu.read(vreg(0), 8), cpu.read(vreg(0) + 8, 8)), (0, 0));
    // add / sub v0.2d and addp d0, v1.2d
    cpu.run(&lowered(0, Inst::SimdAddD { rd: 0, rn: 1, rm: 2, sub: false }));
    assert_eq!((cpu.read(vreg(0), 8), cpu.read(vreg(0) + 8, 8)), (10, 19));
    cpu.run(&lowered(0, Inst::SimdAddD { rd: 0, rn: 1, rm: 2, sub: true }));
    assert_eq!((cpu.read(vreg(0), 8), cpu.read(vreg(0) + 8, 8)), (0, u64::MAX));
    cpu.run(&lowered(0, Inst::SimdPairAddD { rd: 0, rn: 1, unsigned: true }));
    assert_eq!(cpu.read(vreg(0), 8), 14);
    // orr v0.16b, v1.16b, v2.16b
    cpu.run(&lowered(0, Inst::SimdOrr16 { rd: 0, rn: 1, rm: 2 }));
    assert_eq!((cpu.read(vreg(0), 8), cpu.read(vreg(0) + 8, 8)), (5, 11));
    // cnt v0.8b, v3.8b then uaddlv h0, v0.8b: the bit count of the 8 bytes
    cpu.write(vreg(3), 0x0301_ff80_0f00_7f01, 8);
    cpu.run(&lowered(0, Inst::SimdPopcnt { rd: 0, rn: 3 }));
    assert_eq!(cpu.read(vreg(0), 8), 0x0201_0801_0400_0701);
    cpu.run(&lowered(0, Inst::SimdSum8 { rd: 0, rn: 0 }));
    assert_eq!(cpu.read(vreg(0), 8), 0x0301_ff80_0f00_7f01u64.count_ones() as u64);
}

#[test]
fn vector_byte_and_element_moves_run() {
    let mut cpu = Cpu::new();
    cpu.write(vreg(1), 0x8070_6050_4030_2010, 8);
    cpu.write(vreg(1) + 8, 0xf0e0_d0c0_b0a0_9080, 8);
    cpu.write(vreg(2), 0x8070_6050_4030_2010, 8);
    cpu.write(vreg(2) + 8, 0x0101_0101_0101_0101, 8);
    // cmhs (ge) on bytes: v1 >= v2 in every byte of the low half, not above 1 in the high
    cpu.run(&lowered(0, Inst::SimdCmhiB { rd: 0, rn: 1, rm: 2, lanes: 16, ge: true }));
    assert_eq!((cpu.read(vreg(0), 8), cpu.read(vreg(0) + 8, 8)), (u64::MAX, u64::MAX));
    cpu.run(&lowered(0, Inst::SimdCmhiB { rd: 0, rn: 1, rm: 2, lanes: 16, ge: false }));
    assert_eq!((cpu.read(vreg(0), 8), cpu.read(vreg(0) + 8, 8)), (0, u64::MAX));
    // bit v0.16b, v1.16b, v2.16b: v1 where v2 is set, v0 elsewhere
    cpu.write(vreg(0), 0, 8);
    cpu.write(vreg(0) + 8, 0, 8);
    cpu.run(&lowered(0, Inst::SimdBit { rd: 0, rn: 1, rm: 2, bif: false }));
    assert_eq!(cpu.read(vreg(0), 8), 0x8070_6050_4030_2010 & 0x8070_6050_4030_2010);
    assert_eq!(cpu.read(vreg(0) + 8, 8), 0xf0e0_d0c0_b0a0_9080 & 0x0101_0101_0101_0101);
    // smov x3, v1.b[15]; umov w4, v1.h[1]
    cpu.run(&lowered(0, Inst::SimdMovEl { rd: 3, rn: 1, esize: 1, index: 15, signed: true, is_x: true }));
    assert_eq!(cpu.slot(24), 0xffff_ffff_ffff_fff0);
    cpu.run(&lowered(0, Inst::SimdMovEl { rd: 4, rn: 1, esize: 2, index: 1, signed: false, is_x: false }));
    assert_eq!(cpu.read(BASE + 32, 4), 0x4030);
    // ins v5.s[2], w3; dup v6.8h, w3; dup v7.8b, v1.b[2] (high half cleared)
    cpu.run(&lowered(0, Inst::InsGp { rd: 5, rn: 3, esize: 4, index: 2 }));
    assert_eq!(cpu.read(vreg(5) + 8, 4), 0xffff_fff0);
    cpu.run(&lowered(0, Inst::SimdDupGp { rd: 6, rn: 3, esize: 2, q: true }));
    assert_eq!((cpu.read(vreg(6), 8), cpu.read(vreg(6) + 8, 8)), (0xfff0_fff0_fff0_fff0, 0xfff0_fff0_fff0_fff0));
    cpu.write(vreg(7) + 8, 0x1234, 8);
    cpu.run(&lowered(0, Inst::SimDup { rd: 7, rn: 1, esize: 1, src_idx: 2, q: false }));
    assert_eq!((cpu.read(vreg(7), 8), cpu.read(vreg(7) + 8, 8)), (0x3030_3030_3030_3030, 0));
    // shl v8.8h, v1.8h, #4
    cpu.run(&lowered(0, Inst::SimdShl { rd: 8, rn: 1, esize: 2, shift: 4 }));
    assert_eq!(cpu.read(vreg(8), 8), 0x0700_0500_0300_0100);
    // fmov v9.4s, #1.0
    cpu.run(&lowered(0, Inst::SimdFmovImm { rd: 9, esize: 4, value_bits: 0x3f80_0000, q: true }));
    assert_eq!((cpu.read(vreg(9), 8), cpu.read(vreg(9) + 8, 8)), (0x3f80_0000_3f80_0000, 0x3f80_0000_3f80_0000));
    // mov v10.d[1], v1.d[0]; mov v10.h[0], v1.h[3]
    cpu.run(&lowered(0, Inst::InsD1D0 { rd: 10, rn: 1 }));
    assert_eq!(cpu.read(vreg(10) + 8, 8), 0x8070_6050_4030_2010);
    cpu.run(&lowered(0, Inst::SimdInsD { rd: 10, rn: 1, dst_idx: 0, src_idx: 3, esize: 2 }));
    assert_eq!(cpu.read(vreg(10), 2), 0x8070);
}

#[test]
fn structure_loads_deinterleave_and_stores_interleave() {
    let mut cpu = Cpu::new();
    let mem = 0x50_0000u64;
    for i in 0..48u64 {
        cpu.write(mem + i, i, 1);
    }
    cpu.write(BASE + 8, mem, 8); // x1
    // ld2 {v4.8h, v5.8h}, [x1], #32: halfword elements alternate between v4 and v5
    cpu.run(&lowered(0, Inst::Ld2 { rd: 4, rn: 1, q: true, post: 32, esize: 2 }));
    for e in 0..8u64 {
        assert_eq!(cpu.read(vreg(4) + 2 * e, 2), (4 * e) | (4 * e + 1) << 8);
        assert_eq!(cpu.read(vreg(5) + 2 * e, 2), (4 * e + 2) | (4 * e + 3) << 8);
    }
    assert_eq!(cpu.slot(8), mem + 32);
    // st2 back to a second buffer reproduces the memory
    let out = 0x60_0000u64;
    cpu.write(BASE + 16, out, 8); // x2
    cpu.run(&lowered(0, Inst::St2 { rd: 4, rn: 2, q: true, post: 0, esize: 2 }));
    for i in 0..32u64 {
        assert_eq!(cpu.read(out + i, 1), i);
    }
    assert_eq!(cpu.slot(16), out);
    // ld3 {v6.8b, v7.8b, v8.8b}, [x2]: bytes in turn
    cpu.run(&lowered(0, Inst::Ld3N { rd: 6, rn: 2, q: false, post: 0, esize: 1 }));
    for e in 0..8u64 {
        assert_eq!(cpu.read(vreg(6) + e, 1), 3 * e);
        assert_eq!(cpu.read(vreg(8) + e, 1), 3 * e + 2);
    }
    // ld4 {v9.2s..v12.2s}, [x3] with 4-byte elements
    cpu.write(BASE + 24, mem, 8); // x3
    cpu.run(&lowered(0, Inst::Ld4N { rd: 9, rn: 3, q: false, post: 0, esize: 4 }));
    assert_eq!(cpu.read(vreg(10), 4), 0x0706_0504);
    assert_eq!(cpu.read(vreg(12) + 4, 4), 0x1f1e_1d1c);
    // st4 of the same four registers writes the same 32 bytes back
    let out2 = 0x70_0000u64;
    cpu.write(BASE + 32, out2, 8); // x4
    cpu.run(&lowered(0, Inst::St4N { rd: 9, rn: 4, q: false, post: 0, esize: 4 }));
    for i in 0..32u64 {
        assert_eq!(cpu.read(out2 + i, 1), i);
    }
    // ld1 {v13.s}[3], [x3]
    cpu.run(&lowered(0, Inst::Ld1L { rd: 13, rn: 3, esize: 4, index: 3 }));
    assert_eq!(cpu.read(vreg(13) + 12, 4), 0x0302_0100);
}

#[test]
fn permutes_reductions_and_table_lookups_run() {
    let mut cpu = Cpu::new();
    for i in 0..16u64 {
        cpu.write(vreg(1) + i, i, 1); // v1 = 0, 1, .., 15
        cpu.write(vreg(2) + i, 0x10 + i, 1); // v2 = 16, .., 31
    }
    let bytes = |cpu: &Cpu, r: u64| (0..16).map(|i| cpu.read(vreg(r) + i, 1) as u8).collect::<Vec<u8>>();
    // zip1 v0.16b, v1.16b, v2.16b
    cpu.run(&lowered(0, Inst::SimdZip1 { rd: 0, rn: 1, rm: 2, esize: 1, q: true }));
    assert_eq!(bytes(&cpu, 0), vec![0, 16, 1, 17, 2, 18, 3, 19, 4, 20, 5, 21, 6, 22, 7, 23]);
    // zip2 v0.16b
    cpu.run(&lowered(0, Inst::SimdZip2 { rd: 0, rn: 1, rm: 2, esize: 1, q: true }));
    assert_eq!(bytes(&cpu, 0), vec![8, 24, 9, 25, 10, 26, 11, 27, 12, 28, 13, 29, 14, 30, 15, 31]);
    // uzp1 / uzp2 v0.8h
    cpu.run(&lowered(0, Inst::SimdUz1 { rd: 0, rn: 1, rm: 2, esize: 2, q: true }));
    assert_eq!(bytes(&cpu, 0), vec![0, 1, 4, 5, 8, 9, 12, 13, 16, 17, 20, 21, 24, 25, 28, 29]);
    cpu.run(&lowered(0, Inst::SimdUz2 { rd: 0, rn: 1, rm: 2, esize: 2, q: true }));
    assert_eq!(bytes(&cpu, 0), vec![2, 3, 6, 7, 10, 11, 14, 15, 18, 19, 22, 23, 26, 27, 30, 31]);
    // trn1 / trn2 v0.4s
    cpu.run(&lowered(0, Inst::SimdTrn1 { rd: 0, rn: 1, rm: 2, esize: 4, q: true }));
    assert_eq!(bytes(&cpu, 0), vec![0, 1, 2, 3, 16, 17, 18, 19, 8, 9, 10, 11, 24, 25, 26, 27]);
    cpu.run(&lowered(0, Inst::SimdTrn2 { rd: 0, rn: 1, rm: 2, esize: 4, q: true }));
    assert_eq!(bytes(&cpu, 0), vec![4, 5, 6, 7, 20, 21, 22, 23, 12, 13, 14, 15, 28, 29, 30, 31]);
    // zip1 v1.16b, v1.16b, v2.16b reads v1 before overwriting it
    cpu.run(&lowered(0, Inst::SimdZip1 { rd: 1, rn: 1, rm: 2, esize: 1, q: true }));
    assert_eq!(bytes(&cpu, 1), vec![0, 16, 1, 17, 2, 18, 3, 19, 4, 20, 5, 21, 6, 22, 7, 23]);
    // addv b3, v2.16b of signed bytes: 16 + .. + 31 = 376, truncated to a byte
    cpu.write(vreg(3) + 8, u64::MAX, 8);
    cpu.run(&lowered(0, Inst::Addv { rd: 3, rn: 2, size: 1, q: true }));
    assert_eq!(cpu.read(vreg(3), 8), 376 & 0xff);
    // addv s3, v4.4s with a negative lane
    for (k, v) in [5u32, 0xffff_fffd, 10, 1].iter().enumerate() {
        cpu.write(vreg(4) + 4 * k as u64, *v as u64, 4);
    }
    cpu.run(&lowered(0, Inst::Addv { rd: 3, rn: 4, size: 4, q: true }));
    assert_eq!(cpu.read(vreg(3), 8), 13);
    // smax / umin v5.4s, v4.4s, v6.4s
    for k in 0..4u64 {
        cpu.write(vreg(6) + 4 * k, 4, 4);
    }
    cpu.run(&lowered(0, Inst::SminMax { rd: 5, rn: 4, rm: 6, max: true, unsigned: false, esize: 4, q: true }));
    assert_eq!((0..4).map(|k| cpu.read(vreg(5) + 4 * k, 4)).collect::<Vec<_>>(), vec![5, 4, 10, 4]);
    cpu.run(&lowered(0, Inst::SminMax { rd: 5, rn: 4, rm: 6, max: false, unsigned: true, esize: 4, q: true }));
    assert_eq!((0..4).map(|k| cpu.read(vreg(5) + 4 * k, 4)).collect::<Vec<_>>(), vec![4, 4, 4, 1]);
    // tbl v7.16b, {v1.16b, v2.16b}, v8.16b and tbx with indices past the tables
    for i in 0..16u64 {
        cpu.write(vreg(8) + i, if i % 2 == 0 { 31 - i } else { 32 + i }, 1);
        cpu.write(vreg(1) + i, 100 + i, 1);
        cpu.write(vreg(2) + i, 200 + i, 1);
        cpu.write(vreg(7) + i, 7, 1);
    }
    cpu.run(&lowered(0, Inst::Tbl { rd: 7, rn: 1, rm: 8, tbx: true, n_tables: 2 }));
    for i in 0..16u64 {
        let want = if i % 2 == 0 { let idx = 31 - i; if idx < 16 { 100 + idx } else { 200 + idx - 16 } } else { 7 };
        assert_eq!(cpu.read(vreg(7) + i, 1), want, "byte {}", i);
    }
    cpu.run(&lowered(0, Inst::Tbl { rd: 7, rn: 1, rm: 8, tbx: false, n_tables: 2 }));
    assert_eq!(cpu.read(vreg(7) + 1, 1), 0);
    // xtn v9.4h, v10.4s and xtn v9.2s, v10.2d
    for k in 0..4u64 {
        cpu.write(vreg(10) + 4 * k, 0x1111_0000 + k, 4);
    }
    cpu.write(vreg(9) + 8, u64::MAX, 8);
    cpu.run(&lowered(0, Inst::SimdXtn { rd: 9, rn: 10, dst_esize: 2 }));
    assert_eq!((cpu.read(vreg(9), 8), cpu.read(vreg(9) + 8, 8)), (0x0003_0002_0001_0000, 0));
    cpu.run(&lowered(0, Inst::SimdXtn { rd: 9, rn: 10, dst_esize: 4 }));
    assert_eq!(cpu.read(vreg(9), 8), 0x1111_0002_1111_0000);
}

#[test]
fn vector_compares_halving_and_lane_moves_run() {
    let mut cpu = Cpu::new();
    let h1 = [1u64, 0xffff, 7, 8, 100, 0x7fff, 3, 0x8000];
    let h2 = [1u64, 2, 7, 0x8000, 50, 0x7fff, 9, 1];
    for k in 0..8u64 {
        cpu.write(vreg(1) + 2 * k, h1[k as usize], 2);
        cpu.write(vreg(2) + 2 * k, h2[k as usize], 2);
    }
    let halves = |cpu: &Cpu, r: u64| (0..8).map(|k| cpu.read(vreg(r) + 2 * k, 2)).collect::<Vec<_>>();
    // cmeq / cmgt / cmge v3.8h, v1.8h, v2.8h (signed halves)
    cpu.run(&lowered(0, Inst::SimdCmEq { rd: 3, rn: 1, rm: 2, lanes: 8, esize: 2 }));
    assert_eq!(halves(&cpu, 3), vec![0xffff, 0, 0xffff, 0, 0, 0xffff, 0, 0]);
    cpu.run(&lowered(0, Inst::SimdCmgt { rd: 3, rn: 1, rm: 2, lanes: 8, esize: 2, ge: false }));
    assert_eq!(halves(&cpu, 3), vec![0, 0, 0, 0xffff, 0xffff, 0, 0, 0]);
    cpu.run(&lowered(0, Inst::SimdCmgt { rd: 3, rn: 1, rm: 2, lanes: 8, esize: 2, ge: true }));
    assert_eq!(halves(&cpu, 3), vec![0xffff, 0, 0xffff, 0xffff, 0xffff, 0xffff, 0, 0]);
    // uhadd / shadd v4.8h: the floor of the halved sum
    cpu.run(&lowered(0, Inst::SimdHadd { rd: 4, rn: 1, rm: 2, unsigned: true, esize: 2, q: true }));
    assert_eq!(halves(&cpu, 4), vec![1, 0x8000, 7, 16388, 75, 0x7fff, 6, 16384]);
    cpu.run(&lowered(0, Inst::SimdHadd { rd: 4, rn: 1, rm: 2, unsigned: false, esize: 2, q: true }));
    assert_eq!(halves(&cpu, 4), vec![1, 0, 7, 0xc004, 75, 0x7fff, 6, 0xc000]);
    // shsub v4.8h: (1-1)/2, (-1-2)/2 = -2, 0, (8+32768)/2, 25, 0, (3-9)/2 = -3, (-32768-1)/2
    cpu.run(&lowered(0, Inst::SimdHsub { rd: 4, rn: 1, rm: 2, unsigned: false, esize: 2, q: true }));
    assert_eq!(halves(&cpu, 4), vec![0, 0xfffe, 0, 16388, 25, 0, 0xfffd, 0xbfff]);
    // uabd v4.4h on small differences: |1-1|, |7-9|, |100-50|
    cpu.write(vreg(1) + 2, 7, 2);
    cpu.write(vreg(2) + 2, 9, 2);
    cpu.run(&lowered(0, Inst::SimdAbd { rd: 4, rn: 1, rm: 2, signed: false, esize: 2, q: false }));
    assert_eq!(cpu.read(vreg(4), 2), 0);
    assert_eq!(cpu.read(vreg(4) + 2, 2), 2);
    assert_eq!(cpu.read(vreg(4) + 4, 2), 0);
    cpu.write(vreg(4) + 8, 0x55, 2);
    cpu.run(&lowered(0, Inst::SimdAbd { rd: 4, rn: 1, rm: 2, signed: true, esize: 2, q: true }));
    assert_eq!(cpu.read(vreg(4) + 8, 2), 50);
    // umov w0, v1.h[3]; smov x1, v1.h[7]
    cpu.run(&lowered(0, Inst::SimdLaneGp { rd: 0, rn: 1, esize: 2, index: 3, sign: false, wide: false }));
    assert_eq!(cpu.slot(0), 8);
    cpu.run(&lowered(0, Inst::SimdLaneGp { rd: 1, rn: 1, esize: 2, index: 7, sign: true, wide: true }));
    assert_eq!(cpu.slot(8), 0xffff_ffff_ffff_8000);
    // ushr / sshr v5.8h, v1.8h, #4, and a shift past the element width
    cpu.run(&lowered(0, Inst::SimdShr { rd: 5, rn: 1, esize: 2, shift: 4, unsigned: true }));
    assert_eq!(cpu.read(vreg(5) + 14, 2), 0x0800);
    cpu.run(&lowered(0, Inst::SimdShr { rd: 5, rn: 1, esize: 2, shift: 4, unsigned: false }));
    assert_eq!(cpu.read(vreg(5) + 14, 2), 0xf800);
    assert_eq!(cpu.read(vreg(5) + 10, 2), 0x07ff);
    cpu.run(&lowered(0, Inst::SimdShr { rd: 5, rn: 1, esize: 2, shift: 16, unsigned: false }));
    assert_eq!((cpu.read(vreg(5) + 14, 2), cpu.read(vreg(5) + 10, 2)), (0xffff, 0));
    // addp v6.8h, v1.8h, v2.8h: the pair sums of v1, then of v2
    cpu.write(vreg(1) + 2, 0xffff, 2);
    cpu.write(vreg(2) + 2, 2, 2);
    cpu.run(&lowered(0, Inst::SimdAddp { rd: 6, rn: 1, rm: 2, esize: 2, q: true }));
    assert_eq!(halves(&cpu, 6), vec![0, 15, 0x8063, 0x8003, 3, 0x8007, 0x8031, 10]);
    // addp v1.8h, v1.8h, v1.8h reads v1 before overwriting it
    cpu.run(&lowered(0, Inst::SimdAddp { rd: 1, rn: 1, rm: 1, esize: 2, q: true }));
    assert_eq!(halves(&cpu, 1), vec![0, 15, 0x8063, 0x8003, 0, 15, 0x8063, 0x8003]);
}

#[test]
fn vector_widening_and_unary_forms_run() {
    let mut cpu = Cpu::new();
    cpu.write(vreg(1), 0x0605_0403_0780_ff01, 8);
    cpu.write(vreg(1) + 8, 0x0e0d_0c0b_0a09_fe02, 8);
    let halves = |cpu: &Cpu, r: u64| (0..8).map(|k| cpu.read(vreg(r) + 2 * k, 2)).collect::<Vec<_>>();
    let words = |cpu: &Cpu, r: u64| (0..4).map(|k| cpu.read(vreg(r) + 4 * k, 4)).collect::<Vec<_>>();
    // sxtl v2.8h, v1.8b; uxtl2 v2.8h, v1.16b
    cpu.run(&lowered(0, Inst::SimdXtl { rd: 2, rn: 1, sign: true, esrc: 1, upper: false }));
    assert_eq!(halves(&cpu, 2), vec![1, 0xffff, 0xff80, 7, 3, 4, 5, 6]);
    cpu.run(&lowered(0, Inst::SimdXtl { rd: 2, rn: 1, sign: false, esrc: 1, upper: true }));
    assert_eq!(halves(&cpu, 2), vec![2, 0xfe, 9, 10, 11, 12, 13, 14]);
    // sxtl v1.8h, v1.8b widens in place
    cpu.run(&lowered(0, Inst::SimdXtl { rd: 1, rn: 1, sign: true, esrc: 1, upper: false }));
    assert_eq!(halves(&cpu, 1), vec![1, 0xffff, 0xff80, 7, 3, 4, 5, 6]);
    // neg / abs v3.8h, v1.8h
    cpu.run(&lowered(0, Inst::SimdArithUnary { rd: 3, rn: 1, esize: 2, q: true, op: 0 }));
    assert_eq!(halves(&cpu, 3), vec![0xffff, 1, 0x80, 0xfff9, 0xfffd, 0xfffc, 0xfffb, 0xfffa]);
    cpu.run(&lowered(0, Inst::SimdArithUnary { rd: 3, rn: 1, esize: 2, q: true, op: 1 }));
    assert_eq!(halves(&cpu, 3), vec![1, 1, 0x80, 7, 3, 4, 5, 6]);
    // saddl v4.4s, v1.4h, v5.4h
    for (k, v) in [1u64, 1, 0x8000, 0xfff0].iter().enumerate() {
        cpu.write(vreg(5) + 2 * k as u64, *v, 2);
    }
    cpu.run(&lowered(0, Inst::SimdAddl { rd: 4, rn: 1, rm: 5, esrc: 2, sign: true, sub: false, upper: false }));
    assert_eq!(words(&cpu, 4), vec![2, 0, 0xffff_7f80, 0xffff_fff7]);
    // saddw v6.4s, v4.4s, v5.4h
    cpu.run(&lowered(0, Inst::SimdAddw { rd: 6, rn: 4, rm: 5, sign: true, esrc: 2, upper: false, sub: false }));
    assert_eq!(words(&cpu, 6), vec![3, 1, 0xfffe_ff80, 0xffff_ffe7]);
    // usubl v4.4s, v1.4h, v5.4h
    cpu.run(&lowered(0, Inst::SimdAddl { rd: 4, rn: 1, rm: 5, esrc: 2, sign: false, sub: true, upper: false }));
    assert_eq!(words(&cpu, 4), vec![0, 0xfffe, 0x7f80, 0xffff_0017]);
}

#[test]
fn vector_accumulating_shifts_and_zero_compares_run() {
    let mut cpu = Cpu::new();
    let h1 = [0x10u64, 0xfff0, 0, 0x8000, 5, 0x7fff, 0xffff, 1];
    for k in 0..8u64 {
        cpu.write(vreg(1) + 2 * k, h1[k as usize], 2);
        cpu.write(vreg(2) + 2 * k, 100, 2);
    }
    let halves = |cpu: &Cpu, r: u64| (0..8).map(|k| cpu.read(vreg(r) + 2 * k, 2)).collect::<Vec<_>>();
    // ssra v2.8h, v1.8h, #4: 100 + (x >> 4) arithmetic
    cpu.run(&lowered(0, Inst::SimdShrAcc { rd: 2, rn: 1, esize: 2, shift: 4, unsigned: false }));
    assert_eq!(halves(&cpu, 2), vec![101, 99, 100, 0x10000 + 100 - 2048, 100, 100 + 0x7ff, 99, 100]);
    // usra v2.8h, v1.8h, #16 adds nothing
    cpu.run(&lowered(0, Inst::SimdShrAcc { rd: 2, rn: 1, esize: 2, shift: 16, unsigned: true }));
    assert_eq!(halves(&cpu, 2), vec![101, 99, 100, 0x10000 + 100 - 2048, 100, 100 + 0x7ff, 99, 100]);
    // cmeq / cmgt / cmge / cmlt / cmle v3.8h, v1.8h, #0
    let want = |f: &dyn Fn(i16) -> bool| h1.iter().map(|&v| if f(v as u16 as i16) { 0xffff } else { 0 }).collect::<Vec<u64>>();
    cpu.run(&lowered(0, Inst::SimdCompareZero { rd: 3, rn: 1, esize: 2, q: true, cond: 0 }));
    assert_eq!(halves(&cpu, 3), want(&|v| v == 0));
    cpu.run(&lowered(0, Inst::SimdCompareZero { rd: 3, rn: 1, esize: 2, q: true, cond: 1 }));
    assert_eq!(halves(&cpu, 3), want(&|v| v > 0));
    cpu.run(&lowered(0, Inst::SimdCompareZero { rd: 3, rn: 1, esize: 2, q: true, cond: 2 }));
    assert_eq!(halves(&cpu, 3), want(&|v| v >= 0));
    cpu.run(&lowered(0, Inst::SimdCompareZero { rd: 3, rn: 1, esize: 2, q: true, cond: 3 }));
    assert_eq!(halves(&cpu, 3), want(&|v| v < 0));
    cpu.run(&lowered(0, Inst::SimdCompareZero { rd: 3, rn: 1, esize: 2, q: true, cond: 4 }));
    assert_eq!(halves(&cpu, 3), vec![0, 0xffff, 0xffff, 0xffff, 0, 0, 0xffff, 0]);
    // smaxp / uminp v7.8h, v1.8h, v4.8h: the pairs of v1, then of v4
    for (k, v) in [3u64, 9, 0xffff, 2, 7, 7, 0x8000, 0].iter().enumerate() {
        cpu.write(vreg(4) + 2 * k as u64, *v, 2);
    }
    cpu.run(&lowered(0, Inst::SimdMaxMinP { rd: 7, rn: 1, rm: 4, min: false, unsigned: false, esize: 2, q: true }));
    assert_eq!(halves(&cpu, 7), vec![0x10, 0, 0x7fff, 1, 9, 2, 7, 0]);
    cpu.run(&lowered(0, Inst::SimdMaxMinP { rd: 7, rn: 1, rm: 4, min: true, unsigned: true, esize: 2, q: true }));
    assert_eq!(halves(&cpu, 7), vec![0x10, 0, 5, 1, 3, 2, 7, 0]);
}

#[test]
fn vector_reductions_and_narrowing_shifts_run() {
    let mut cpu = Cpu::new();
    let h1 = [0x10u64, 0xfff0, 0, 0x8000, 5, 0x7fff, 0xffff, 1];
    for k in 0..8u64 {
        cpu.write(vreg(1) + 2 * k, h1[k as usize], 2);
    }
    cpu.write(vreg(2), u64::MAX, 8);
    // sminv h2, v1.8h; umaxv h2, v1.8h
    cpu.run(&lowered(0, Inst::SimdReduceMinMax { rd: 2, rn: 1, size: 2, signed: true, is_min: true, q: true }));
    assert_eq!(cpu.read(vreg(2), 2), 0x8000);
    cpu.run(&lowered(0, Inst::SimdReduceMinMax { rd: 2, rn: 1, size: 2, signed: false, is_min: false, q: true }));
    assert_eq!(cpu.read(vreg(2), 2), 0xffff);
    // smaxv on the low four halves only
    cpu.run(&lowered(0, Inst::SimdReduceMinMax { rd: 2, rn: 1, size: 2, signed: true, is_min: false, q: false }));
    assert_eq!(cpu.read(vreg(2), 2), 0x10);
    let mut buf = CodeBuf::new();
    let mut fixups: Vec<Fixup> = Vec::new();
    let r = translate(&mut buf, 0, Inst::SimdReduceMinMax { rd: 2, rn: 1, size: 4, signed: true, is_min: true, q: false }, &mut fixups, HOST);
    assert_eq!(r, Err("SimdReduceMinMax unsupported size=4 q=false".to_string()));
    assert!(buf.as_slice().is_empty());
    // shrn v8.8b, v1.8h, #4 and rshrn
    cpu.run(&lowered(0, Inst::SimdShrn { rd: 8, rn: 1, esrc: 2, shift: 4, upper: false, round: false }));
    assert_eq!(cpu.read(vreg(8), 8), 0x00ff_ff00_0000_ff01);
    cpu.run(&lowered(0, Inst::SimdShrn { rd: 8, rn: 1, esrc: 2, shift: 4, upper: true, round: true }));
    assert_eq!(cpu.read(vreg(8) + 8, 8), 0x0000_0000_0000_ff01);
}

#[test]
fn vector_extract_runs() {
    let mut cpu = Cpu::new();
    for i in 0..16u64 {
        cpu.write(vreg(1) + i, i, 1);
        cpu.write(vreg(2) + i, 0x10 + i, 1);
    }
    let bytes = |cpu: &Cpu, r: u64| (0..16).map(|i| cpu.read(vreg(r) + i, 1) as u8).collect::<Vec<u8>>();
    // ext v0.16b, v1.16b, v2.16b, #3
    cpu.run(&lowered(0, Inst::SimdExt { rd: 0, rn: 1, rm: 2, imm: 3, q: true }));
    assert_eq!(bytes(&cpu, 0), (3..19).collect::<Vec<u8>>());
    // ext v0.16b, v1.16b, v2.16b, #8
    cpu.run(&lowered(0, Inst::SimdExt { rd: 0, rn: 1, rm: 2, imm: 8, q: true }));
    assert_eq!(bytes(&cpu, 0), vec![8, 9, 10, 11, 12, 13, 14, 15, 16, 17, 18, 19, 20, 21, 22, 23]);
    // ext v0.8b, v1.8b, v2.8b, #5 clears the high half
    cpu.run(&lowered(0, Inst::SimdExt { rd: 0, rn: 1, rm: 2, imm: 5, q: false }));
    assert_eq!(bytes(&cpu, 0), vec![5, 6, 7, 8, 9, 10, 11, 12, 0, 0, 0, 0, 0, 0, 0, 0]);
}

#[test]
fn vector_pairwise_long_and_widening_moves_run() {
    let mut cpu = Cpu::new();
    cpu.write(vreg(1), 0x0605_0403_0780_ff01, 8);
    let halves = |cpu: &Cpu, r: u64| (0..8).map(|k| cpu.read(vreg(r) + 2 * k, 2)).collect::<Vec<_>>();
    let words = |cpu: &Cpu, r: u64| (0..4).map(|k| cpu.read(vreg(r) + 4 * k, 4)).collect::<Vec<_>>();
    // the widening move of v1.8b to v3.8h, unsigned and signed
    cpu.run(&lowered(0, Inst::WidenShl { rd: 3, rn: 1, dst_esize: 2, nlanes: 8, signed: false, upper: false }));
    assert_eq!(halves(&cpu, 3), vec![1, 0xff, 0x80, 7, 3, 4, 5, 6]);
    // in place: the last lane is widened first
    cpu.run(&lowered(0, Inst::WidenShl { rd: 1, rn: 1, dst_esize: 2, nlanes: 8, signed: true, upper: false }));
    assert_eq!(halves(&cpu, 1), vec![1, 0xffff, 0xff80, 7, 3, 4, 5, 6]);
    // uaddlp / saddlp v4.4s, v5.8h
    for (k, v) in [1u64, 0xffff, 7, 8, 100, 0x7fff, 3, 0x8000].iter().enumerate() {
        cpu.write(vreg(5) + 2 * k as u64, *v, 2);
    }
    cpu.run(&lowered(0, Inst::SimdAdalp { rd: 4, rn: 5, src_esize: 2, n_pairs: 4, signed: false, upper: false, acc: false }));
    assert_eq!(words(&cpu, 4), vec![0x10000, 15, 0x8063, 0x8003]);
    cpu.run(&lowered(0, Inst::SimdAdalp { rd: 4, rn: 5, src_esize: 2, n_pairs: 4, signed: true, upper: false, acc: false }));
    assert_eq!(words(&cpu, 4), vec![0, 15, 0x8063, 0xffff_8003]);
    // sadalp v4.4s, v5.8h accumulates
    cpu.run(&lowered(0, Inst::SimdAdalp { rd: 4, rn: 5, src_esize: 2, n_pairs: 4, signed: true, upper: false, acc: true }));
    assert_eq!(words(&cpu, 4), vec![0, 30, 0x10_0c6, 0xffff_0006]);
}

#[test]
fn vector_long_multiplies_run() {
    let mut cpu = Cpu::new();
    for (k, (a, b)) in [(3u64, 5u64), (0xfffe, 7), (100, 0xffff), (0x8000, 2)].iter().enumerate() {
        cpu.write(vreg(1) + 2 * k as u64, *a, 2);
        cpu.write(vreg(2) + 2 * k as u64, *b, 2);
    }
    let words = |cpu: &Cpu, r: u64| (0..4).map(|k| cpu.read(vreg(r) + 4 * k, 4)).collect::<Vec<_>>();
    // smull / umull v6.4s, v1.4h, v2.4h
    cpu.run(&lowered(0, Inst::SimdMull { rd: 6, rn: 1, rm: 2, res_esize: 4, unsigned: false, q: false, acc: false, sub: false }));
    assert_eq!(words(&cpu, 6), vec![15, 0xffff_fff2, 0xffff_ff9c, 0xffff_0000]);
    cpu.run(&lowered(0, Inst::SimdMull { rd: 6, rn: 1, rm: 2, res_esize: 4, unsigned: true, q: false, acc: false, sub: false }));
    assert_eq!(words(&cpu, 6), vec![15, 0x6_fff2, 0x63_ff9c, 0x1_0000]);
    // umlsl v6.4s: subtracts the products again
    cpu.run(&lowered(0, Inst::SimdMull { rd: 6, rn: 1, rm: 2, res_esize: 4, unsigned: true, q: false, acc: true, sub: true }));
    assert_eq!(words(&cpu, 6), vec![0, 0, 0, 0]);
    // smlal v6.4s adds
    cpu.run(&lowered(0, Inst::SimdMull { rd: 6, rn: 1, rm: 2, res_esize: 4, unsigned: false, q: false, acc: true, sub: false }));
    assert_eq!(words(&cpu, 6), vec![15, 0xffff_fff2, 0xffff_ff9c, 0xffff_0000]);
}

#[test]
fn vector_saturating_narrows_run() {
    let mut cpu = Cpu::new();
    for (k, v) in [0x10u64, 0xfff0, 0x100, 0x8000, 5, 0x7f, 0xff80, 0xff7f].iter().enumerate() {
        cpu.write(vreg(1) + 2 * k as u64, *v, 2);
    }
    cpu.write(vreg(7) + 8, u64::MAX, 8);
    let low = |cpu: &Cpu| (0..8).map(|k| cpu.read(vreg(7) + k, 1)).collect::<Vec<_>>();
    // sqxtn v7.8b, v1.8h
    cpu.run(&lowered(0, Inst::SaturatNarrow { rd: 7, rn: 1, dst_esize: 1, src_signed: true, dst_signed: true, q: false }));
    assert_eq!(low(&cpu), vec![0x10, 0xf0, 0x7f, 0x80, 5, 0x7f, 0x80, 0x80]);
    assert_eq!(cpu.read(vreg(7) + 8, 8), 0);
    // uqxtn v7.8b, v1.8h
    cpu.run(&lowered(0, Inst::SaturatNarrow { rd: 7, rn: 1, dst_esize: 1, src_signed: false, dst_signed: false, q: false }));
    assert_eq!(low(&cpu), vec![0x10, 0xff, 0xff, 0xff, 5, 0x7f, 0xff, 0xff]);
    // sqxtun v7.8b, v1.8h
    cpu.run(&lowered(0, Inst::SaturatNarrow { rd: 7, rn: 1, dst_esize: 1, src_signed: true, dst_signed: false, q: false }));
    assert_eq!(low(&cpu), vec![0x10, 0, 0xff, 0, 5, 0x7f, 0, 0]);
}

#[test]
fn vector_high_half_narrows_run() {
    let mut cpu = Cpu::new();
    cpu.write(vreg(1), 0xff00_1234, 4);
    cpu.write(vreg(2), 0x0200_0180, 4);
    cpu.write(vreg(7) + 8, u64::MAX, 8);
    // addhn v7.8b, v1.8h, v2.8h: the high byte of each 16-bit sum
    cpu.run(&lowered(0, Inst::SimdHighNarrow { rd: 7, rn: 1, rm: 2, dst_esize: 1, sub: false, round: false, q: false }));
    assert_eq!(cpu.read(vreg(7), 8), 0x0113);
    assert_eq!(cpu.read(vreg(7) + 8, 8), 0);
    // raddhn2 v7.16b: rounded, into the high half
    cpu.run(&lowered(0, Inst::SimdHighNarrow { rd: 7, rn: 1, rm: 2, dst_esize: 1, sub: false, round: true, q: true }));
    assert_eq!(cpu.read(vreg(7) + 8, 8), 0x0114);
    // subhn v7.8b
    cpu.run(&lowered(0, Inst::SimdHighNarrow { rd: 7, rn: 1, rm: 2, dst_esize: 1, sub: true, round: false, q: false }));
    assert_eq!(cpu.read(vreg(7), 2), 0xfd10);
}

fn set_halves(cpu: &mut Cpu, r: u64, v: &[u64]) {
    for (k, x) in v.iter().enumerate() {
        cpu.write(vreg(r) + 2 * k as u64, *x, 2);
    }
}

fn get_halves(cpu: &Cpu, r: u64) -> Vec<u64> {
    (0..8).map(|k| cpu.read(vreg(r) + 2 * k, 2)).collect()
}

#[test]
fn vector_saturating_adds_and_shifts_run() {
    let mut cpu = Cpu::new();
    set_halves(&mut cpu, 1, &[0x7000, 0x8000, 5, 0xff00, 1, 0, 0, 0]);
    set_halves(&mut cpu, 2, &[0x2000, 0xffff, 7, 0x0200, 2, 0, 0, 0]);
    // sqadd v3.8h: saturates at both ends
    cpu.run(&lowered(0, Inst::SimdSatAdd { rd: 3, rn: 1, rm: 2, esize: 2, sub: false, unsigned: false, q: true }));
    assert_eq!(get_halves(&cpu, 3), vec![0x7fff, 0x8000, 12, 0x100, 3, 0, 0, 0]);
    // uqsub v3.8h: below zero gives zero
    cpu.run(&lowered(0, Inst::SimdSatAdd { rd: 3, rn: 1, rm: 2, esize: 2, sub: true, unsigned: true, q: true }));
    assert_eq!(get_halves(&cpu, 3), vec![0x5000, 0, 0, 0xfd00, 0, 0, 0, 0]);
    // sqshl / uqshl v3.8h, #4
    set_halves(&mut cpu, 1, &[0x0800, 0xf800, 0x0010, 0x1000, 0, 0, 0, 0]);
    cpu.run(&lowered(0, Inst::SimdSatShl { rd: 3, rn: 1, esize: 2, shift: 4, sat: 0 }));
    assert_eq!(get_halves(&cpu, 3), vec![0x7fff, 0x8000, 0x100, 0x7fff, 0, 0, 0, 0]);
    cpu.run(&lowered(0, Inst::SimdSatShl { rd: 3, rn: 1, esize: 2, shift: 4, sat: 1 }));
    assert_eq!(get_halves(&cpu, 3), vec![0x8000, 0xffff, 0x100, 0xffff, 0, 0, 0, 0]);
    // sqshrn v7.8b, v1.8h, #4: narrowed with saturation, high half cleared
    set_halves(&mut cpu, 1, &[0x1000, 0xf000, 0x0050, 0x07f0, 0xf7f0, 0, 0, 0]);
    cpu.write(vreg(7) + 8, u64::MAX, 8);
    cpu.run(&lowered(0, Inst::SatNarrowShift { rd: 7, rn: 1, src_esize: 2, dst_esize: 1, shift: 4, src_signed: true, dst_signed: true, q: false }));
    assert_eq!(cpu.read(vreg(7), 8), 0x0000_0080_7f05_807f);
    assert_eq!(cpu.read(vreg(7) + 8, 8), 0);
}

#[test]
fn vector_variable_shifts_run() {
    let mut cpu = Cpu::new();
    set_halves(&mut cpu, 1, &[0x0003, 0x8000, 0x0001, 0xfff0, 0x1234, 0x0100, 0x00ff, 0x0005]);
    set_halves(&mut cpu, 2, &[2, 0xffff, 16, 0xfff0, 0, 0xfffc, 0xfff8, 0xfffe]);
    // sshl v3.8h, v1.8h, v2.8h
    cpu.run(&lowered(0, Inst::SimdVShift { rd: 3, rn: 1, rm: 2, esize: 2, signed_: true, q: true, rounding: false }));
    assert_eq!(get_halves(&cpu, 3), vec![12, 0xc000, 0, 0xffff, 0x1234, 0x10, 0, 1]);
    // ushl
    cpu.run(&lowered(0, Inst::SimdVShift { rd: 3, rn: 1, rm: 2, esize: 2, signed_: false, q: true, rounding: false }));
    assert_eq!(get_halves(&cpu, 3), vec![12, 0x4000, 0, 0, 0x1234, 0x10, 0, 1]);
    // srshl: the right shifts round
    cpu.run(&lowered(0, Inst::SimdVShift { rd: 3, rn: 1, rm: 2, esize: 2, signed_: true, q: true, rounding: true }));
    assert_eq!(get_halves(&cpu, 3), vec![12, 0xc000, 0, 0xffff, 0x1234, 0x10, 1, 1]);
    // sshl v4.2d
    cpu.write(vreg(5), 1, 8);
    cpu.write(vreg(5) + 8, 0x8000_0000_0000_0000, 8);
    cpu.write(vreg(6), 3, 8);
    cpu.write(vreg(6) + 8, u64::MAX, 8);
    cpu.run(&lowered(0, Inst::SimdVShift { rd: 4, rn: 5, rm: 6, esize: 8, signed_: true, q: true, rounding: false }));
    assert_eq!((cpu.read(vreg(4), 8), cpu.read(vreg(4) + 8, 8)), (8, 0xc000_0000_0000_0000));
}

#[test]
fn vector_element_multiplies_tables_and_replicating_loads_run() {
    let mut cpu = Cpu::new();
    set_halves(&mut cpu, 1, &[3, 0xfffe, 100, 0x8000, 0, 0, 0, 0]);
    set_halves(&mut cpu, 2, &[9, 0xffff, 0, 0, 0, 0, 0, 0]);
    // smull v6.4s, v1.4h, v2.h[1]
    cpu.run(&lowered(0, Inst::SimdMullEl { rd: 6, rn: 1, rm: 2, index: 1, res_esize: 4, unsigned: false, q: false, acc: false, sub: false }));
    let words = (0..4).map(|k| cpu.read(vreg(6) + 4 * k, 4)).collect::<Vec<_>>();
    assert_eq!(words, vec![0xffff_fffd, 2, 0xffff_ff9c, 0x8000]);
    // umlal v6.4s, v1.4h, v2.h[0]: adds 9 * v1
    cpu.run(&lowered(0, Inst::SimdMullEl { rd: 6, rn: 1, rm: 2, index: 0, res_esize: 4, unsigned: true, q: false, acc: true, sub: false }));
    let words = (0..4).map(|k| cpu.read(vreg(6) + 4 * k, 4)).collect::<Vec<_>>();
    assert_eq!(words, vec![24, 2 + 9 * 0xfffe, (0xffff_ff9c + 900) & 0xffff_ffff, 0x8000 * 10]);
    // tbl v9.16b, {v10.16b, v11.16b}, v12.16b
    for i in 0..16u64 {
        cpu.write(vreg(10) + i, 100 + i, 1);
        cpu.write(vreg(11) + i, 200 + i, 1);
        cpu.write(vreg(12) + i, [0, 17, 31, 32, 255, 5, 16, 15][(i % 8) as usize], 1);
        cpu.write(vreg(9) + i, 7, 1);
    }
    cpu.run(&lowered(0, Inst::SimdTbl { rd: 9, rn: 10, rm: 12, len2: 1, tbx: false, q: true }));
    let got = (0..8).map(|i| cpu.read(vreg(9) + i, 1)).collect::<Vec<_>>();
    assert_eq!(got, vec![100, 201, 215, 0, 0, 105, 200, 115]);
    // tbx keeps the bytes whose index is past the tables
    for i in 0..16u64 {
        cpu.write(vreg(9) + i, 7, 1);
    }
    cpu.run(&lowered(0, Inst::SimdTbl { rd: 9, rn: 10, rm: 12, len2: 1, tbx: true, q: false }));
    let got = (0..16).map(|i| cpu.read(vreg(9) + i, 1)).collect::<Vec<_>>();
    assert_eq!(&got[..8], &[100, 201, 215, 7, 7, 105, 200, 115]);
    assert_eq!(&got[8..], &[7; 8]);
    // ld1r {v8.4h}, [x0]: the half at x0 replicated, the high half cleared
    cpu.write(BASE, 0x9000, 8);
    cpu.write(0x9000, 0xabcd, 2);
    cpu.write(vreg(8) + 8, u64::MAX, 8);
    cpu.run(&lowered(0, Inst::Ld1 { rd: 8, rn: 0, esize: 2, q: false }));
    assert_eq!((cpu.read(vreg(8), 8), cpu.read(vreg(8) + 8, 8)), (0xabcd_abcd_abcd_abcd, 0));
}

/// The value left in `x0` by one instruction on `x1`, `x2`, `x3`.
fn alu3(inst: Inst, x1: u64, x2: u64, x3: u64) -> u64 {
    let mut cpu = Cpu::new();
    cpu.write(BASE + 8, x1, 8);
    cpu.write(BASE + 16, x2, 8);
    cpu.write(BASE + 24, x3, 8);
    cpu.run(&lowered(0, inst));
    cpu.slot(0)
}

#[test]
fn multiplies_and_divides_run() {
    let madd = |sub: bool| Inst::MulDiv { div: false, signed: sub, rd: 0, rn: 1, rm: 2, ra: 3, sf: true };
    // madd x0, x1, x2, x3 = 7 * 6 + 100
    assert_eq!(alu3(madd(false), 7, 6, 100), 142);
    // msub x0, x1, x2, x3 = 1298 - 25 * 50
    assert_eq!(alu3(madd(true), 25, 50, 1298), 48);
    // madd wraps modulo 2^64
    assert_eq!(alu3(madd(false), 1 << 63, 2, 5), 5);
    let mulh = |signed: bool| Inst::MulHigh { rd: 0, rn: 1, rm: 2, signed };
    // umulh: (2^64 - 1)^2 >> 64 = 2^64 - 2
    assert_eq!(alu3(mulh(false), u64::MAX, u64::MAX, 0), u64::MAX - 1);
    // smulh: -1 * -1 = 1, high half 0; -2 * 3 = -6, high half all ones
    assert_eq!(alu3(mulh(true), u64::MAX, u64::MAX, 0), 0);
    assert_eq!(alu3(mulh(true), (-2i64) as u64, 3, 0), u64::MAX);
    // udiv x0, x1, x2 rounds down
    let udiv = Inst::MulDiv { div: true, signed: false, rd: 0, rn: 1, rm: 2, ra: 31, sf: true };
    assert_eq!(alu3(udiv, 100, 7, 0), 14);
    assert_eq!(alu3(udiv, u64::MAX, 2, 0), u64::MAX / 2);
}

#[test]
fn rotates_extracts_and_variable_shifts_run() {
    // ror x0, x1, #8
    assert_eq!(alu3(Inst::Ror { rd: 0, rn: 1, rot: 8, sf: true }, 0x1234, 0, 0), 0x3400_0000_0000_0012);
    // extr x0, x1, x2, #16: the low 16 bits of x1 above the high 48 of x2
    assert_eq!(
        alu3(Inst::Extr { rd: 0, rn: 1, rm: 2, lsb: 16, sf: true }, 0xabcd, 0x1111_2222_3333_4444, 0),
        0xabcd_1111_2222_3333
    );
    // extr with lsb 0 is x2
    assert_eq!(alu3(Inst::Extr { rd: 0, rn: 1, rm: 2, lsb: 0, sf: true }, 5, 9, 0), 9);
    let vs = |op: u8| Inst::VarShiftVar { rd: 0, rn: 1, rm: 2, op, sf: true };
    // the count is taken modulo 64
    assert_eq!(alu3(vs(0), 1, 65, 0), 2);
    assert_eq!(alu3(vs(1), 0x80, 4, 0), 8);
    assert_eq!(alu3(vs(2), 1 << 63, 63, 0), u64::MAX);
    assert_eq!(alu3(vs(3), 1, 1, 0), 1 << 63);
    // ubfm: lsl x0, x1, #4 and ubfx x0, x1, #4, #8
    let ubfm = |immr: u32, imms: u32| Inst::BitField { rd: 0, rn: 1, immr, imms, sf: true, arith: false, insert: false };
    assert_eq!(alu3(ubfm(60, 59), 0xf000_0000_0000_0001, 0, 0), 0x10);
    assert_eq!(alu3(ubfm(4, 11), 0xfff5, 0, 0), 0xff);
}

#[test]
fn adc_and_sbc_use_the_stored_carry() {
    let run = |sub: bool, stored_c: bool| {
        let mut cpu = Cpu::new();
        cpu.write(BASE + 8, 10, 8);
        cpu.write(BASE + 16, 3, 8);
        cpu.write(BASE + NZCV_OFF as u64, if stored_c { 1 << 29 } else { 0 }, 4);
        cpu.run(&lowered(0, Inst::AddCarry { rd: 0, rn: 1, rm: 2, sf: true, s: false, sub }));
        cpu.slot(0)
    };
    // the AArch64 carry is the complement of the stored C bit
    assert_eq!(run(false, false), 14);
    assert_eq!(run(false, true), 13);
    assert_eq!(run(true, false), 7);
    assert_eq!(run(true, true), 6);
}

#[test]
fn cbz_and_tbz_set_the_tested_flags() {
    // the code before the final jcc leaves ZF set exactly when the branch of
    // CBZ (TBZ) is taken
    let zf_after = |inst: Inst, x3: u64| {
        let mut cpu = Cpu::new();
        cpu.write(BASE + 24, x3, 8);
        let code = lowered(0, inst);
        cpu.run(&code[..code.len() - 6]);
        cpu.flags & ZF != 0
    };
    assert!(zf_after(Inst::Cbz { rt: 3, imm: 8, nonzero: false }, 0));
    assert!(!zf_after(Inst::Cbz { rt: 3, imm: 8, nonzero: false }, 1 << 40));
    assert!(zf_after(Inst::Tbz { rt: 3, bit: 5, imm: 8, nonzero: false }, !0x20));
    assert!(!zf_after(Inst::Tbz { rt: 3, bit: 5, imm: 8, nonzero: false }, 0x20));
}

#[test]
fn write_back_loads_and_stores_move_the_base() {
    let data = 0x50_0000u64;
    let mut cpu = Cpu::new();
    cpu.write(BASE + 16, data, 8); // x2
    cpu.write(BASE + 8, 0xfeed, 8); // x1
    cpu.write(data + 8, 0x77, 8);
    // ldr x0, [x2, #8]!: pre-index
    cpu.run(&lowered(0, Inst::LdStrImmWb { rt: 0, rn: 2, imm9: 8, size: 8, ld: true, sext: false, writeback: true, pre: true }));
    assert_eq!(cpu.slot(0), 0x77);
    assert_eq!(cpu.slot(16), data + 8);
    // strh w1, [x2], #-8: post-index, stores at the old base
    cpu.run(&lowered(0, Inst::LdStrImmWb { rt: 1, rn: 2, imm9: -8, size: 2, ld: false, sext: false, writeback: true, pre: false }));
    assert_eq!(cpu.read(data + 8, 8), 0xfeed);
    assert_eq!(cpu.slot(16), data);
}

#[test]
fn long_multiplies_and_the_divide_class_run() {
    let ml = |ra: u8, signed: bool| Inst::MulLong { rd: 0, rn: 1, rm: 2, ra, signed, sub: false };
    // umull x0, w1, w2 uses only the low words
    assert_eq!(alu3(ml(31, false), 0x1_ffff_ffff, 2, 0), 0x1_ffff_fffe);
    // smull x0, w1, w2: -1 * 2
    assert_eq!(alu3(ml(31, true), 0x1_ffff_ffff, 2, 0), (-2i64) as u64);
    // smaddl x0, w1, w2, x3: -1 * 2 + 10
    assert_eq!(alu3(ml(3, true), 0xffff_ffff, 2, 10), 8);
    // udiv x0, x1, x2 of the divide class
    assert_eq!(alu3(Inst::Div { rd: 0, rn: 1, rm: 2, signed: false, is_x: true }, 100, 7, 0), 14);
}

#[test]
fn atomic_clear_set_and_swap_update_the_cell() {
    let cell = 0x61_0000u64;
    let run = |op: u8, old: u64, x: u64| {
        let mut cpu = Cpu::new();
        cpu.write(BASE + 16, cell, 8); // x2 = &cell
        cpu.write(cell, old, 8);
        cpu.write(BASE, x, 8); // x0
        cpu.run(&lowered(0, Inst::LseAtomic { op, size64: true, rs: 0, rn: 2, rt: 1 }));
        (cpu.read(cell, 8), cpu.slot(8))
    };
    // ldclr clears the bits of x0, ldset sets them, swp replaces the cell
    assert_eq!(run(1, 0xff, 0x0f), (0xf0, 0xff));
    assert_eq!(run(3, 0xf0, 0x0f), (0xff, 0xf0));
    assert_eq!(run(2, 0xff, 0x0f), (0xf0, 0xff));
    assert_eq!(run(4, 5, 9), (9, 5));
}

#[test]
fn extended_register_adds_and_subtracts_run() {
    let ext = |sub: bool, opt: u8, shift: u8| Inst::AddSubExt { rd: 0, rn: 1, rm: 2, sub, s: false, sf: true, opt, shift };
    // add x0, x1, w2, sxtw #2: 100 + (-1 << 2)
    assert_eq!(alu3(ext(false, 6, 2), 100, 0xffff_ffff, 0), 96);
    // sub x0, x1, w2, uxtb: only the low byte of x2
    assert_eq!(alu3(ext(true, 0, 0), 1000, 0x1ff, 0), 745);
    // add x0, x1, w2, sxtb: the byte 0x80 is -128
    assert_eq!(alu3(ext(false, 4, 0), 200, 0x80, 0), 72);
    // add x0, x1, w2, uxth #3
    assert_eq!(alu3(ext(false, 1, 3), 1, 0x1_0002, 0), 17);
}

#[test]
fn signed_bitfield_moves_run() {
    let sbfm = |immr: u32, imms: u32| Inst::BitField { rd: 0, rn: 1, immr, imms, sf: true, arith: true, insert: false };
    // sbfx x0, x1, #4, #8: the field 0xf8 is -8
    assert_eq!(alu3(sbfm(4, 11), 0xf80, 0, 0), (-8i64) as u64);
    // sbfiz x0, x1, #8, #4: the field 0x8 is -8, moved up by 8
    assert_eq!(alu3(sbfm(56, 3), 0x18, 0, 0), (-8i64 << 8) as u64);
    // sxtb x0, w1
    assert_eq!(alu3(sbfm(0, 7), 0x1_7f80, 0, 0), (-128i64) as u64);
    // asr x0, x1, #60
    assert_eq!(alu3(sbfm(60, 63), 1 << 63, 0, 0), (-8i64) as u64);
}

#[test]
fn rev_and_clz_run() {
    // rev x0, x1
    assert_eq!(alu3(Inst::Rev { rd: 0, rn: 1, op: 2, sf: true }, 0x0102_0304_0506_0708, 0, 0), 0x0807_0605_0403_0201);
    // clz x0, x1
    let clz = Inst::ClzCls { rd: 0, rn: 1, sf: true, cls: false };
    assert_eq!(alu3(clz, 1, 0, 0), 63);
    assert_eq!(alu3(clz, 0, 0, 0), 64);
    assert_eq!(alu3(clz, 1 << 63, 0, 0), 0);
}

#[test]
fn w_form_add_sub_drop_the_upper_halves() {
    let w = |sub: bool, shift: ShiftKind, sh_amt: u8| Inst::AddSubReg {
        rd: 0,
        rn: 1,
        rm: 2,
        sub,
        s: false,
        shift,
        sh_amt,
        sf: false,
        sp_operand: false,
    };
    // add w0, w1, w2, lsl #4: the shift drops bit 28 of w2 out of the word
    assert_eq!(alu3(w(false, ShiftKind::Lsl, 4), 0xffff_ffff_0000_0010, 0x1000_0001, 0), 0x20);
    // sub w0, w1, w2, asr #1: 5 - (-4 >> 1) in 32 bits
    assert_eq!(alu3(w(true, ShiftKind::Asr, 1), 5, 0xffff_fffc, 0), 7);
}

#[test]
fn long_multiply_subtracts_run() {
    let ml = |signed: bool| Inst::MulLong { rd: 0, rn: 1, rm: 2, ra: 3, signed, sub: true };
    // smsubl x0, w1, w2, x3: 10 - (-1 * 2)
    assert_eq!(alu3(ml(true), 0xffff_ffff, 2, 10), 12);
    // umsubl x0, w1, w2, x3: 10 - 3 * 2
    assert_eq!(alu3(ml(false), 0x7_0000_0003, 2, 10), 4);
    // and below zero it wraps
    assert_eq!(alu3(ml(false), 3, 5, 10), (-5i64) as u64);
}
