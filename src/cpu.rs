use vstd::prelude::*;

use crate::display::{blank_pixels, draw_sprite, Display};
use crate::error::Chip8Error;
use crate::instruction::{register_fault, Instruction};
use crate::memory::{with_bcd, Memory, MEMORY_SIZE, PROGRAM_START};

verus! {

/// Index of the flag register, written as a side effect by arithmetic, shifts
/// and drawing.
pub const FLAG_REGISTER: u8 = 0xF;

/// Number of return addresses the call stack holds.
pub const STACK_DEPTH: u8 = 16;

/// The processor state seen as mathematical values. `stack` holds the live
/// return addresses, the most recent last.
pub struct CpuView {
    pub v: Seq<u8>,
    pub i: u16,
    pub dt: u8,
    pub st: u8,
    pub pc: u16,
    pub stack: Seq<u16>,
}

/// `a + b` modulo 256.
pub open spec fn add8(a: int, b: int) -> u8 {
    ((a + b) % 256) as u8
}

/// `a - b` modulo 256.
pub open spec fn sub8(a: int, b: int) -> u8 {
    ((a - b + 256) % 256) as u8
}

/// `a + b` modulo 65536.
pub open spec fn add16(a: int, b: int) -> u16 {
    ((a + b) % 65536) as u16
}

/// `a - b` modulo 65536, for `0 <= b <= 65536`.
pub open spec fn sub16(a: int, b: int) -> u16 {
    ((a - b + 65536) % 65536) as u16
}

/// A timer after one tick: one less, but never below zero.
pub open spec fn tick_down(t: u8) -> u8 {
    if t > 0 {
        (t - 1) as u8
    } else {
        0
    }
}

/// The lowest index among the first `n` keys that is pressed, if any.
pub open spec fn lowest_pressed(keys: Seq<bool>, n: nat) -> Option<nat>
    decreases n,
{
    if n == 0 {
        None
    } else {
        match lowest_pressed(keys, (n - 1) as nat) {
            Some(k) => Some(k),
            None => if keys[n - 1] {
                Some((n - 1) as nat)
            } else {
                None
            },
        }
    }
}

/// `c` once an instruction is fetched: the program counter moved past it and
/// both timers counted down.
pub open spec fn advance_cpu(c: CpuView) -> CpuView {
    CpuView { pc: (c.pc + 2) as u16, dt: tick_down(c.dt), st: tick_down(c.st), ..c }
}

/// `c` with register `x` set to `val`.
pub open spec fn set_reg(c: CpuView, x: u8, val: u8) -> CpuView {
    CpuView { v: c.v.update(x as int, val), ..c }
}

/// `c` with the next instruction skipped when `cond` holds.
pub open spec fn skip_if(c: CpuView, cond: bool) -> CpuView {
    if cond {
        CpuView { pc: add16(c.pc as int, 2), ..c }
    } else {
        c
    }
}

/// Why `ins` cannot run in state `c`, if it cannot.
pub open spec fn exec_error(c: CpuView, ins: Instruction) -> Option<Chip8Error> {
    match register_fault(ins) {
        Some(r) => Some(Chip8Error::RegisterOutOfRange(r)),
        None => match ins {
            Instruction::RET => if c.stack.len() == 0 {
                Some(Chip8Error::StackUnderflow)
            } else {
                None
            },
            Instruction::CALL(_) => if c.stack.len() >= STACK_DEPTH {
                Some(Chip8Error::StackOverflow)
            } else {
                None
            },
            Instruction::DRW(_, _, n) => if c.i + n > MEMORY_SIZE {
                Some(Chip8Error::AddressOutOfRange)
            } else {
                None
            },
            Instruction::SKP(x) | Instruction::SKNP(x) => if c.v[x as int] >= 16 {
                Some(Chip8Error::KeyOutOfRange(c.v[x as int]))
            } else {
                None
            },
            Instruction::LD_B(_) => if c.i + 2 >= MEMORY_SIZE {
                Some(Chip8Error::AddressOutOfRange)
            } else {
                None
            },
            Instruction::LD_I_write(x) | Instruction::LD_I_read(x) => if c.i + x >= MEMORY_SIZE {
                Some(Chip8Error::AddressOutOfRange)
            } else {
                None
            },
            _ => None,
        },
    }
}

/// Processor state, framebuffer and memory after `ins` runs in state `c` on
/// framebuffer `p` and memory `m`, with the keys `keys` and the random byte
/// `rnd`, where `exec_error` finds nothing wrong.
pub open spec fn exec_effect(
    c: CpuView,
    ins: Instruction,
    p: Seq<bool>,
    m: Seq<u8>,
    keys: Seq<bool>,
    rnd: u8,
) -> (CpuView, Seq<bool>, Seq<u8>) {
    let f = FLAG_REGISTER;
    match ins {
        Instruction::SYS(_) => (c, p, m),
        Instruction::CLS => (c, blank_pixels(), m),
        Instruction::RET => (CpuView { pc: c.stack.last(), stack: c.stack.drop_last(), ..c }, p, m),
        Instruction::JP(a) => (CpuView { pc: a, ..c }, p, m),
        Instruction::CALL(a) => (CpuView { pc: a, stack: c.stack.push(c.pc), ..c }, p, m),
        Instruction::SE_byte(x, b) => (skip_if(c, c.v[x as int] == b), p, m),
        Instruction::SNE_byte(x, b) => (skip_if(c, c.v[x as int] != b), p, m),
        Instruction::SE_reg(x, y) => (skip_if(c, c.v[x as int] == c.v[y as int]), p, m),
        Instruction::LD_byte(x, b) => (set_reg(c, x, b), p, m),
        Instruction::ADD_byte(x, b) => (set_reg(c, x, add8(c.v[x as int] as int, b as int)), p, m),
        Instruction::LD_reg(x, y) => (set_reg(c, x, c.v[y as int]), p, m),
        Instruction::OR(x, y) => (set_reg(c, x, c.v[x as int] | c.v[y as int]), p, m),
        Instruction::AND(x, y) => (set_reg(c, x, c.v[x as int] & c.v[y as int]), p, m),
        Instruction::XOR(x, y) => (set_reg(c, x, c.v[x as int] ^ c.v[y as int]), p, m),
        Instruction::ADD_reg(x, y) => {
            let a = c.v[x as int] as int;
            let b = c.v[y as int] as int;
            (set_reg(set_reg(c, x, add8(a, b)), f, if a + b > 255 { 1 } else { 0 }), p, m)
        },
        Instruction::SUB(x, y) => {
            let a = c.v[x as int] as int;
            let b = c.v[y as int] as int;
            (set_reg(set_reg(c, x, sub8(a, b)), f, if a >= b { 1 } else { 0 }), p, m)
        },
        Instruction::SHR(x) => {
            let c1 = set_reg(c, f, c.v[x as int] & 1);
            (set_reg(c1, x, c1.v[x as int] >> 1u8), p, m)
        },
        Instruction::SUBN(x, y) => {
            let a = c.v[x as int] as int;
            let b = c.v[y as int] as int;
            (set_reg(set_reg(c, x, sub8(b, a)), f, if b >= a { 1 } else { 0 }), p, m)
        },
        Instruction::SHL(x) => {
            let c1 = set_reg(c, f, (c.v[x as int] & 0x80) >> 7u8);
            (set_reg(c1, x, c1.v[x as int] << 1u8), p, m)
        },
        Instruction::SNE_reg(x, y) => (skip_if(c, c.v[x as int] != c.v[y as int]), p, m),
        Instruction::LD_I(a) => (CpuView { i: a, ..c }, p, m),
        Instruction::JP_V0(a) => (CpuView { pc: add16(a as int, c.v[0] as int), ..c }, p, m),
        Instruction::RND(x, b) => (set_reg(c, x, rnd & b), p, m),
        Instruction::DRW(x, y, n) => {
            let (p1, collision) = draw_sprite(
                p,
                c.v[x as int],
                c.v[y as int],
                m.subrange(c.i as int, c.i + n),
            );
            (set_reg(c, f, if collision { 1 } else { 0 }), p1, m)
        },
        Instruction::SKP(x) => (skip_if(c, keys[c.v[x as int] as int]), p, m),
        Instruction::SKNP(x) => (skip_if(c, !keys[c.v[x as int] as int]), p, m),
        Instruction::LD_reg_from_DT(x) => (set_reg(c, x, c.dt), p, m),
        Instruction::LD_reg_from_key(x) => match lowest_pressed(keys, 16) {
            Some(k) => (set_reg(c, x, k as u8), p, m),
            None => (CpuView { pc: sub16(c.pc as int, 2), ..c }, p, m),
        },
        Instruction::LD_DT_from_reg(x) => (CpuView { dt: c.v[x as int], ..c }, p, m),
        Instruction::LD_ST_from_reg(x) => (CpuView { st: c.v[x as int], ..c }, p, m),
        Instruction::ADD_I(x) => (CpuView { i: add16(c.i as int, c.v[x as int] as int), ..c }, p, m),
        Instruction::LD_F(x) => (CpuView { i: (c.v[x as int] * 5) as u16, ..c }, p, m),
        Instruction::LD_B(x) => (c, p, with_bcd(m, c.v[x as int], c.i as int)),
        Instruction::LD_I_write(x) => (
            c,
            p,
            Seq::new(
                m.len(),
                |a: int|
                    if c.i <= a <= c.i + x {
                        c.v[a - c.i]
                    } else {
                        m[a]
                    },
            ),
        ),
        Instruction::LD_I_read(x) => (
            CpuView {
                v: Seq::new(16, |r: int| if r <= x { m[c.i + r] } else { c.v[r] }),
                ..c
            },
            p,
            m,
        ),
    }
}

/// How one instruction relates the state before (`c0`, `p0`, `m0`) to the
/// state after (`c1`, `p1`, `m1`) and to its result `r`: on a fault, that error
/// and no change; otherwise success and the effect that `exec_effect` gives.
pub open spec fn exec_outcome(
    c0: CpuView,
    c1: CpuView,
    p0: Seq<bool>,
    p1: Seq<bool>,
    m0: Seq<u8>,
    m1: Seq<u8>,
    ins: Instruction,
    keys: Seq<bool>,
    rnd: u8,
    r: Result<(), Chip8Error>,
) -> bool {
    match exec_error(c0, ins) {
        Some(e) => r == Err::<(), Chip8Error>(e) && c1 == c0 && p1 == p0 && m1 == m0,
        None => r == Ok::<(), Chip8Error>(()) && (c1, p1, m1) == exec_effect(c0, ins, p0, m0, keys, rnd),
    }
}

/// Relies on `rand::random::<u8>`, for the byte that `RND` masks. Nothing is
/// known of the byte.
#[verifier::external_body]
pub(crate) fn random_byte() -> u8 {
    rand::random::<u8>()
}

/// The lowest index of a pressed key, if any key is pressed.
fn find_pressed_key(keys: &[bool; 16]) -> (r: Option<u8>)
    ensures
        match lowest_pressed(keys@, 16) {
            Some(k) => r == Some(k as u8),
            None => r is None,
        },
{
    let mut i: u8 = 0;
    while i < 16
        invariant
            i <= 16,
            lowest_pressed(keys@, i as nat) is None,
        decreases 16 - i,
    {
        if keys[i as usize] {
            proof {
                lemma_lowest_pressed_stays(keys@, (i + 1) as nat, 16);
            }
            return Some(i);
        }
        i = i + 1;
    }
    None
}

/// Once a pressed key is found among the first `n` keys, looking further does
/// not change it.
proof fn lemma_lowest_pressed_stays(keys: Seq<bool>, n: nat, m: nat)
    requires
        n <= m,
        lowest_pressed(keys, n) is Some,
    ensures
        lowest_pressed(keys, m) == lowest_pressed(keys, n),
    decreases m - n,
{
    if n < m {
        lemma_lowest_pressed_stays(keys, n, (m - 1) as nat);
    }
}

/// The registers, index register, timers, program counter and call stack.
#[derive(Debug, Clone, Copy)]
pub struct CPU {
    pub v: [u8; 16],
    pub i: u16,
    pub dt: u8,
    pub st: u8,
    pub pc: u16,
    pub sp: u8,
    pub stack: [u16; 16],
}

impl View for CPU {
    type V = CpuView;

    open spec fn view(&self) -> CpuView {
        CpuView {
            v: self.v@,
            i: self.i,
            dt: self.dt,
            st: self.st,
            pc: self.pc,
            stack: self.stack@.subrange(0, self.sp as int),
        }
    }
}

/// The processor state right after creation or reset.
pub open spec fn initial_cpu() -> CpuView {
    CpuView {
        v: Seq::new(16, |r: int| 0u8),
        i: 0,
        dt: 0,
        st: 0,
        pc: PROGRAM_START,
        stack: Seq::empty(),
    }
}

impl CPU {
    /// Whether the stack pointer is within the stack.
    pub open spec fn wf(&self) -> bool {
        self.sp <= STACK_DEPTH
    }

    /// Zeroed registers and timers, an empty stack, and the program counter at
    /// the load address.
    pub fn new() -> (r: Self)
        ensures
            r.wf(),
            r@ == initial_cpu(),
    {
        let r = Self { v: [0; 16], i: 0, dt: 0, st: 0, pc: PROGRAM_START, sp: 0, stack: [0; 16] };
        assert(r@.v =~= initial_cpu().v);
        assert(r@.stack =~= Seq::<u16>::empty());
        r
    }

    /// The value of register `register`.
    pub fn read_reg(&self, register: u8) -> (r: u8)
        requires
            register < 16,
        ensures
            r == self@.v[register as int],
    {
        self.v[register as usize]
    }

    /// Sets register `register` to `data`.
    pub fn write_reg(&mut self, register: u8, data: u8)
        requires
            register < 16,
        ensures
            final(self)@ == set_reg(old(self)@, register, data),
            final(self).sp == old(self).sp,
    {
        self.v[register as usize] = data;
        assert(self@.v =~= old(self)@.v.update(register as int, data));
    }

    /// Counts both timers down by one, stopping at zero.
    pub fn decrement_timers(&mut self)
        ensures
            final(self)@ == (CpuView {
                dt: tick_down(old(self).dt),
                st: tick_down(old(self).st),
                ..old(self)@
            }),
            final(self).sp == old(self).sp,
    {
        if self.dt > 0 {
            self.dt -= 1;
        }
        if self.st > 0 {
            self.st -= 1;
        }
    }

    /// Runs `ins` as `execute_with_random` does, drawing the byte that `RND`
    /// masks at random.
    pub fn execute(
        &mut self,
        ins: &Instruction,
        display: &mut Display,
        memory: &mut Memory,
        keys: &[bool; 16],
    ) -> (r: Result<(), Chip8Error>)
        requires
            old(self).wf(),
            old(display).wf(),
        ensures
            final(self).wf(),
            final(display).wf(),
            exists|random: u8|
                exec_outcome(
                    old(self)@,
                    final(self)@,
                    old(display).pixels@,
                    final(display).pixels@,
                    old(memory)@,
                    final(memory)@,
                    *ins,
                    keys@,
                    random,
                    r,
                ),
    {
        let random = if matches!(*ins, Instruction::RND(..)) {
            random_byte()
        } else {
            0
        };
        self.execute_with_random(ins, display, memory, keys, random)
    }

    /// Runs `ins` against the registers, `display`, `memory` and the key
    /// snapshot `keys`; `random` is the byte that `RND` masks. Fails, changing
    /// nothing, when `exec_error` finds a fault.
    pub fn execute_with_random(
        &mut self,
        ins: &Instruction,
        display: &mut Display,
        memory: &mut Memory,
        keys: &[bool; 16],
        random: u8,
    ) -> (r: Result<(), Chip8Error>)
        requires
            old(self).wf(),
            old(display).wf(),
        ensures
            final(self).wf(),
            final(display).wf(),
            exec_outcome(
                old(self)@,
                final(self)@,
                old(display).pixels@,
                final(display).pixels@,
                old(memory)@,
                final(memory)@,
                *ins,
                keys@,
                random,
                r,
            ),
    {
        if let Some(reg) = ins.invalid_register() {
            return Err(Chip8Error::RegisterOutOfRange(reg));
        }
        match *ins {
            Instruction::SYS(..)
            | Instruction::CLS
            | Instruction::RET
            | Instruction::JP(..)
            | Instruction::CALL(..)
            | Instruction::JP_V0(..) => self.execute_flow(ins, display, memory, keys, random),
            Instruction::SE_byte(..)
            | Instruction::SNE_byte(..)
            | Instruction::SE_reg(..)
            | Instruction::SNE_reg(..)
            | Instruction::SKP(..)
            | Instruction::SKNP(..)
            | Instruction::LD_reg_from_key(..) => self.execute_skip(ins, display, memory, keys, random),
            Instruction::LD_byte(..)
            | Instruction::ADD_byte(..)
            | Instruction::LD_reg(..)
            | Instruction::OR(..)
            | Instruction::AND(..)
            | Instruction::XOR(..)
            | Instruction::RND(..)
            | Instruction::LD_reg_from_DT(..)
            | Instruction::LD_DT_from_reg(..)
            | Instruction::LD_ST_from_reg(..) => self.execute_load(ins, display, memory, keys, random),
            Instruction::ADD_reg(..)
            | Instruction::SUB(..)
            | Instruction::SUBN(..)
            | Instruction::SHR(..)
            | Instruction::SHL(..) => self.execute_arith(ins, display, memory, keys, random),
            _ => self.execute_memory(ins, display, memory, keys, random),
        }
    }

    /// Runs a jump, call, return or clear-screen instruction.
    #[verifier::rlimit(100)]
    fn execute_flow(
        &mut self,
        ins: &Instruction,
        display: &mut Display,
        memory: &mut Memory,
        keys: &[bool; 16],
        random: u8,
    ) -> (r: Result<(), Chip8Error>)
        requires
            old(self).wf(),
            old(display).wf(),
            register_fault(*ins) is None,
            matches!(
                *ins,
                Instruction::SYS(..)
                | Instruction::CLS
                | Instruction::RET
                | Instruction::JP(..)
                | Instruction::CALL(..)
                | Instruction::JP_V0(..),
            ),
        ensures
            final(self).wf(),
            final(display).wf(),
            exec_outcome(
                old(self)@,
                final(self)@,
                old(display).pixels@,
                final(display).pixels@,
                old(memory)@,
                final(memory)@,
                *ins,
                keys@,
                random,
                r,
            ),
    {
        let ghost c = self@;
        match *ins {
            Instruction::SYS(_) => {},
            Instruction::CLS => display.clear(),
            Instruction::RET => {
                if self.sp == 0 {
                    return Err(Chip8Error::StackUnderflow);
                }
                self.sp -= 1;
                self.pc = self.stack[self.sp as usize];
                assert(self@.stack =~= c.stack.drop_last());
            },
            Instruction::JP(addr) => self.pc = addr,
            Instruction::CALL(addr) => {
                if self.sp >= STACK_DEPTH {
                    return Err(Chip8Error::StackOverflow);
                }
                self.stack[self.sp as usize] = self.pc;
                self.sp += 1;
                self.pc = addr;
                assert(self@.stack =~= c.stack.push(c.pc));
            },
            Instruction::JP_V0(addr) => self.pc = addr.wrapping_add(self.read_reg(0) as u16),
            _ => {},
        }
        Ok(())
    }

    /// Runs a conditional skip or the wait for a key.
    #[verifier::rlimit(100)]
    fn execute_skip(
        &mut self,
        ins: &Instruction,
        display: &mut Display,
        memory: &mut Memory,
        keys: &[bool; 16],
        random: u8,
    ) -> (r: Result<(), Chip8Error>)
        requires
            old(self).wf(),
            old(display).wf(),
            register_fault(*ins) is None,
            matches!(
                *ins,
                Instruction::SE_byte(..)
                | Instruction::SNE_byte(..)
                | Instruction::SE_reg(..)
                | Instruction::SNE_reg(..)
                | Instruction::SKP(..)
                | Instruction::SKNP(..)
                | Instruction::LD_reg_from_key(..),
            ),
        ensures
            final(self).wf(),
            final(display).wf(),
            exec_outcome(
                old(self)@,
                final(self)@,
                old(display).pixels@,
                final(display).pixels@,
                old(memory)@,
                final(memory)@,
                *ins,
                keys@,
                random,
                r,
            ),
    {
        match *ins {
            Instruction::SE_byte(vx, byte) => {
                if self.read_reg(vx) == byte {
                    self.pc = self.pc.wrapping_add(2);
                }
            },
            Instruction::SNE_byte(vx, byte) => {
                if self.read_reg(vx) != byte {
                    self.pc = self.pc.wrapping_add(2);
                }
            },
            Instruction::SE_reg(vx, vy) => {
                if self.read_reg(vx) == self.read_reg(vy) {
                    self.pc = self.pc.wrapping_add(2);
                }
            },
            Instruction::SNE_reg(vx, vy) => {
                if self.read_reg(vx) != self.read_reg(vy) {
                    self.pc = self.pc.wrapping_add(2);
                }
            },
            Instruction::SKP(vx) => {
                let key = self.read_reg(vx);
                if key >= 16 {
                    return Err(Chip8Error::KeyOutOfRange(key));
                }
                if keys[key as usize] {
                    self.pc = self.pc.wrapping_add(2);
                }
            },
            Instruction::SKNP(vx) => {
                let key = self.read_reg(vx);
                if key >= 16 {
                    return Err(Chip8Error::KeyOutOfRange(key));
                }
                if !keys[key as usize] {
                    self.pc = self.pc.wrapping_add(2);
                }
            },
            Instruction::LD_reg_from_key(vx) => match find_pressed_key(keys) {
                Some(key) => self.write_reg(vx, key),
                None => self.pc = self.pc.wrapping_sub(2),
            },
            _ => {},
        }
        Ok(())
    }

    /// Runs an instruction that loads a register or a timer.
    #[verifier::rlimit(100)]
    fn execute_load(
        &mut self,
        ins: &Instruction,
        display: &mut Display,
        memory: &mut Memory,
        keys: &[bool; 16],
        random: u8,
    ) -> (r: Result<(), Chip8Error>)
        requires
            old(self).wf(),
            old(display).wf(),
            register_fault(*ins) is None,
            matches!(
                *ins,
                Instruction::LD_byte(..)
                | Instruction::ADD_byte(..)
                | Instruction::LD_reg(..)
                | Instruction::OR(..)
                | Instruction::AND(..)
                | Instruction::XOR(..)
                | Instruction::RND(..)
                | Instruction::LD_reg_from_DT(..)
                | Instruction::LD_DT_from_reg(..)
                | Instruction::LD_ST_from_reg(..),
            ),
        ensures
            final(self).wf(),
            final(display).wf(),
            exec_outcome(
                old(self)@,
                final(self)@,
                old(display).pixels@,
                final(display).pixels@,
                old(memory)@,
                final(memory)@,
                *ins,
                keys@,
                random,
                r,
            ),
    {
        match *ins {
            Instruction::LD_byte(vx, byte) => self.write_reg(vx, byte),
            Instruction::ADD_byte(vx, byte) => {
                let data = self.read_reg(vx).wrapping_add(byte);
                self.write_reg(vx, data);
            },
            Instruction::LD_reg(vx, vy) => {
                let data = self.read_reg(vy);
                self.write_reg(vx, data);
            },
            Instruction::OR(vx, vy) => {
                let data = self.read_reg(vx) | self.read_reg(vy);
                self.write_reg(vx, data);
            },
            Instruction::AND(vx, vy) => {
                let data = self.read_reg(vx) & self.read_reg(vy);
                self.write_reg(vx, data);
            },
            Instruction::XOR(vx, vy) => {
                let data = self.read_reg(vx) ^ self.read_reg(vy);
                self.write_reg(vx, data);
            },
            Instruction::RND(vx, byte) => self.write_reg(vx, random & byte),
            Instruction::LD_reg_from_DT(vx) => {
                let dt = self.dt;
                self.write_reg(vx, dt);
            },
            Instruction::LD_DT_from_reg(vx) => self.dt = self.read_reg(vx),
            Instruction::LD_ST_from_reg(vx) => self.st = self.read_reg(vx),
            _ => {},
        }
        Ok(())
    }

    /// Runs an addition, subtraction or shift that sets the flag register.
    #[verifier::rlimit(100)]
    fn execute_arith(
        &mut self,
        ins: &Instruction,
        display: &mut Display,
        memory: &mut Memory,
        keys: &[bool; 16],
        random: u8,
    ) -> (r: Result<(), Chip8Error>)
        requires
            old(self).wf(),
            old(display).wf(),
            register_fault(*ins) is None,
            matches!(
                *ins,
                Instruction::ADD_reg(..)
                | Instruction::SUB(..)
                | Instruction::SUBN(..)
                | Instruction::SHR(..)
                | Instruction::SHL(..),
            ),
        ensures
            final(self).wf(),
            final(display).wf(),
            exec_outcome(
                old(self)@,
                final(self)@,
                old(display).pixels@,
                final(display).pixels@,
                old(memory)@,
                final(memory)@,
                *ins,
                keys@,
                random,
                r,
            ),
    {
        match *ins {
            Instruction::ADD_reg(vx, vy) => {
                let a = self.read_reg(vx);
                let b = self.read_reg(vy);
                let sum = a as u16 + b as u16;
                let overflow = sum > 255;
                self.write_reg(vx, (sum % 256) as u8);
                self.write_reg(FLAG_REGISTER, if overflow { 1 } else { 0 });
            },
            Instruction::SUB(vx, vy) => {
                let a = self.read_reg(vx);
                let b = self.read_reg(vy);
                let borrow = a < b;
                self.write_reg(vx, ((a as u16 + 256 - b as u16) % 256) as u8);
                self.write_reg(FLAG_REGISTER, if borrow { 0 } else { 1 });
            },
            Instruction::SUBN(vx, vy) => {
                let a = self.read_reg(vx);
                let b = self.read_reg(vy);
                let borrow = b < a;
                self.write_reg(vx, ((b as u16 + 256 - a as u16) % 256) as u8);
                self.write_reg(FLAG_REGISTER, if borrow { 0 } else { 1 });
            },
            Instruction::SHR(vx) => {
                let least_sig_bit = self.read_reg(vx) & 1u8;
                self.write_reg(FLAG_REGISTER, least_sig_bit);
                let data = self.read_reg(vx) >> 1u8;
                self.write_reg(vx, data);
            },
            Instruction::SHL(vx) => {
                let most_sig_bit = (self.read_reg(vx) & 0x80u8) >> 7u8;
                self.write_reg(FLAG_REGISTER, most_sig_bit);
                let data = self.read_reg(vx) << 1u8;
                self.write_reg(vx, data);
            },
            _ => {},
        }
        Ok(())
    }

    /// Runs an instruction that uses the index register: memory transfers and drawing.
    #[verifier::rlimit(100)]
    fn execute_memory(
        &mut self,
        ins: &Instruction,
        display: &mut Display,
        memory: &mut Memory,
        keys: &[bool; 16],
        random: u8,
    ) -> (r: Result<(), Chip8Error>)
        requires
            old(self).wf(),
            old(display).wf(),
            register_fault(*ins) is None,
            matches!(
                *ins,
                Instruction::LD_I(..)
                | Instruction::DRW(..)
                | Instruction::ADD_I(..)
                | Instruction::LD_F(..)
                | Instruction::LD_B(..)
                | Instruction::LD_I_write(..)
                | Instruction::LD_I_read(..),
            ),
        ensures
            final(self).wf(),
            final(display).wf(),
            exec_outcome(
                old(self)@,
                final(self)@,
                old(display).pixels@,
                final(display).pixels@,
                old(memory)@,
                final(memory)@,
                *ins,
                keys@,
                random,
                r,
            ),
    {
        let ghost c = self@;
        match *ins {
            Instruction::LD_I(addr) => self.i = addr,
            Instruction::DRW(vx, vy, n) => {
                if self.i as usize + n as usize > MEMORY_SIZE {
                    return Err(Chip8Error::AddressOutOfRange);
                }
                let start_x = self.read_reg(vx);
                let start_y = self.read_reg(vy);
                let sprite = memory.get_sprite(self.i, n);
                let collision = display.draw(start_x, start_y, sprite);
                self.write_reg(FLAG_REGISTER, collision);
            },
            Instruction::ADD_I(vx) => self.i = self.i.wrapping_add(self.read_reg(vx) as u16),
            Instruction::LD_F(vx) => self.i = memory.get_font_sprite_addr(self.read_reg(vx)),
            Instruction::LD_B(vx) => {
                if self.i as usize + 2 >= MEMORY_SIZE {
                    return Err(Chip8Error::AddressOutOfRange);
                }
                memory.store_bcd(self.read_reg(vx), self.i);
            },
            Instruction::LD_I_write(vx) => {
                if self.i as usize + vx as usize >= MEMORY_SIZE {
                    return Err(Chip8Error::AddressOutOfRange);
                }
                let ghost m0 = memory@;
                let mut addr = self.i;
                let mut reg: u8 = 0;
                while reg <= vx
                    invariant
                        vx < 16,
                        self.i + vx < MEMORY_SIZE,
                        self@ == c,
                        m0.len() == MEMORY_SIZE,
                        reg <= vx + 1,
                        addr == self.i + reg,
                        memory@.len() == MEMORY_SIZE,
                        forall|a: int|
                            0 <= a < MEMORY_SIZE ==> memory@[a] == (if self.i <= a < self.i + reg {
                                c.v[a - self.i]
                            } else {
                                m0[a]
                            }),
                    decreases vx + 1 - reg,
                {
                    memory.write_byte(addr, self.read_reg(reg));
                    addr = addr + 1;
                    reg = reg + 1;
                }
                assert(memory@ =~= exec_effect(c, *ins, display.pixels@, m0, keys@, random).2);
            },
            Instruction::LD_I_read(vx) => {
                if self.i as usize + vx as usize >= MEMORY_SIZE {
                    return Err(Chip8Error::AddressOutOfRange);
                }
                let mut addr = self.i;
                let mut reg: u8 = 0;
                while reg <= vx
                    invariant
                        vx < 16,
                        self.i + vx < MEMORY_SIZE,
                        self.wf(),
                        self@.i == c.i,
                        self@.dt == c.dt,
                        self@.st == c.st,
                        self@.pc == c.pc,
                        self@.stack == c.stack,
                        memory@.len() == MEMORY_SIZE,
                        reg <= vx + 1,
                        addr == self.i + reg,
                        self@.v.len() == 16,
                        forall|r: int|
                            0 <= r < 16 ==> self@.v[r] == (if r < reg {
                                memory@[c.i + r]
                            } else {
                                c.v[r]
                            }),
                    decreases vx + 1 - reg,
                {
                    let data = memory.read_byte(addr);
                    self.write_reg(reg, data);
                    addr = addr + 1;
                    reg = reg + 1;
                }
                assert(self@.v =~= exec_effect(c, *ins, display.pixels@, memory@, keys@, random).0.v);
            },
            _ => {},
        }
        Ok(())
    }

}

/// What `lowest_pressed` finds: a pressed key below `n` with no pressed key
/// before it, or nothing when no key below `n` is pressed.
pub proof fn lemma_lowest_pressed(keys: Seq<bool>, n: nat)
    requires
        n <= keys.len(),
    ensures
        match lowest_pressed(keys, n) {
            Some(k) => k < n && keys[k as int] && forall|j: int| 0 <= j < k ==> !keys[j],
            None => forall|j: int| 0 <= j < n ==> !keys[j],
        },
    decreases n,
{
    if n > 0 {
        lemma_lowest_pressed(keys, (n - 1) as nat);
    }
}

/// A return right after a call with room on the stack comes back to the
/// address that followed the call, with every register and the stack as they
/// were before the call.
pub proof fn lemma_call_then_return(
    c: CpuView,
    addr: u16,
    p: Seq<bool>,
    m: Seq<u8>,
    keys: Seq<bool>,
    rnd: u8,
)
    requires
        c.stack.len() < STACK_DEPTH,
    ensures
        exec_error(c, Instruction::CALL(addr)) is None,
        exec_effect(c, Instruction::CALL(addr), p, m, keys, rnd).0.pc == addr,
        exec_error(exec_effect(c, Instruction::CALL(addr), p, m, keys, rnd).0, Instruction::RET) is None,
        exec_effect(
            exec_effect(c, Instruction::CALL(addr), p, m, keys, rnd).0,
            Instruction::RET,
            p,
            m,
            keys,
            rnd,
        ).0 == c,
{
    let c1 = exec_effect(c, Instruction::CALL(addr), p, m, keys, rnd).0;
    assert(c1.stack.drop_last() =~= c.stack);
}

/// The processor state after `n` nested calls to `addr`, or the first error.
pub open spec fn after_calls(
    c: CpuView,
    addr: u16,
    n: nat,
    p: Seq<bool>,
    m: Seq<u8>,
    keys: Seq<bool>,
    rnd: u8,
) -> Result<CpuView, Chip8Error>
    decreases n,
{
    if n == 0 {
        Ok(c)
    } else {
        match after_calls(c, addr, (n - 1) as nat, p, m, keys, rnd) {
            Ok(c1) => match exec_error(c1, Instruction::CALL(addr)) {
                Some(e) => Err(e),
                None => Ok(exec_effect(c1, Instruction::CALL(addr), p, m, keys, rnd).0),
            },
            Err(e) => Err(e),
        }
    }
}

proof fn lemma_after_calls_depth(
    c: CpuView,
    addr: u16,
    n: nat,
    p: Seq<bool>,
    m: Seq<u8>,
    keys: Seq<bool>,
    rnd: u8,
)
    requires
        c.stack.len() == 0,
        n <= STACK_DEPTH,
    ensures
        after_calls(c, addr, n, p, m, keys, rnd) matches Ok(c1) && c1.stack.len() == n,
    decreases n,
{
    if n > 0 {
        lemma_after_calls_depth(c, addr, (n - 1) as nat, p, m, keys, rnd);
    }
}

/// From an empty stack, sixteen nested calls succeed and a seventeenth fails
/// with a stack overflow.
pub proof fn lemma_stack_capacity(
    c: CpuView,
    addr: u16,
    p: Seq<bool>,
    m: Seq<u8>,
    keys: Seq<bool>,
    rnd: u8,
)
    requires
        c.stack.len() == 0,
    ensures
        after_calls(c, addr, 16, p, m, keys, rnd) is Ok,
        after_calls(c, addr, 17, p, m, keys, rnd) == Err::<CpuView, Chip8Error>(
            Chip8Error::StackOverflow,
        ),
{
    lemma_after_calls_depth(c, addr, 16, p, m, keys, rnd);
}

/// The flag convention of register arithmetic, where the destination is not
/// the flag register itself: addition leaves the sum modulo 256 and sets the
/// flag to 1 exactly on overflow; subtraction leaves the difference modulo
/// 256 and sets the flag to 1 exactly when no borrow occurs.
pub proof fn lemma_arithmetic_flags(
    c: CpuView,
    x: u8,
    y: u8,
    p: Seq<bool>,
    m: Seq<u8>,
    keys: Seq<bool>,
    rnd: u8,
)
    requires
        x < FLAG_REGISTER,
        y < 16,
        c.v.len() == 16,
    ensures
        ({
            let (a, b) = (c.v[x as int] as int, c.v[y as int] as int);
            let add = exec_effect(c, Instruction::ADD_reg(x, y), p, m, keys, rnd).0.v;
            let sub = exec_effect(c, Instruction::SUB(x, y), p, m, keys, rnd).0.v;
            let subn = exec_effect(c, Instruction::SUBN(x, y), p, m, keys, rnd).0.v;
            &&& exec_error(c, Instruction::ADD_reg(x, y)) is None
            &&& exec_error(c, Instruction::SUB(x, y)) is None
            &&& exec_error(c, Instruction::SUBN(x, y)) is None
            &&& add[x as int] == (a + b) % 256
            &&& add[FLAG_REGISTER as int] == (if a + b > 255 { 1int } else { 0 })
            &&& sub[x as int] == (a - b + 256) % 256
            &&& sub[FLAG_REGISTER as int] == (if a >= b { 1int } else { 0 })
            &&& subn[x as int] == (b - a + 256) % 256
            &&& subn[FLAG_REGISTER as int] == (if b >= a { 1int } else { 0 })
        }),
{
}

} // verus!
