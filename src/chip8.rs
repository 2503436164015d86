use vstd::prelude::*;

use crate::cpu::{
    advance_cpu, exec_effect, exec_error, initial_cpu, lemma_lowest_pressed, lowest_pressed,
    random_byte, CpuView, CPU,
};
use crate::display::{blank_pixels, Display};
use crate::error::Chip8Error;
use crate::instruction::{decode, lemma_decoded_registers_valid, Instruction};
use crate::memory::{initial_memory, with_program, Memory, MEMORY_SIZE, PROGRAM_START};

verus! {

/// The whole machine seen as mathematical values.
pub struct MachineView {
    pub cpu: CpuView,
    pub pixels: Seq<bool>,
    pub mem: Seq<u8>,
    pub keys: Seq<bool>,
}

/// The opcode stored big-endian at `pc` and `pc + 1`.
pub open spec fn fetch(mem: Seq<u8>, pc: u16) -> u16 {
    ((mem[pc as int] as u16) << 8u16) | (mem[pc + 1] as u16)
}

/// What one step does to the machine `s`, with `rnd` the byte that `RND` masks:
/// fetch the opcode at the program counter, decode it, move the program
/// counter past it, count the timers down, then run it.
pub open spec fn step_spec(s: MachineView, rnd: u8) -> Result<MachineView, Chip8Error> {
    if s.cpu.pc + 1 >= MEMORY_SIZE {
        Err(Chip8Error::AddressOutOfRange)
    } else {
        let op = fetch(s.mem, s.cpu.pc);
        match decode(op) {
            None => Err(Chip8Error::InvalidOpcode(op)),
            Some(ins) => {
                let c1 = advance_cpu(s.cpu);
                match exec_error(c1, ins) {
                    Some(e) => Err(e),
                    None => {
                        let (c2, p2, m2) = exec_effect(c1, ins, s.pixels, s.mem, s.keys, rnd);
                        Ok(MachineView { cpu: c2, pixels: p2, mem: m2, keys: s.keys })
                    },
                }
            },
        }
    }
}

/// How a step relates the machine before (`s0`) and after (`s1`) to its result
/// `r`: on success the state that `step_spec` gives; on failure its error, with
/// the machine unchanged.
pub open spec fn step_outcome(
    s0: MachineView,
    s1: MachineView,
    rnd: u8,
    r: Result<(), Chip8Error>,
) -> bool {
    match step_spec(s0, rnd) {
        Ok(s) => r == Ok::<(), Chip8Error>(()) && s1 == s,
        Err(e) => r == Err::<(), Chip8Error>(e) && s1 == s0,
    }
}

/// The machine: processor, framebuffer, memory and the state of the 16 keys.
#[derive(Debug)]
pub struct Chip8 {
    pub cpu: CPU,
    pub display: Display,
    pub memory: Memory,
    pub keys: [bool; 16],
}

impl View for Chip8 {
    type V = MachineView;

    open spec fn view(&self) -> MachineView {
        MachineView {
            cpu: self.cpu@,
            pixels: self.display.pixels@,
            mem: self.memory@,
            keys: self.keys@,
        }
    }
}

impl Chip8 {
    /// Whether the processor and the framebuffer are well formed.
    pub open spec fn wf(&self) -> bool {
        self.cpu.wf() && self.display.wf()
    }

    /// A machine ready to run: initial processor and memory, a blank
    /// framebuffer and no key pressed.
    pub fn new() -> (r: Self)
        ensures
            r.wf(),
            r@.cpu == initial_cpu(),
            r@.pixels == blank_pixels(),
            r@.mem == initial_memory(),
            r@.keys == Seq::new(16, |k: int| false),
    {
        let r = Self {
            cpu: CPU::new(),
            display: Display::new(),
            memory: Memory::new(),
            keys: [false; 16],
        };
        assert(r@.keys =~= Seq::new(16, |k: int| false));
        r
    }

    /// Runs one step, with `random` as the byte that `RND` masks. On failure
    /// the machine is left as it was.
    pub fn tick_with_random(&mut self, random: u8) -> (r: Result<(), Chip8Error>)
        requires
            old(self).wf(),
        ensures
            final(self).wf(),
            step_outcome(old(self)@, final(self)@, random, r),
    {
        let pc = self.cpu.pc;
        if pc as usize + 1 >= MEMORY_SIZE {
            return Err(Chip8Error::AddressOutOfRange);
        }
        let high_byte = self.memory.read_byte(pc) as u16;
        let low_byte = self.memory.read_byte(pc + 1) as u16;
        let opcode = (high_byte << 8u16) | low_byte;
        let instruction = match Instruction::from_opcode(opcode) {
            Some(i) => i,
            None => return Err(Chip8Error::InvalidOpcode(opcode)),
        };
        let saved = self.cpu;
        self.cpu.pc = pc + 2;
        self.cpu.decrement_timers();
        assert(self.cpu@ == advance_cpu(saved@));
        let result = self.cpu.execute_with_random(
            &instruction,
            &mut self.display,
            &mut self.memory,
            &self.keys,
            random,
        );
        match result {
            Ok(()) => Ok(()),
            Err(e) => {
                self.cpu = saved;
                Err(e)
            },
        }
    }

    /// Runs one step as `tick_with_random` does, drawing the byte that `RND`
    /// masks at random.
    pub fn tick(&mut self) -> (r: Result<(), Chip8Error>)
        requires
            old(self).wf(),
        ensures
            final(self).wf(),
            exists|random: u8| step_outcome(old(self)@, final(self)@, random, r),
    {
        let random = random_byte();
        self.tick_with_random(random)
    }

    /// The framebuffer, row-major, for a renderer.
    pub fn get_display(&self) -> (r: &[bool])
        ensures
            r@ == self@.pixels,
    {
        self.display.get_ptr()
    }

    /// Records key `key` as pressed (`state` true) or released.
    pub fn update_key(&mut self, key: u8, state: bool)
        requires
            key < 16,
        ensures
            final(self)@ == (MachineView { keys: old(self)@.keys.update(key as int, state), ..old(self)@ }),
            final(self).wf() == old(self).wf(),
    {
        self.keys[key as usize] = state;
    }

    /// Brings processor, memory and framebuffer back to their initial state;
    /// the keys are kept.
    pub fn reset(&mut self)
        ensures
            final(self).wf(),
            final(self)@ == (MachineView {
                cpu: initial_cpu(),
                pixels: blank_pixels(),
                mem: initial_memory(),
                keys: old(self)@.keys,
            }),
    {
        self.display.clear();
        self.memory = Memory::new();
        self.cpu = CPU::new();
    }

    /// Copies `rom` to the load address. Fails, changing nothing, when it does
    /// not fit between the load address and the end of memory.
    pub fn load_rom(&mut self, rom: Vec<u8>) -> (r: Result<(), Chip8Error>)
        ensures
            final(self).wf() == old(self).wf(),
            PROGRAM_START + rom@.len() <= MEMORY_SIZE ==> r == Ok::<(), Chip8Error>(())
                && final(self)@ == (MachineView { mem: with_program(old(self)@.mem, rom@), ..old(self)@ }),
            PROGRAM_START + rom@.len() > MEMORY_SIZE ==> r == Err::<(), Chip8Error>(
                Chip8Error::ProgramTooLarge,
            ) && final(self)@ == old(self)@,
    {
        if rom.len() > MEMORY_SIZE - PROGRAM_START as usize {
            return Err(Chip8Error::ProgramTooLarge);
        }
        self.memory.load_rom(&rom);
        Ok(())
    }
}

/// Waiting for a key stalls while no key is pressed: the step succeeds and
/// leaves the program counter and memory as they were, so the next step
/// fetches the same instruction. With a key pressed, the step writes the
/// lowest pressed key's index into the register and moves the program counter
/// past the instruction.
pub proof fn lemma_key_wait(s: MachineView, rnd: u8, x: u8)
    requires
        s.cpu.pc + 1 < MEMORY_SIZE,
        decode(fetch(s.mem, s.cpu.pc)) == Some(Instruction::LD_reg_from_key(x)),
        s.cpu.v.len() == 16,
        s.keys.len() == 16,
    ensures
        step_spec(s, rnd) is Ok,
        (forall|k: int| 0 <= k < 16 ==> !s.keys[k]) ==> {
            let next = step_spec(s, rnd)->Ok_0;
            &&& next.cpu.pc == s.cpu.pc
            &&& next.mem == s.mem
            &&& decode(fetch(next.mem, next.cpu.pc)) == Some(Instruction::LD_reg_from_key(x))
        },
        forall|k: int|
            0 <= k < 16 && s.keys[k] && (forall|j: int| 0 <= j < k ==> !s.keys[j]) ==> {
                let next = step_spec(s, rnd)->Ok_0;
                &&& next.cpu.pc == s.cpu.pc + 2
                &&& next.cpu.v[x as int] == k
            },
{
    lemma_decoded_registers_valid(fetch(s.mem, s.cpu.pc));
    lemma_lowest_pressed(s.keys, 16);
}

} // verus!
