use vstd::prelude::*;

verus! {

/// The ways a step of the machine can fail. Each is fatal to the step that
/// raised it: the machine is left as it was before that step.
#[derive(Debug, Clone, Copy, PartialEq, Eq, Structural)]
pub enum Chip8Error {
    /// The opcode matches no instruction.
    InvalidOpcode(u16),
    /// An instruction names a register outside 0..=15.
    RegisterOutOfRange(u8),
    /// `CALL` with all sixteen stack slots in use.
    StackOverflow,
    /// `RET` with an empty stack.
    StackUnderflow,
    /// A memory access outside 0..=4095.
    AddressOutOfRange,
    /// A key instruction names a key outside 0..=15.
    KeyOutOfRange(u8),
    /// A program too long to fit between the load address and the end of memory.
    ProgramTooLarge,
}

} // verus!
