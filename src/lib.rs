//! The execution core of a CHIP-8 virtual machine: memory with its font table,
//! the instruction decoder, the sprite-drawing framebuffer and the execution
//! engine, each with a contract proved by Verus.

mod chip8;
mod cpu;
mod display;
mod error;
mod instruction;
mod memory;

pub use chip8::{fetch, lemma_key_wait, step_outcome, step_spec, Chip8, MachineView};
pub use cpu::{
    add16, add8, advance_cpu, after_calls, exec_effect, exec_error, exec_outcome, initial_cpu,
    lemma_arithmetic_flags, lemma_call_then_return, lemma_lowest_pressed, lemma_stack_capacity,
    lowest_pressed, set_reg,
    skip_if, sub16, sub8, tick_down, CpuView, CPU, FLAG_REGISTER, STACK_DEPTH,
};
pub use display::{
    bit_at, blank_pixels, byte_as_bool_array, draw_sprite, draw_steps, draw_target, hits_before,
    lemma_draw_on_clear_region, lemma_draw_twice, pixel_index, region_is_off, sprite_bit,
    sprite_is_blank, Display, DISPLAY_HEIGHT, DISPLAY_SIZE, DISPLAY_WIDTH,
};
pub use error::Chip8Error;
pub use instruction::{
    decode, lemma_decoded_registers_valid, lemma_fields_in_range, op_addr, op_byte, op_family,
    op_nibble, op_x, op_y, register_fault, Instruction,
};
pub use memory::{
    font_data, initial_memory, lemma_bcd_digits, with_bcd, with_program, Memory, MEMORY_SIZE,
    PROGRAM_START,
};
