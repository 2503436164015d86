use chip8::{Chip8, Chip8Error};

fn machine(program: &[u8]) -> Chip8 {
    let mut m = Chip8::new();
    m.load_rom(program.to_vec()).unwrap();
    m
}

#[test]
fn tick_runs_one_instruction_and_counts_timers() {
    // LD V1, 0x42 ; LD DT, V1
    let mut m = machine(&[0x61, 0x42, 0xF1, 0x15]);
    m.tick().unwrap();
    assert_eq!(m.cpu.v[1], 0x42);
    assert_eq!(m.cpu.pc, 0x202);
    m.tick().unwrap();
    assert_eq!(m.cpu.dt, 0x42);
    assert_eq!(m.cpu.pc, 0x204);
    m.tick().unwrap();
    assert_eq!(m.cpu.dt, 0x41);
}

#[test]
fn tick_rejects_invalid_opcode_without_advancing() {
    let mut m = machine(&[0x80, 0x08]);
    assert_eq!(m.tick(), Err(Chip8Error::InvalidOpcode(0x8008)));
    assert_eq!(m.cpu.pc, 0x200);
}

#[test]
fn tick_failure_leaves_machine_unchanged() {
    // RET with an empty stack
    let mut m = machine(&[0x00, 0xEE]);
    m.cpu.dt = 5;
    assert_eq!(m.tick(), Err(Chip8Error::StackUnderflow));
    assert_eq!(m.cpu.pc, 0x200);
    assert_eq!(m.cpu.dt, 5);
}

#[test]
fn tick_at_end_of_memory_fails() {
    let mut m = Chip8::new();
    m.cpu.pc = 4095;
    assert_eq!(m.tick(), Err(Chip8Error::AddressOutOfRange));
}

#[test]
fn key_wait_stalls_until_a_key_is_pressed() {
    // LD V2, K
    let mut m = machine(&[0xF2, 0x0A]);
    m.cpu.dt = 10;
    m.tick().unwrap();
    assert_eq!(m.cpu.pc, 0x200);
    m.tick().unwrap();
    assert_eq!(m.cpu.pc, 0x200);
    assert_eq!(m.cpu.dt, 8);
    m.update_key(0xC, true);
    m.tick().unwrap();
    assert_eq!(m.cpu.v[2], 0xC);
    assert_eq!(m.cpu.pc, 0x202);
}

#[test]
fn call_and_return_through_ticks() {
    // 0x200: CALL 0x206 ; 0x202: LD V0, 1 ; 0x204: JP 0x204 ; 0x206: RET
    let mut m = machine(&[0x22, 0x06, 0x60, 0x01, 0x12, 0x04, 0x00, 0xEE]);
    m.tick().unwrap();
    assert_eq!(m.cpu.pc, 0x206);
    m.tick().unwrap();
    assert_eq!(m.cpu.pc, 0x202);
    m.tick().unwrap();
    assert_eq!(m.cpu.v[0], 1);
}

#[test]
fn seventeen_nested_calls_overflow() {
    // CALL 0x200 at 0x200: calls itself
    let mut m = machine(&[0x22, 0x00]);
    for _ in 0..16 {
        m.tick().unwrap();
    }
    assert_eq!(m.tick(), Err(Chip8Error::StackOverflow));
}

#[test]
fn draw_font_glyph_through_ticks() {
    // LD V0, 0xA ; LD F, V0 ; DRW V1, V1, 5
    let mut m = machine(&[0x60, 0x0A, 0xF0, 0x29, 0xD1, 0x15]);
    for _ in 0..3 {
        m.tick().unwrap();
    }
    assert_eq!(m.cpu.i, 50);
    assert_eq!(m.cpu.v[15], 0);
    let pixels = m.get_display();
    assert_eq!(&pixels[0..4], &[true, true, true, true]);
    assert_eq!(&pixels[64..68], &[true, false, false, true]);
}

#[test]
fn update_key_and_reset() {
    let mut m = machine(&[0x61, 0x42]);
    m.update_key(3, true);
    m.tick().unwrap();
    m.display.draw(0, 0, &[0xFF]);
    m.reset();
    assert_eq!(m.cpu.pc, 0x200);
    assert_eq!(m.cpu.v[1], 0);
    assert_eq!(m.memory.read_byte(0x200), 0);
    assert_eq!(m.memory.read_byte(0), 0xF0);
    assert!(m.get_display().iter().all(|p| !*p));
    assert!(m.keys[3]);
}

#[test]
fn load_rom_too_large_is_refused() {
    let mut m = Chip8::new();
    assert_eq!(m.load_rom(vec![1; 4096 - 0x200 + 1]), Err(Chip8Error::ProgramTooLarge));
    assert_eq!(m.memory.read_byte(0x200), 0);
    assert_eq!(m.load_rom(vec![1; 4096 - 0x200]), Ok(()));
    assert_eq!(m.memory.read_byte(4095), 1);
}

#[test]
fn tick_with_random_masks_given_byte() {
    // RND V7, 0x3C
    let mut m = machine(&[0xC7, 0x3C]);
    m.tick_with_random(0xFF).unwrap();
    assert_eq!(m.cpu.v[7], 0x3C);
}
