use chip8::{Memory, PROGRAM_START};

#[test]
fn read_write_test() {
    let mut memory = Memory::new();
    memory.write_byte(0x200, 200);
    assert_eq!(memory.read_byte(0x200), 200);
}

#[test]
fn load_rom_test() {
    let mut memory = Memory::new();
    let mut rom: Vec<u8> = Vec::new();
    rom.push(18);
    memory.load_rom(&rom);
    assert_eq!(memory.read_byte(0x200), 18);
}

#[test]
fn get_sprite_test() {
    let mut memory = Memory::new();
    memory.write_byte(0x200, 200);
    memory.write_byte(0x201, 201);
    memory.write_byte(0x202, 202);
    memory.write_byte(0x203, 203);
    let sprite = memory.get_sprite(0x200, 4);
    assert_eq!(sprite, &[200, 201, 202, 203]);
}

#[test]
fn new_memory_holds_font_then_zeros() {
    let memory = Memory::new();
    assert_eq!(memory.get_sprite(0, 5), &[0xF0, 0x90, 0x90, 0x90, 0xF0]);
    assert_eq!(memory.get_sprite(75, 5), &[0xF0, 0x80, 0xF0, 0x80, 0x80]);
    assert_eq!(memory.read_byte(80), 0);
    assert_eq!(memory.read_byte(4095), 0);
}

#[test]
fn load_rom_keeps_rest_of_memory() {
    let mut memory = Memory::new();
    memory.write_byte(0x210, 7);
    memory.load_rom(&vec![1, 2, 3]);
    assert_eq!(memory.get_sprite(PROGRAM_START, 4), &[1, 2, 3, 0]);
    assert_eq!(memory.read_byte(0x210), 7);
    assert_eq!(memory.read_byte(0), 0xF0);
}

#[test]
fn load_rom_fills_to_end_of_memory() {
    let mut memory = Memory::new();
    let rom = vec![9u8; 4096 - 0x200];
    memory.load_rom(&rom);
    assert_eq!(memory.read_byte(4095), 9);
    assert_eq!(memory.read_byte(0x1FF), 0);
}

#[test]
fn font_address_of_a_is_fifty() {
    let memory = Memory::new();
    assert_eq!(memory.get_font_sprite_addr(0xA), 50);
    assert_eq!(memory.get_font_sprite_addr(0), 0);
    assert_eq!(memory.get_font_sprite_addr(0xF), 75);
}

#[test]
fn store_bcd_of_157() {
    let mut memory = Memory::new();
    memory.store_bcd(157, 0x300);
    assert_eq!(memory.get_sprite(0x300, 3), &[1, 5, 7]);
}

#[test]
fn store_bcd_of_every_byte() {
    let mut memory = Memory::new();
    for value in 0..=255u8 {
        memory.store_bcd(value, 0x400);
        let digits = memory.get_sprite(0x400, 3);
        assert!(digits.iter().all(|d| *d < 10));
        let back = digits[0] as u32 * 100 + digits[1] as u32 * 10 + digits[2] as u32;
        assert_eq!(back, value as u32);
    }
    memory.store_bcd(0, 0x400);
    assert_eq!(memory.get_sprite(0x400, 3), &[0, 0, 0]);
    memory.store_bcd(255, 0x400);
    assert_eq!(memory.get_sprite(0x400, 3), &[2, 5, 5]);
}

#[test]
fn print_mem_dumps_every_byte() {
    let memory = Memory::new();
    let dump = memory.print_mem();
    assert!(dump.starts_with("[240, 144, 144, 144, 240, 32, 96"));
    assert!(dump.ends_with("0, 0]"));
    assert_eq!(dump.matches(", ").count(), 4095);
}
