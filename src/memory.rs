use vstd::prelude::*;

verus! {

/// Size of the flat address space, in bytes.
pub const MEMORY_SIZE: usize = 4096;

/// Address at which programs are loaded and execution starts.
pub const PROGRAM_START: u16 = 0x200;

/// The sixteen 5-byte glyphs of the hexadecimal digits, stored from address 0.
pub open spec fn font_data() -> Seq<u8> {
    seq![
        0xF0u8, 0x90, 0x90, 0x90, 0xF0, // 0
        0x20, 0x60, 0x20, 0x20, 0x70, // 1
        0xF0, 0x10, 0xF0, 0x80, 0xF0, // 2
        0xF0, 0x10, 0xF0, 0x10, 0xF0, // 3
        0x90, 0x90, 0xF0, 0x10, 0x10, // 4
        0xF0, 0x80, 0xF0, 0x10, 0xF0, // 5
        0xF0, 0x80, 0xF0, 0x90, 0xF0, // 6
        0xF0, 0x10, 0x20, 0x40, 0x40, // 7
        0xF0, 0x90, 0xF0, 0x90, 0xF0, // 8
        0xF0, 0x90, 0xF0, 0x10, 0xF0, // 9
        0xF0, 0x90, 0xF0, 0x90, 0x90, // A
        0xE0, 0x90, 0xE0, 0x90, 0xE0, // B
        0xF0, 0x80, 0x80, 0x80, 0xF0, // C
        0xE0, 0x90, 0x90, 0x90, 0xE0, // D
        0xF0, 0x80, 0xF0, 0x80, 0xF0, // E
        0xF0, 0x80, 0xF0, 0x80, 0x80, // F
    ]
}

/// Memory as it is right after creation: the font table, then zeros.
pub open spec fn initial_memory() -> Seq<u8> {
    Seq::new(MEMORY_SIZE as nat, |a: int| if a < 80 { font_data()[a] } else { 0u8 })
}

/// Memory after `rom` is copied to the load address.
pub open spec fn with_program(mem: Seq<u8>, rom: Seq<u8>) -> Seq<u8> {
    Seq::new(
        mem.len(),
        |a: int|
            if PROGRAM_START <= a < PROGRAM_START + rom.len() {
                rom[a - PROGRAM_START]
            } else {
                mem[a]
            },
    )
}

/// Memory after the three decimal digits of `value` are written from `addr`.
pub open spec fn with_bcd(mem: Seq<u8>, value: u8, addr: int) -> Seq<u8> {
    mem.update(addr, value / 100).update(addr + 1, (value / 10) % 10).update(addr + 2, value % 10)
}

/// The 4096-byte address space of the machine.
#[derive(Debug)]
pub struct Memory {
    pub bytes: [u8; 4096],
}

impl View for Memory {
    type V = Seq<u8>;

    open spec fn view(&self) -> Seq<u8> {
        self.bytes@
    }
}

/// Relies on the `Debug` formatting of a byte array, for a diagnostic dump.
#[verifier::external_body]
fn debug_bytes(bytes: &[u8; 4096]) -> String {
    format!("{:?}", bytes)
}

impl Memory {
    /// A memory holding the font table at addresses 0..80 and zeros elsewhere.
    pub fn new() -> (r: Self)
        ensures
            r@ == initial_memory(),
    {
        let mut memory = Self { bytes: [0u8; 4096] };
        let font_sprites: [u8; 80] = [
            0xF0, 0x90, 0x90, 0x90, 0xF0, // 0
            0x20, 0x60, 0x20, 0x20, 0x70, // 1
            0xF0, 0x10, 0xF0, 0x80, 0xF0, // 2
            0xF0, 0x10, 0xF0, 0x10, 0xF0, // 3
            0x90, 0x90, 0xF0, 0x10, 0x10, // 4
            0xF0, 0x80, 0xF0, 0x10, 0xF0, // 5
            0xF0, 0x80, 0xF0, 0x90, 0xF0, // 6
            0xF0, 0x10, 0x20, 0x40, 0x40, // 7
            0xF0, 0x90, 0xF0, 0x90, 0xF0, // 8
            0xF0, 0x90, 0xF0, 0x10, 0xF0, // 9
            0xF0, 0x90, 0xF0, 0x90, 0x90, // A
            0xE0, 0x90, 0xE0, 0x90, 0xE0, // B
            0xF0, 0x80, 0x80, 0x80, 0xF0, // C
            0xE0, 0x90, 0x90, 0x90, 0xE0, // D
            0xF0, 0x80, 0xF0, 0x80, 0xF0, // E
            0xF0, 0x80, 0xF0, 0x80, 0x80, // F
        ];
        assert(font_sprites@ =~= font_data());
        let mut byte: u16 = 0;
        while byte < 80
            invariant
                byte <= 80,
                font_sprites@ == font_data(),
                memory@.len() == MEMORY_SIZE,
                forall|a: int| 0 <= a < byte ==> memory@[a] == font_data()[a],
                forall|a: int| byte <= a < MEMORY_SIZE ==> memory@[a] == 0,
            decreases 80 - byte,
        {
            memory.write_byte(byte, font_sprites[byte as usize]);
            byte = byte + 1;
        }
        assert(memory@ =~= initial_memory());
        memory
    }

    /// The byte at `addr`.
    pub fn read_byte(&self, addr: u16) -> (r: u8)
        requires
            addr < MEMORY_SIZE,
        ensures
            r == self@[addr as int],
    {
        self.bytes[addr as usize]
    }

    /// Stores `data` at `addr`.
    pub fn write_byte(&mut self, addr: u16, data: u8)
        requires
            addr < MEMORY_SIZE,
        ensures
            final(self)@ == old(self)@.update(addr as int, data),
    {
        self.bytes[addr as usize] = data;
    }

    /// Address of the font glyph of the hexadecimal digit `sprite`.
    pub fn get_font_sprite_addr(&self, sprite: u8) -> (r: u16)
        ensures
            r == sprite * 5,
    {
        sprite as u16 * 5
    }

    /// A textual dump of the whole memory, for diagnostics.
    pub fn print_mem(&self) -> String {
        debug_bytes(&self.bytes)
    }

    /// The `length` bytes starting at `addr`.
    pub fn get_sprite(&self, addr: u16, length: u8) -> (r: &[u8])
        requires
            addr + length <= MEMORY_SIZE,
        ensures
            r@ == self@.subrange(addr as int, addr + length),
    {
        let start = addr as usize;
        let end = (addr + length as u16) as usize;
        &self.bytes[start..end]
    }

    /// Copies `rom` to the load address; the rest of memory is kept.
    pub fn load_rom(&mut self, rom: &Vec<u8>)
        requires
            PROGRAM_START + rom.len() <= MEMORY_SIZE,
        ensures
            final(self)@ == with_program(old(self)@, rom@),
    {
        let mut i: usize = 0;
        while i < rom.len()
            invariant
                i <= rom.len(),
                PROGRAM_START + rom.len() <= MEMORY_SIZE,
                self@.len() == MEMORY_SIZE,
                forall|a: int|
                    0 <= a < MEMORY_SIZE ==> self@[a] == (if PROGRAM_START <= a < PROGRAM_START + i {
                        rom@[a - PROGRAM_START]
                    } else {
                        old(self)@[a]
                    }),
            decreases rom.len() - i,
        {
            let addr = PROGRAM_START + i as u16;
            let data = rom[i];
            self.write_byte(addr, data);
            i = i + 1;
        }
        assert(self@ =~= with_program(old(self)@, rom@));
    }

    /// Writes the hundreds, tens and ones digits of `value` at `addr`, `addr + 1`
    /// and `addr + 2`.
    pub fn store_bcd(&mut self, value: u8, addr: u16)
        requires
            addr + 2 < MEMORY_SIZE,
        ensures
            final(self)@ == with_bcd(old(self)@, value, addr as int),
    {
        let hundreds = value / 100;
        let tens = (value / 10) % 10;
        let ones = value % 10;
        self.write_byte(addr, hundreds);
        self.write_byte(addr + 1, tens);
        self.write_byte(addr + 2, ones);
    }
}

/// The three digits that `store_bcd` writes are decimal digits, and read back
/// in order they give the value again.
pub proof fn lemma_bcd_digits(value: u8)
    ensures
        value / 100 < 10,
        (value / 10) % 10 < 10,
        value % 10 < 10,
        100 * (value / 100) + 10 * ((value / 10) % 10) + value % 10 == value,
{
}

} // verus!
