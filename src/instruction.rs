use vstd::prelude::*;

verus! {

/// One decoded instruction of the base instruction set. Register operands are
/// indices 0..=15, addresses are 12-bit, bytes are 8-bit immediates.
#[allow(non_camel_case_types)]
#[derive(Debug, Clone, Copy, PartialEq, Eq, Structural)]
pub enum Instruction {
    SYS(u16),
    CLS,
    RET,
    JP(u16),
    CALL(u16),
    SE_byte(u8, u8),
    SNE_byte(u8, u8),
    SE_reg(u8, u8),
    LD_byte(u8, u8),
    ADD_byte(u8, u8),
    LD_reg(u8, u8),
    OR(u8, u8),
    AND(u8, u8),
    XOR(u8, u8),
    ADD_reg(u8, u8),
    SUB(u8, u8),
    SHR(u8),
    SUBN(u8, u8),
    SHL(u8),
    SNE_reg(u8, u8),
    LD_I(u16),
    JP_V0(u16),
    RND(u8, u8),
    DRW(u8, u8, u8),
    SKP(u8),
    SKNP(u8),
    LD_reg_from_DT(u8),
    LD_reg_from_key(u8),
    LD_DT_from_reg(u8),
    LD_ST_from_reg(u8),
    ADD_I(u8),
    LD_F(u8),
    LD_B(u8),
    LD_I_write(u8),
    LD_I_read(u8),
}

/// Top nibble: the instruction family.
pub open spec fn op_family(op: u16) -> u8 {
    ((op & 0xF000) >> 12) as u8
}

/// Low 12 bits: an address.
pub open spec fn op_addr(op: u16) -> u16 {
    op & 0x0FFF
}

/// Second nibble: the first register operand.
pub open spec fn op_x(op: u16) -> u8 {
    ((op & 0x0F00) >> 8) as u8
}

/// Third nibble: the second register operand.
pub open spec fn op_y(op: u16) -> u8 {
    ((op & 0x00F0) >> 4) as u8
}

/// Low byte: an immediate value, or a sub-selector.
pub open spec fn op_byte(op: u16) -> u8 {
    (op & 0x00FF) as u8
}

/// Low nibble: a sprite height, or a sub-selector.
pub open spec fn op_nibble(op: u16) -> u8 {
    (op & 0x000F) as u8
}

/// The instruction that `op` encodes, or `None` where its sub-selector matches
/// no instruction.
pub open spec fn decode(op: u16) -> Option<Instruction> {
    let x = op_x(op);
    let y = op_y(op);
    let kk = op_byte(op);
    let n = op_nibble(op);
    let nnn = op_addr(op);
    let f = op_family(op);
    if f == 0x0 {
        if kk == 0xE0 {
            Some(Instruction::CLS)
        } else if kk == 0xEE {
            Some(Instruction::RET)
        } else {
            Some(Instruction::SYS(nnn))
        }
    } else if f == 0x1 {
        Some(Instruction::JP(nnn))
    } else if f == 0x2 {
        Some(Instruction::CALL(nnn))
    } else if f == 0x3 {
        Some(Instruction::SE_byte(x, kk))
    } else if f == 0x4 {
        Some(Instruction::SNE_byte(x, kk))
    } else if f == 0x5 {
        Some(Instruction::SE_reg(x, y))
    } else if f == 0x6 {
        Some(Instruction::LD_byte(x, kk))
    } else if f == 0x7 {
        Some(Instruction::ADD_byte(x, kk))
    } else if f == 0x8 {
        if n == 0x0 {
            Some(Instruction::LD_reg(x, y))
        } else if n == 0x1 {
            Some(Instruction::OR(x, y))
        } else if n == 0x2 {
            Some(Instruction::AND(x, y))
        } else if n == 0x3 {
            Some(Instruction::XOR(x, y))
        } else if n == 0x4 {
            Some(Instruction::ADD_reg(x, y))
        } else if n == 0x5 {
            Some(Instruction::SUB(x, y))
        } else if n == 0x6 {
            Some(Instruction::SHR(x))
        } else if n == 0x7 {
            Some(Instruction::SUBN(x, y))
        } else if n == 0xE {
            Some(Instruction::SHL(x))
        } else {
            None
        }
    } else if f == 0x9 {
        Some(Instruction::SNE_reg(x, y))
    } else if f == 0xA {
        Some(Instruction::LD_I(nnn))
    } else if f == 0xB {
        Some(Instruction::JP_V0(nnn))
    } else if f == 0xC {
        Some(Instruction::RND(x, kk))
    } else if f == 0xD {
        Some(Instruction::DRW(x, y, n))
    } else if f == 0xE {
        if kk == 0x9E {
            Some(Instruction::SKP(x))
        } else if kk == 0xA1 {
            Some(Instruction::SKNP(x))
        } else {
            None
        }
    } else {
        if kk == 0x07 {
            Some(Instruction::LD_reg_from_DT(x))
        } else if kk == 0x0A {
            Some(Instruction::LD_reg_from_key(x))
        } else if kk == 0x15 {
            Some(Instruction::LD_DT_from_reg(x))
        } else if kk == 0x18 {
            Some(Instruction::LD_ST_from_reg(x))
        } else if kk == 0x1E {
            Some(Instruction::ADD_I(x))
        } else if kk == 0x29 {
            Some(Instruction::LD_F(x))
        } else if kk == 0x33 {
            Some(Instruction::LD_B(x))
        } else if kk == 0x55 {
            Some(Instruction::LD_I_write(x))
        } else if kk == 0x65 {
            Some(Instruction::LD_I_read(x))
        } else {
            None
        }
    }
}

/// The first register operand of `ins` that is not a register index, if any.
pub open spec fn register_fault(ins: Instruction) -> Option<u8> {
    match ins {
        Instruction::SE_byte(x, _)
        | Instruction::SNE_byte(x, _)
        | Instruction::LD_byte(x, _)
        | Instruction::ADD_byte(x, _)
        | Instruction::SHR(x)
        | Instruction::SHL(x)
        | Instruction::RND(x, _)
        | Instruction::SKP(x)
        | Instruction::SKNP(x)
        | Instruction::LD_reg_from_DT(x)
        | Instruction::LD_reg_from_key(x)
        | Instruction::LD_DT_from_reg(x)
        | Instruction::LD_ST_from_reg(x)
        | Instruction::ADD_I(x)
        | Instruction::LD_F(x)
        | Instruction::LD_B(x)
        | Instruction::LD_I_write(x)
        | Instruction::LD_I_read(x) => if x >= 16 {
            Some(x)
        } else {
            None
        },
        Instruction::SE_reg(x, y)
        | Instruction::LD_reg(x, y)
        | Instruction::OR(x, y)
        | Instruction::AND(x, y)
        | Instruction::XOR(x, y)
        | Instruction::ADD_reg(x, y)
        | Instruction::SUB(x, y)
        | Instruction::SUBN(x, y)
        | Instruction::SNE_reg(x, y)
        | Instruction::DRW(x, y, _) => if x >= 16 {
            Some(x)
        } else if y >= 16 {
            Some(y)
        } else {
            None
        },
        _ => None,
    }
}

impl Instruction {
    /// Decodes a 16-bit opcode.
    pub fn from_opcode(opcode: u16) -> (r: Option<Self>)
        ensures
            r == decode(opcode),
            r matches Some(ins) ==> register_fault(ins) is None,
    {
        let first_nibble: u8 = ((opcode & 0xF000) >> 12) as u8;
        let last_nibble: u8 = (opcode & 0x000F) as u8;
        let addr: u16 = opcode & 0x0FFF;
        let vx: u8 = ((opcode & 0x0F00) >> 8) as u8;
        let vy: u8 = ((opcode & 0x00F0) >> 4) as u8;
        let byte: u8 = (opcode & 0x00FF) as u8;
        proof {
            lemma_fields_in_range(opcode);
        }
        match first_nibble {
            0x0 => match byte {
                0xE0 => Some(Self::CLS),
                0xEE => Some(Self::RET),
                _ => Some(Self::SYS(addr)),
            },
            0x1 => Some(Self::JP(addr)),
            0x2 => Some(Self::CALL(addr)),
            0x3 => Some(Self::SE_byte(vx, byte)),
            0x4 => Some(Self::SNE_byte(vx, byte)),
            0x5 => Some(Self::SE_reg(vx, vy)),
            0x6 => Some(Self::LD_byte(vx, byte)),
            0x7 => Some(Self::ADD_byte(vx, byte)),
            0x8 => match last_nibble {
                0x0 => Some(Self::LD_reg(vx, vy)),
                0x1 => Some(Self::OR(vx, vy)),
                0x2 => Some(Self::AND(vx, vy)),
                0x3 => Some(Self::XOR(vx, vy)),
                0x4 => Some(Self::ADD_reg(vx, vy)),
                0x5 => Some(Self::SUB(vx, vy)),
                0x6 => Some(Self::SHR(vx)),
                0x7 => Some(Self::SUBN(vx, vy)),
                0xE => Some(Self::SHL(vx)),
                _ => None,
            },
            0x9 => Some(Self::SNE_reg(vx, vy)),
            0xA => Some(Self::LD_I(addr)),
            0xB => Some(Self::JP_V0(addr)),
            0xC => Some(Self::RND(vx, byte)),
            0xD => Some(Self::DRW(vx, vy, last_nibble)),
            0xE => match byte {
                0x9E => Some(Self::SKP(vx)),
                0xA1 => Some(Self::SKNP(vx)),
                _ => None,
            },
            _ => match byte {
                0x07 => Some(Self::LD_reg_from_DT(vx)),
                0x0A => Some(Self::LD_reg_from_key(vx)),
                0x15 => Some(Self::LD_DT_from_reg(vx)),
                0x18 => Some(Self::LD_ST_from_reg(vx)),
                0x1E => Some(Self::ADD_I(vx)),
                0x29 => Some(Self::LD_F(vx)),
                0x33 => Some(Self::LD_B(vx)),
                0x55 => Some(Self::LD_I_write(vx)),
                0x65 => Some(Self::LD_I_read(vx)),
                _ => None,
            },
        }
    }
}

impl Instruction {
    /// The first register operand of the instruction that is not a register
    /// index, if any.
    pub fn invalid_register(&self) -> (r: Option<u8>)
        ensures
            r == register_fault(*self),
    {
        match *self {
            Instruction::SE_byte(x, _)
            | Instruction::SNE_byte(x, _)
            | Instruction::LD_byte(x, _)
            | Instruction::ADD_byte(x, _)
            | Instruction::SHR(x)
            | Instruction::SHL(x)
            | Instruction::RND(x, _)
            | Instruction::SKP(x)
            | Instruction::SKNP(x)
            | Instruction::LD_reg_from_DT(x)
            | Instruction::LD_reg_from_key(x)
            | Instruction::LD_DT_from_reg(x)
            | Instruction::LD_ST_from_reg(x)
            | Instruction::ADD_I(x)
            | Instruction::LD_F(x)
            | Instruction::LD_B(x)
            | Instruction::LD_I_write(x)
            | Instruction::LD_I_read(x) => if x >= 16 {
                Some(x)
            } else {
                None
            },
            Instruction::SE_reg(x, y)
            | Instruction::LD_reg(x, y)
            | Instruction::OR(x, y)
            | Instruction::AND(x, y)
            | Instruction::XOR(x, y)
            | Instruction::ADD_reg(x, y)
            | Instruction::SUB(x, y)
            | Instruction::SUBN(x, y)
            | Instruction::SNE_reg(x, y)
            | Instruction::DRW(x, y, _) => if x >= 16 {
                Some(x)
            } else if y >= 16 {
                Some(y)
            } else {
                None
            },
            _ => None,
        }
    }
}

/// Every field of an opcode fits its width: the family and the register
/// operands are nibbles, the address has 12 bits.
pub proof fn lemma_fields_in_range(op: u16)
    ensures
        op_family(op) < 16,
        op_x(op) < 16,
        op_y(op) < 16,
        op_nibble(op) < 16,
        op_addr(op) < 4096,
{
    assert(((op & 0xF000) >> 12) < 16) by (bit_vector);
    assert(((op & 0x0F00) >> 8) < 16) by (bit_vector);
    assert(((op & 0x00F0) >> 4) < 16) by (bit_vector);
    assert((op & 0x000F) < 16) by (bit_vector);
    assert((op & 0x0FFF) < 4096) by (bit_vector);
}

/// Decoding never yields a register operand outside 0..=15.
pub proof fn lemma_decoded_registers_valid(op: u16)
    ensures
        decode(op) matches Some(ins) ==> register_fault(ins) is None,
{
    lemma_fields_in_range(op);
}

} // verus!
