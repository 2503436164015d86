use chip8::Instruction as I;

fn d(op: u16) -> Option<I> {
    I::from_opcode(op)
}

#[test]
fn decode_system_family() {
    assert_eq!(d(0x00E0), Some(I::CLS));
    assert_eq!(d(0x00EE), Some(I::RET));
    assert_eq!(d(0x0123), Some(I::SYS(0x123)));
}

#[test]
fn decode_address_families() {
    assert_eq!(d(0x1234), Some(I::JP(0x234)));
    assert_eq!(d(0x2ABC), Some(I::CALL(0xABC)));
    assert_eq!(d(0xA123), Some(I::LD_I(0x123)));
    assert_eq!(d(0xBFFF), Some(I::JP_V0(0xFFF)));
}

#[test]
fn decode_register_byte_families() {
    assert_eq!(d(0x3A12), Some(I::SE_byte(0xA, 0x12)));
    assert_eq!(d(0x4B34), Some(I::SNE_byte(0xB, 0x34)));
    assert_eq!(d(0x5120), Some(I::SE_reg(1, 2)));
    assert_eq!(d(0x6C56), Some(I::LD_byte(0xC, 0x56)));
    assert_eq!(d(0x7D78), Some(I::ADD_byte(0xD, 0x78)));
    assert_eq!(d(0x9340), Some(I::SNE_reg(3, 4)));
    assert_eq!(d(0xC5F0), Some(I::RND(5, 0xF0)));
    assert_eq!(d(0xD12F), Some(I::DRW(1, 2, 0xF)));
}

#[test]
fn decode_arithmetic_family() {
    assert_eq!(d(0x8120), Some(I::LD_reg(1, 2)));
    assert_eq!(d(0x8121), Some(I::OR(1, 2)));
    assert_eq!(d(0x8122), Some(I::AND(1, 2)));
    assert_eq!(d(0x8123), Some(I::XOR(1, 2)));
    assert_eq!(d(0x8124), Some(I::ADD_reg(1, 2)));
    assert_eq!(d(0x8125), Some(I::SUB(1, 2)));
    assert_eq!(d(0x8126), Some(I::SHR(1)));
    assert_eq!(d(0x8127), Some(I::SUBN(1, 2)));
    assert_eq!(d(0x812E), Some(I::SHL(1)));
    assert_eq!(d(0x8128), None);
    assert_eq!(d(0x812F), None);
}

#[test]
fn decode_key_and_misc_families() {
    assert_eq!(d(0xE19E), Some(I::SKP(1)));
    assert_eq!(d(0xE2A1), Some(I::SKNP(2)));
    assert_eq!(d(0xE200), None);
    assert_eq!(d(0xF307), Some(I::LD_reg_from_DT(3)));
    assert_eq!(d(0xF40A), Some(I::LD_reg_from_key(4)));
    assert_eq!(d(0xF515), Some(I::LD_DT_from_reg(5)));
    assert_eq!(d(0xF618), Some(I::LD_ST_from_reg(6)));
    assert_eq!(d(0xF71E), Some(I::ADD_I(7)));
    assert_eq!(d(0xF829), Some(I::LD_F(8)));
    assert_eq!(d(0xF933), Some(I::LD_B(9)));
    assert_eq!(d(0xFA55), Some(I::LD_I_write(0xA)));
    assert_eq!(d(0xFB65), Some(I::LD_I_read(0xB)));
    assert_eq!(d(0xF000), None);
    assert_eq!(d(0xFFFF), None);
}

#[test]
fn decode_is_repeatable() {
    for op in 0..=u16::MAX {
        assert_eq!(d(op), d(op));
    }
}

#[test]
fn invalid_register_names_the_first_bad_operand() {
    assert_eq!(I::ADD_reg(16, 20).invalid_register(), Some(16));
    assert_eq!(I::ADD_reg(1, 20).invalid_register(), Some(20));
    assert_eq!(I::LD_F(15).invalid_register(), None);
    assert_eq!(I::JP(0xFFFF).invalid_register(), None);
}
