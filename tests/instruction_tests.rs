use iridescent::instruction::{Instruction, Opcode};

#[test]
fn test_create_hlt() {
    let opcode = Opcode::HLT;
    assert_eq!(opcode, Opcode::HLT)
}

#[test]
fn test_create_instruction() {
    let instruction = Instruction::new(Opcode::HLT);
    assert_eq!(instruction.opcode, Opcode::HLT)
}

#[test]
fn opcode_from_byte_covers_defined_and_undefined() {
    assert_eq!(Opcode::from(0u8), Opcode::LOAD);
    assert_eq!(Opcode::from(4u8), Opcode::DIV);
    assert_eq!(Opcode::from(16u8), Opcode::JNEQ);
    assert_eq!(Opcode::from(17u8), Opcode::IGL);
    assert_eq!(Opcode::from(200u8), Opcode::IGL);
}

#[test]
fn opcode_byte_round_trip() {
    for b in 0u8..17 {
        assert_eq!(Opcode::from(b).to_byte(), b);
    }
    assert_eq!(Opcode::JMPF.mnemonic(), b"jmpf".to_vec());
}
