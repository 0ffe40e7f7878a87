use rustcode::opcode::OpCode;

#[test]
fn test_opcode_conversion() {
    assert_eq!(OpCode::from_byte(0x01), Some(OpCode::Push));
    assert_eq!(OpCode::from_byte(0x10), Some(OpCode::Add));
    assert_eq!(OpCode::from_byte(0xFF), Some(OpCode::Halt));
    assert_eq!(OpCode::from_byte(0x00), None);
}

#[test]
fn test_opcode_to_byte() {
    assert_eq!(OpCode::Push.to_byte(), 0x01);
    assert_eq!(OpCode::Add.to_byte(), 0x10);
    assert_eq!(OpCode::Halt.to_byte(), 0xFF);
}

#[test]
fn test_has_operand() {
    assert!(OpCode::Push.has_operand());
    assert!(OpCode::Jump.has_operand());
    assert!(!OpCode::Add.has_operand());
    assert!(!OpCode::Halt.has_operand());
}

#[test]
fn every_byte_roundtrips_through_its_opcode() {
    let mut count = 0;
    for b in 0u16..=255 {
        let b = b as u8;
        if let Some(op) = OpCode::from_byte(b) {
            assert_eq!(op.to_byte(), b);
            count += 1;
        }
    }
    assert_eq!(count, 29);
}

#[test]
fn operand_opcodes_are_exactly_seven() {
    let mut with_operand = Vec::new();
    for b in 0u16..=255 {
        if let Some(op) = OpCode::from_byte(b as u8) {
            if op.has_operand() {
                with_operand.push(op);
            }
        }
    }
    assert_eq!(
        with_operand,
        vec![
            OpCode::Push,
            OpCode::Jump,
            OpCode::JumpIf,
            OpCode::JumpIfNot,
            OpCode::Call,
            OpCode::Load,
            OpCode::Store
        ]
    );
}
