use vstd::prelude::*;

verus! {

/// The instructions of the RustCode virtual machine.
///
/// Each instruction is encoded in bytecode by one byte, given by
/// [`opcode_byte`]; the instructions that take an operand are those for which
/// [`takes_operand`] holds.
#[derive(Debug, Clone, Copy, PartialEq, Eq, Structural)]
pub enum OpCode {
    // Stack operations
    Push,
    Pop,
    Dup,
    Swap,
    // Arithmetic operations
    Add,
    Sub,
    Mul,
    Div,
    Mod,
    Neg,
    // Comparison operations
    Eq,
    Ne,
    Lt,
    Le,
    Gt,
    Ge,
    // Logical operations
    And,
    Or,
    Not,
    // Control flow
    Jump,
    JumpIf,
    JumpIfNot,
    Call,
    Return,
    // Memory operations
    Load,
    Store,
    // I/O operations
    Print,
    Input,
    // Special
    Halt,
}

/// The byte that encodes an instruction in bytecode.
pub open spec fn opcode_byte(op: OpCode) -> u8 {
    match op {
        OpCode::Push => 0x01,
        OpCode::Pop => 0x02,
        OpCode::Dup => 0x03,
        OpCode::Swap => 0x04,
        OpCode::Add => 0x10,
        OpCode::Sub => 0x11,
        OpCode::Mul => 0x12,
        OpCode::Div => 0x13,
        OpCode::Mod => 0x14,
        OpCode::Neg => 0x15,
        OpCode::Eq => 0x20,
        OpCode::Ne => 0x21,
        OpCode::Lt => 0x22,
        OpCode::Le => 0x23,
        OpCode::Gt => 0x24,
        OpCode::Ge => 0x25,
        OpCode::And => 0x30,
        OpCode::Or => 0x31,
        OpCode::Not => 0x32,
        OpCode::Jump => 0x40,
        OpCode::JumpIf => 0x41,
        OpCode::JumpIfNot => 0x42,
        OpCode::Call => 0x43,
        OpCode::Return => 0x44,
        OpCode::Load => 0x50,
        OpCode::Store => 0x51,
        OpCode::Print => 0x60,
        OpCode::Input => 0x61,
        OpCode::Halt => 0xFF,
    }
}

/// The instruction that a byte encodes, if any: the one whose
/// [`opcode_byte`] it is.
pub open spec fn opcode_of_byte(byte: u8) -> Option<OpCode> {
    if exists|op: OpCode| opcode_byte(op) == byte {
        Some(choose|op: OpCode| opcode_byte(op) == byte)
    } else {
        None
    }
}

/// The instructions that are followed by an operand in bytecode.
pub open spec fn takes_operand(op: OpCode) -> bool {
    match op {
        OpCode::Push | OpCode::Jump | OpCode::JumpIf | OpCode::JumpIfNot | OpCode::Call
        | OpCode::Load | OpCode::Store => true,
        _ => false,
    }
}

/// No two instructions share a byte.
pub proof fn lemma_opcode_byte_injective(a: OpCode, b: OpCode)
    ensures
        opcode_byte(a) == opcode_byte(b) ==> a == b,
{
}

impl OpCode {
    /// Decodes a byte into the instruction it encodes; `None` for a byte
    /// that encodes no instruction.
    pub fn from_byte(byte: u8) -> (result: Option<OpCode>)
        ensures
            result == opcode_of_byte(byte),
            result matches Some(op) ==> opcode_byte(op) == byte,
            result is None <==> (forall|op: OpCode| opcode_byte(op) != byte),
    {
        let result = match byte {
            0x01 => Some(OpCode::Push),
            0x02 => Some(OpCode::Pop),
            0x03 => Some(OpCode::Dup),
            0x04 => Some(OpCode::Swap),
            0x10 => Some(OpCode::Add),
            0x11 => Some(OpCode::Sub),
            0x12 => Some(OpCode::Mul),
            0x13 => Some(OpCode::Div),
            0x14 => Some(OpCode::Mod),
            0x15 => Some(OpCode::Neg),
            0x20 => Some(OpCode::Eq),
            0x21 => Some(OpCode::Ne),
            0x22 => Some(OpCode::Lt),
            0x23 => Some(OpCode::Le),
            0x24 => Some(OpCode::Gt),
            0x25 => Some(OpCode::Ge),
            0x30 => Some(OpCode::And),
            0x31 => Some(OpCode::Or),
            0x32 => Some(OpCode::Not),
            0x40 => Some(OpCode::Jump),
            0x41 => Some(OpCode::JumpIf),
            0x42 => Some(OpCode::JumpIfNot),
            0x43 => Some(OpCode::Call),
            0x44 => Some(OpCode::Return),
            0x50 => Some(OpCode::Load),
            0x51 => Some(OpCode::Store),
            0x60 => Some(OpCode::Print),
            0x61 => Some(OpCode::Input),
            0xFF => Some(OpCode::Halt),
            _ => None,
        };
        proof {
            if let Some(op) = result {
                assert(opcode_byte(op) == byte);
                assert forall|other: OpCode| opcode_byte(other) == byte implies other == op by {
                    lemma_opcode_byte_injective(other, op);
                }
            } else {
                assert forall|op: OpCode| opcode_byte(op) != byte by {}
            }
        }
        result
    }

    /// The byte that encodes this instruction.
    pub fn to_byte(self) -> (byte: u8)
        ensures
            byte == opcode_byte(self),
    {
        match self {
            OpCode::Push => 0x01,
            OpCode::Pop => 0x02,
            OpCode::Dup => 0x03,
            OpCode::Swap => 0x04,
            OpCode::Add => 0x10,
            OpCode::Sub => 0x11,
            OpCode::Mul => 0x12,
            OpCode::Div => 0x13,
            OpCode::Mod => 0x14,
            OpCode::Neg => 0x15,
            OpCode::Eq => 0x20,
            OpCode::Ne => 0x21,
            OpCode::Lt => 0x22,
            OpCode::Le => 0x23,
            OpCode::Gt => 0x24,
            OpCode::Ge => 0x25,
            OpCode::And => 0x30,
            OpCode::Or => 0x31,
            OpCode::Not => 0x32,
            OpCode::Jump => 0x40,
            OpCode::JumpIf => 0x41,
            OpCode::JumpIfNot => 0x42,
            OpCode::Call => 0x43,
            OpCode::Return => 0x44,
            OpCode::Load => 0x50,
            OpCode::Store => 0x51,
            OpCode::Print => 0x60,
            OpCode::Input => 0x61,
            OpCode::Halt => 0xFF,
        }
    }

    /// Whether the instruction is followed by an operand in bytecode.
    pub fn has_operand(self) -> (result: bool)
        ensures
            result == takes_operand(self),
    {
        match self {
            OpCode::Push | OpCode::Jump | OpCode::JumpIf | OpCode::JumpIfNot | OpCode::Call
            | OpCode::Load | OpCode::Store => true,
            _ => false,
        }
    }
}

/// Decoding the byte of an instruction gives the instruction back.
pub proof fn lemma_decode_encode(op: OpCode)
    ensures
        opcode_of_byte(opcode_byte(op)) == Some(op),
{
    assert(exists|o: OpCode| opcode_byte(o) == opcode_byte(op));
    let c = choose|o: OpCode| opcode_byte(o) == opcode_byte(op);
    lemma_opcode_byte_injective(c, op);
}

/// Every byte that decodes to an instruction is that instruction's byte.
pub proof fn lemma_encode_decode(byte: u8)
    ensures
        opcode_of_byte(byte) matches Some(op) ==> opcode_byte(op) == byte,
{
}

} // verus!
