//! RustCode: a stack-based bytecode language, its virtual machine and its
//! assembler.
pub mod opcode;
pub mod value;
pub mod text;
pub mod bytes;
pub mod vm;
pub mod assembler;
pub mod laws;
