//! A small register machine and the assembler that produces its byte code.
pub mod instruction;
pub mod vm;
pub mod assembler;
pub mod repl;
