//! The assembler: source text to tokens, tokens to instructions, instructions to bytes.
use vstd::prelude::*;
use crate::instruction::{Opcode, TokenKind};

pub mod lexer;
pub mod instruction_parsers;
pub mod program_parsers;
pub mod decoding;

verus! {

/// A lexical unit of assembly source.
#[derive(PartialEq, Eq, Structural, Debug, Clone, Copy)]
pub enum Token {
    /// A mnemonic naming an opcode.
    Op { code: Opcode },
    /// `$n`, a register index in 0..=31.
    Register { reg_num: u8 },
    /// `#n`, a signed 32-bit integer literal.
    IntegerOperand { value: i32 },
}

/// Why a source text could not be assembled. Offsets are byte offsets into the whole
/// source; lines count from 1.
#[derive(PartialEq, Eq, Structural, Debug, Clone, Copy)]
pub enum AssemblyError {
    /// A word that is no mnemonic, register or integer: it spans `len` bytes from `offset`.
    LexError { offset: usize, len: usize },
    /// A lowercase word that names no opcode.
    UnknownMnemonic { offset: usize },
    /// `$` not followed by digits only, or by a value above 31.
    InvalidRegister { offset: usize },
    /// `#` not followed by an optional `-` and digits only, or a value outside `i32`.
    InvalidIntegerLiteral { offset: usize },
    /// An integer operand outside the 16-bit operand slot 0..=65535.
    IntegerOutOfRange { line: usize, value: i32 },
    /// A token of the wrong kind, or a missing or surplus operand.
    MalformedInstruction { line: usize, expected: TokenKind, found: TokenKind },
    /// The source holds no instruction.
    EmptyProgram,
}

/// The kind of a token.
pub open spec fn token_kind(t: Token) -> TokenKind {
    match t {
        Token::Op { .. } => TokenKind::Mnemonic,
        Token::Register { .. } => TokenKind::Register,
        Token::IntegerOperand { .. } => TokenKind::Integer,
    }
}

impl Token {
    /// The kind of this token.
    pub fn kind(&self) -> (r: TokenKind)
        ensures
            r == token_kind(*self),
    {
        match self {
            Token::Op { .. } => TokenKind::Mnemonic,
            Token::Register { .. } => TokenKind::Register,
            Token::IntegerOperand { .. } => TokenKind::Integer,
        }
    }
}

} // verus!
