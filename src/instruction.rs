//! The instruction set: opcodes, their byte encoding, mnemonics and operand shapes.
use vstd::prelude::*;

verus! {

/// The operation selector of one instruction.
#[derive(PartialEq, Eq, Structural, Debug, Clone, Copy)]
pub enum Opcode {
    /// `load $r #n`: register r takes the 16-bit value n.
    LOAD,
    /// `add $a $b $d`: register d takes a + b (wrapping).
    ADD,
    /// `sub $a $b $d`: register d takes a - b (wrapping).
    SUB,
    /// `mul $a $b $d`: register d takes a * b (wrapping).
    MUL,
    /// `div $a $b $d`: register d takes a / b, the remainder register a % b.
    DIV,
    /// `hlt`: stops execution normally.
    HLT,
    /// `jmp $r`: the program counter takes the value of register r.
    JMP,
    /// `jmpf $r`: the program counter moves forward by the value of register r.
    JMPF,
    /// `jmpb $r`: the program counter moves back by the value of register r.
    JMPB,
    /// `eq $a $b $_`: the equality flag takes a == b.
    EQ,
    /// `neq $a $b $_`: the equality flag takes a != b.
    NEQ,
    /// `gt $a $b $_`: the equality flag takes a > b.
    GT,
    /// `lt $a $b $_`: the equality flag takes a < b.
    LT,
    /// `gtq $a $b $_`: the equality flag takes a >= b.
    GTQ,
    /// `ltq $a $b $_`: the equality flag takes a <= b.
    LTQ,
    /// `jeq $r`: jumps to the value of register r when the equality flag is set.
    JEQ,
    /// `jneq $r`: jumps to the value of register r when the equality flag is clear.
    JNEQ,
    /// Any byte that names no operation; executing it is a fault.
    IGL,
}

/// The kind of a lexical unit, as the assembler expects or finds it.
#[derive(PartialEq, Eq, Structural, Debug, Clone, Copy)]
pub enum TokenKind {
    /// An opcode name such as `load`.
    Mnemonic,
    /// `$` and a register index.
    Register,
    /// `#` and an integer literal.
    Integer,
    /// Nothing more on the line.
    EndOfLine,
}

/// The byte that encodes each defined opcode; `IGL` has no encoding of its own.
pub open spec fn opcode_byte(op: Opcode) -> u8 {
    match op {
        Opcode::LOAD => 0,
        Opcode::ADD => 1,
        Opcode::SUB => 2,
        Opcode::MUL => 3,
        Opcode::DIV => 4,
        Opcode::HLT => 5,
        Opcode::JMP => 6,
        Opcode::JMPF => 7,
        Opcode::JMPB => 8,
        Opcode::EQ => 9,
        Opcode::NEQ => 10,
        Opcode::GT => 11,
        Opcode::LT => 12,
        Opcode::GTQ => 13,
        Opcode::LTQ => 14,
        Opcode::JEQ => 15,
        Opcode::JNEQ => 16,
        Opcode::IGL => 255,
    }
}

/// Decoding a byte: total, with every undefined byte mapped to `IGL`.
pub open spec fn decode(v: u8) -> Opcode {
    if v == 0 {
        Opcode::LOAD
    } else if v == 1 {
        Opcode::ADD
    } else if v == 2 {
        Opcode::SUB
    } else if v == 3 {
        Opcode::MUL
    } else if v == 4 {
        Opcode::DIV
    } else if v == 5 {
        Opcode::HLT
    } else if v == 6 {
        Opcode::JMP
    } else if v == 7 {
        Opcode::JMPF
    } else if v == 8 {
        Opcode::JMPB
    } else if v == 9 {
        Opcode::EQ
    } else if v == 10 {
        Opcode::NEQ
    } else if v == 11 {
        Opcode::GT
    } else if v == 12 {
        Opcode::LT
    } else if v == 13 {
        Opcode::GTQ
    } else if v == 14 {
        Opcode::LTQ
    } else if v == 15 {
        Opcode::JEQ
    } else if v == 16 {
        Opcode::JNEQ
    } else {
        Opcode::IGL
    }
}

/// The kind of the i-th operand of `op` in source form; `EndOfLine` past its last operand.
pub open spec fn operand_kind(op: Opcode, i: int) -> TokenKind {
    match op {
        Opcode::LOAD => if i == 0 {
            TokenKind::Register
        } else if i == 1 {
            TokenKind::Integer
        } else {
            TokenKind::EndOfLine
        },
        Opcode::HLT | Opcode::IGL => TokenKind::EndOfLine,
        Opcode::JMP | Opcode::JMPF | Opcode::JMPB | Opcode::JEQ | Opcode::JNEQ => if i == 0 {
            TokenKind::Register
        } else {
            TokenKind::EndOfLine
        },
        _ => if 0 <= i < 3 {
            TokenKind::Register
        } else {
            TokenKind::EndOfLine
        },
    }
}

/// The mnemonic of each defined opcode, as ASCII bytes; `IGL` has none.
pub open spec fn mnemonic(op: Opcode) -> Seq<u8> {
    match op {
        Opcode::LOAD => seq![108u8, 111, 97, 100],  // "load"
        Opcode::ADD => seq![97u8, 100, 100],  // "add"
        Opcode::SUB => seq![115u8, 117, 98],  // "sub"
        Opcode::MUL => seq![109u8, 117, 108],  // "mul"
        Opcode::DIV => seq![100u8, 105, 118],  // "div"
        Opcode::HLT => seq![104u8, 108, 116],  // "hlt"
        Opcode::JMP => seq![106u8, 109, 112],  // "jmp"
        Opcode::JMPF => seq![106u8, 109, 112, 102],  // "jmpf"
        Opcode::JMPB => seq![106u8, 109, 112, 98],  // "jmpb"
        Opcode::EQ => seq![101u8, 113],  // "eq"
        Opcode::NEQ => seq![110u8, 101, 113],  // "neq"
        Opcode::GT => seq![103u8, 116],  // "gt"
        Opcode::LT => seq![108u8, 116],  // "lt"
        Opcode::GTQ => seq![103u8, 116, 113],  // "gtq"
        Opcode::LTQ => seq![108u8, 116, 113],  // "ltq"
        Opcode::JEQ => seq![106u8, 101, 113],  // "jeq"
        Opcode::JNEQ => seq![106u8, 110, 101, 113],  // "jneq"
        Opcode::IGL => Seq::empty(),
    }
}

/// The opcode whose mnemonic is `w`, trying the encodings from `code` upwards.
pub open spec fn mnemonic_from(w: Seq<u8>, code: nat) -> Option<Opcode>
    decreases 17 - code,
{
    if code >= 17 {
        None
    } else if mnemonic(decode(code as u8)) == w {
        Some(decode(code as u8))
    } else {
        mnemonic_from(w, code + 1)
    }
}

/// The opcode whose mnemonic is `w`, if any.
pub open spec fn opcode_of_mnemonic(w: Seq<u8>) -> Option<Opcode> {
    mnemonic_from(w, 0)
}

impl Opcode {
    /// The byte that encodes this opcode.
    pub fn to_byte(&self) -> (r: u8)
        ensures
            r == opcode_byte(*self),
    {
        match self {
            Opcode::LOAD => 0,
            Opcode::ADD => 1,
            Opcode::SUB => 2,
            Opcode::MUL => 3,
            Opcode::DIV => 4,
            Opcode::HLT => 5,
            Opcode::JMP => 6,
            Opcode::JMPF => 7,
            Opcode::JMPB => 8,
            Opcode::EQ => 9,
            Opcode::NEQ => 10,
            Opcode::GT => 11,
            Opcode::LT => 12,
            Opcode::GTQ => 13,
            Opcode::LTQ => 14,
            Opcode::JEQ => 15,
            Opcode::JNEQ => 16,
            Opcode::IGL => 255,
        }
    }

    /// The kind of the i-th source operand of this opcode.
    pub fn operand_kind(&self, i: usize) -> (r: TokenKind)
        ensures
            r == operand_kind(*self, i as int),
    {
        match self {
            Opcode::LOAD => if i == 0 {
                TokenKind::Register
            } else if i == 1 {
                TokenKind::Integer
            } else {
                TokenKind::EndOfLine
            },
            Opcode::HLT | Opcode::IGL => TokenKind::EndOfLine,
            Opcode::JMP | Opcode::JMPF | Opcode::JMPB | Opcode::JEQ | Opcode::JNEQ => if i == 0 {
                TokenKind::Register
            } else {
                TokenKind::EndOfLine
            },
            _ => if i < 3 {
                TokenKind::Register
            } else {
                TokenKind::EndOfLine
            },
        }
    }

    /// The mnemonic of this opcode as ASCII bytes (empty for `IGL`).
    pub fn mnemonic(&self) -> (r: Vec<u8>)
        ensures
            r@ == mnemonic(*self),
    {
        let r = match self {
            Opcode::LOAD => vec![108u8, 111, 97, 100],  // "load"
            Opcode::ADD => vec![97u8, 100, 100],  // "add"
            Opcode::SUB => vec![115u8, 117, 98],  // "sub"
            Opcode::MUL => vec![109u8, 117, 108],  // "mul"
            Opcode::DIV => vec![100u8, 105, 118],  // "div"
            Opcode::HLT => vec![104u8, 108, 116],  // "hlt"
            Opcode::JMP => vec![106u8, 109, 112],  // "jmp"
            Opcode::JMPF => vec![106u8, 109, 112, 102],  // "jmpf"
            Opcode::JMPB => vec![106u8, 109, 112, 98],  // "jmpb"
            Opcode::EQ => vec![101u8, 113],  // "eq"
            Opcode::NEQ => vec![110u8, 101, 113],  // "neq"
            Opcode::GT => vec![103u8, 116],  // "gt"
            Opcode::LT => vec![108u8, 116],  // "lt"
            Opcode::GTQ => vec![103u8, 116, 113],  // "gtq"
            Opcode::LTQ => vec![108u8, 116, 113],  // "ltq"
            Opcode::JEQ => vec![106u8, 101, 113],  // "jeq"
            Opcode::JNEQ => vec![106u8, 110, 101, 113],  // "jneq"
            Opcode::IGL => Vec::new(),
        };
        assert(r@ =~= mnemonic(*self));
        r
    }
}

impl From<u8> for Opcode {
    /// Decodes a byte; every byte outside the defined range gives `IGL`.
    fn from(v: u8) -> (r: Self) {
        if v == 0 {
            Opcode::LOAD
        } else if v == 1 {
            Opcode::ADD
        } else if v == 2 {
            Opcode::SUB
        } else if v == 3 {
            Opcode::MUL
        } else if v == 4 {
            Opcode::DIV
        } else if v == 5 {
            Opcode::HLT
        } else if v == 6 {
            Opcode::JMP
        } else if v == 7 {
            Opcode::JMPF
        } else if v == 8 {
            Opcode::JMPB
        } else if v == 9 {
            Opcode::EQ
        } else if v == 10 {
            Opcode::NEQ
        } else if v == 11 {
            Opcode::GT
        } else if v == 12 {
            Opcode::LT
        } else if v == 13 {
            Opcode::GTQ
        } else if v == 14 {
            Opcode::LTQ
        } else if v == 15 {
            Opcode::JEQ
        } else if v == 16 {
            Opcode::JNEQ
        } else {
            Opcode::IGL
        }
    }
}

impl vstd::std_specs::convert::FromSpecImpl<u8> for Opcode {
    open spec fn obeys_from_spec() -> bool {
        true
    }

    open spec fn from_spec(v: u8) -> Opcode {
        decode(v)
    }
}

/// Decoding is the inverse of encoding on every opcode.
pub proof fn lemma_decode_opcode_byte(op: Opcode)
    ensures
        decode(opcode_byte(op)) == op,
{
}

/// An instruction as the machine sees it: its opcode.
pub struct Instruction {
    pub opcode: Opcode,
}

impl Instruction {
    /// An instruction with the given opcode.
    pub fn new(opcode: Opcode) -> (r: Instruction)
        ensures
            r.opcode == opcode,
    {
        Instruction { opcode: opcode }
    }
}

} // verus!
