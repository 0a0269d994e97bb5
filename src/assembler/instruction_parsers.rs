//! One source instruction: checking its operands against the opcode, and its bytes.
use vstd::prelude::*;
use crate::instruction::{Opcode, TokenKind, operand_kind, opcode_byte};
use crate::assembler::{Token, AssemblyError, token_kind};

verus! {

/// An instruction in source form: an opcode token and up to three operand tokens.
#[derive(PartialEq, Eq, Structural, Debug, Clone, Copy)]
pub struct AssemblerInstruction {
    pub opcode: Token,
    pub operand_1: Option<Token>,
    pub operand_2: Option<Token>,
    pub operand_3: Option<Token>,
}

/// The i-th token, if there is one.
pub open spec fn token_at(toks: Seq<Token>, i: int) -> Option<Token> {
    if 0 <= i < toks.len() {
        Some(toks[i])
    } else {
        None
    }
}

/// Checks the operands `toks[i + 1..]` against the shape of `op`, from operand i on: the
/// first operand of the wrong kind (or a missing or surplus one) is an error, and so is an
/// integer outside 0..=65535.
pub open spec fn check_operands(op: Opcode, toks: Seq<Token>, i: nat, line: nat) -> Result<
    (),
    AssemblyError,
>
    decreases 4 - i,
{
    if i > 3 {
        Ok(())
    } else {
        let expected = operand_kind(op, i as int);
        let found = if i + 1 < toks.len() {
            token_kind(toks[i + 1 as int])
        } else {
            TokenKind::EndOfLine
        };
        if expected != found {
            Err(
                AssemblyError::MalformedInstruction {
                    line: line as usize,
                    expected: expected,
                    found: found,
                },
            )
        } else if expected == TokenKind::EndOfLine {
            Ok(())
        } else {
            match toks[i + 1 as int] {
                Token::IntegerOperand { value } => if value < 0 || value > 65535 {
                    Err(AssemblyError::IntegerOutOfRange { line: line as usize, value: value })
                } else {
                    check_operands(op, toks, i + 1, line)
                },
                _ => check_operands(op, toks, i + 1, line),
            }
        }
    }
}

/// The instruction that the tokens of source line `line` form, or why they form none (an
/// empty line lacks its mnemonic).
pub open spec fn build_instruction(toks: Seq<Token>, line: nat) -> Result<
    AssemblerInstruction,
    AssemblyError,
> {
    if toks.len() == 0 {
        Err(
            AssemblyError::MalformedInstruction {
                line: line as usize,
                expected: TokenKind::Mnemonic,
                found: TokenKind::EndOfLine,
            },
        )
    } else {
        match toks[0] {
            Token::Op { code } => match check_operands(code, toks, 0, line) {
                Ok(_) => Ok(
                    AssemblerInstruction {
                        opcode: toks[0],
                        operand_1: token_at(toks, 1),
                        operand_2: token_at(toks, 2),
                        operand_3: token_at(toks, 3),
                    },
                ),
                Err(e) => Err(e),
            },
            t => Err(
                AssemblyError::MalformedInstruction {
                    line: line as usize,
                    expected: TokenKind::Mnemonic,
                    found: token_kind(t),
                },
            ),
        }
    }
}

/// An operand slot holds what the opcode's shape asks there, with integers in 0..=65535.
pub open spec fn operand_fits(o: Option<Token>, k: TokenKind) -> bool {
    match o {
        None => k == TokenKind::EndOfLine,
        Some(t) => k != TokenKind::EndOfLine && token_kind(t) == k && match t {
            Token::IntegerOperand { value } => 0 <= value <= 65535,
            _ => true,
        },
    }
}

/// The bytes of one operand: a register index as one byte, an integer as two, high first.
pub open spec fn encode_operand(o: Option<Token>) -> Seq<u8> {
    match o {
        Some(Token::Register { reg_num }) => seq![reg_num],
        Some(Token::IntegerOperand { value }) => seq![(value / 256) as u8, (value % 256) as u8],
        _ => Seq::empty(),
    }
}

/// The bytes of one instruction: the opcode byte, then its operands in order.
pub open spec fn encode_instruction(i: AssemblerInstruction) -> Seq<u8> {
    match i.opcode {
        Token::Op { code } => seq![opcode_byte(code)] + encode_operand(i.operand_1)
            + encode_operand(i.operand_2) + encode_operand(i.operand_3),
        _ => Seq::empty(),
    }
}

impl AssemblerInstruction {
    /// Well formed: an opcode token whose operands match its shape.
    pub open spec fn wf(&self) -> bool {
        match self.opcode {
            Token::Op { code } => operand_fits(self.operand_1, operand_kind(code, 0))
                && operand_fits(self.operand_2, operand_kind(code, 1)) && operand_fits(
                self.operand_3,
                operand_kind(code, 2),
            ),
            _ => false,
        }
    }

    /// The byte encoding of this instruction.
    pub fn to_bytes(&self) -> (r: Vec<u8>)
        requires
            self.wf(),
        ensures
            r@ == encode_instruction(*self),
    {
        let mut results: Vec<u8> = Vec::new();
        if let Token::Op { code } = self.opcode {
            results.push(code.to_byte());
        }
        if let Some(t) = self.operand_1 {
            AssemblerInstruction::extract_operand(&t, &mut results);
        }
        if let Some(t) = self.operand_2 {
            AssemblerInstruction::extract_operand(&t, &mut results);
        }
        if let Some(t) = self.operand_3 {
            AssemblerInstruction::extract_operand(&t, &mut results);
        }
        assert(results@ =~= encode_instruction(*self));
        results
    }

    /// Appends the bytes of one operand to `results`.
    fn extract_operand(t: &Token, results: &mut Vec<u8>)
        requires
            token_kind(*t) != TokenKind::Mnemonic,
            *t matches Token::IntegerOperand { value } ==> 0 <= value <= 65535,
        ensures
            final(results)@ == old(results)@ + encode_operand(Some(*t)),
    {
        match t {
            Token::Register { reg_num } => {
                results.push(*reg_num);
            },
            Token::IntegerOperand { value } => {
                results.push((*value / 256) as u8);
                results.push((*value % 256) as u8);
            },
            Token::Op { .. } => {},
        }
        assert(results@ =~= old(results)@ + encode_operand(Some(*t)));
    }
}

/// A successful check leaves every operand slot fitting the opcode's shape.
proof fn lemma_checked_instruction_wf(toks: Seq<Token>, line: nat)
    requires
        toks.len() > 0,
        build_instruction(toks, line) is Ok,
    ensures
        build_instruction(toks, line)->Ok_0.wf(),
{
    reveal_with_fuel(check_operands, 5);
}

/// The instruction that the tokens of source line `line` form.
pub fn build(toks: &Vec<Token>, line: usize) -> (r: Result<AssemblerInstruction, AssemblyError>)
    ensures
        r == build_instruction(toks@, line as nat),
        r matches Ok(i) ==> i.wf(),
{
    if toks.len() == 0 {
        return Err(
            AssemblyError::MalformedInstruction {
                line: line,
                expected: TokenKind::Mnemonic,
                found: TokenKind::EndOfLine,
            },
        );
    }
    let code = match toks[0] {
        Token::Op { code } => code,
        t => {
            return Err(
                AssemblyError::MalformedInstruction {
                    line: line,
                    expected: TokenKind::Mnemonic,
                    found: t.kind(),
                },
            );
        },
    };
    let mut i: usize = 0;
    while i < 4
        invariant
            i <= 4,
            toks@.len() > 0,
            toks@[0] == (Token::Op { code }),
            check_operands(code, toks@, i as nat, line as nat) == check_operands(
                code,
                toks@,
                0,
                line as nat,
            ),
        decreases 4 - i,
    {
        let expected = code.operand_kind(i);
        let found = if i + 1 < toks.len() {
            toks[i + 1].kind()
        } else {
            TokenKind::EndOfLine
        };
        if expected != found {
            return Err(
                AssemblyError::MalformedInstruction { line: line, expected: expected, found: found },
            );
        }
        if expected == TokenKind::EndOfLine {
            i = 4;
        } else {
            if let Token::IntegerOperand { value } = toks[i + 1] {
                if value < 0 || value > 65535 {
                    return Err(AssemblyError::IntegerOutOfRange { line: line, value: value });
                }
            }
            i = i + 1;
        }
    }
    let n = toks.len();
    let r = AssemblerInstruction {
        opcode: toks[0],
        operand_1: if n > 1 {
            Some(toks[1])
        } else {
            None
        },
        operand_2: if n > 2 {
            Some(toks[2])
        } else {
            None
        },
        operand_3: if n > 3 {
            Some(toks[3])
        } else {
            None
        },
    };
    proof {
        lemma_checked_instruction_wf(toks@, line as nat);
    }
    Ok(r)
}

} // verus!
