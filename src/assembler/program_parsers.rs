//! Whole programs: parsing source text line by line, and encoding to a byte program.
use vstd::prelude::*;
use crate::assembler::{Token, AssemblyError};
use crate::assembler::lexer::{line_tokens, tokenize_line};
use crate::assembler::instruction_parsers::{
    AssemblerInstruction,
    build,
    build_instruction,
    encode_instruction,
    encode_operand,
};
use crate::vm::{ByteProgram, VmState, StepOutcome, step};
use crate::instruction::{Opcode, mnemonic, decode};
use crate::assembler::lexer::{scan, classify, is_blank, all_digits, digits_value, is_digit};
use vstd::string::StringSliceAdditionalSpecFns;

verus! {

/// A parsed program: its instructions in execution order.
pub struct Program {
    pub instructions: Vec<AssemblerInstruction>,
}

impl View for Program {
    type V = Seq<AssemblerInstruction>;

    open spec fn view(&self) -> Seq<AssemblerInstruction> {
        self.instructions@
    }
}

/// Every instruction is well formed.
pub open spec fn instructions_wf(p: Seq<AssemblerInstruction>) -> bool {
    forall|i: int| 0 <= i < p.len() ==> (#[trigger] p[i]).wf()
}

/// Appends the instruction of the line `text[start..end]` (numbered `line`) to `acc`; a
/// line with no token adds nothing.
pub open spec fn finish_line(
    text: Seq<u8>,
    start: int,
    end: int,
    line: nat,
    acc: Seq<AssemblerInstruction>,
) -> Result<Seq<AssemblerInstruction>, AssemblyError> {
    match line_tokens(text, start, end) {
        Err(e) => Err(e),
        Ok(toks) => if toks.len() == 0 {
            Ok(acc)
        } else {
            match build_instruction(toks, line) {
                Ok(i) => Ok(acc.push(i)),
                Err(e) => Err(e),
            }
        },
    }
}

/// Parses `text` from `pos` on, where the current line (numbered `line`) began at `start`
/// and `acc` holds the instructions of the lines before it.
pub open spec fn parse_from(
    text: Seq<u8>,
    pos: int,
    start: int,
    line: nat,
    acc: Seq<AssemblerInstruction>,
) -> Result<Seq<AssemblerInstruction>, AssemblyError>
    decreases text.len() - pos,
{
    if pos >= text.len() {
        match finish_line(text, start, text.len() as int, line, acc) {
            Ok(a) => if a.len() == 0 {
                Err(AssemblyError::EmptyProgram)
            } else {
                Ok(a)
            },
            Err(e) => Err(e),
        }
    } else if text[pos] == 10 {
        match finish_line(text, start, pos, line, acc) {
            Ok(a) => parse_from(text, pos + 1, pos + 1, line + 1, a),
            Err(e) => Err(e),
        }
    } else {
        parse_from(text, pos + 1, start, line, acc)
    }
}

/// The instructions of a source text, one per non-blank line, or the first error.
pub open spec fn parse_program(text: Seq<u8>) -> Result<Seq<AssemblerInstruction>, AssemblyError> {
    parse_from(text, 0, 0, 1, Seq::empty())
}

/// The byte program of a sequence of instructions: their encodings, concatenated in order.
pub open spec fn encode_program(p: Seq<AssemblerInstruction>) -> Seq<u8>
    decreases p.len(),
{
    if p.len() == 0 {
        Seq::empty()
    } else {
        encode_program(p.drop_last()) + encode_instruction(p.last())
    }
}

/// Parses the line `text[start..end]` and appends its instruction, if any, to `acc`.
fn parse_line(
    text: &[u8],
    start: usize,
    end: usize,
    line: usize,
    acc: &mut Vec<AssemblerInstruction>,
) -> (r: Result<(), AssemblyError>)
    requires
        start <= end <= text@.len(),
        instructions_wf(old(acc)@),
    ensures
        instructions_wf(final(acc)@),
        match r {
            Ok(_) => finish_line(text@, start as int, end as int, line as nat, old(acc)@) == Ok::<
                Seq<AssemblerInstruction>,
                AssemblyError,
            >(final(acc)@),
            Err(e) => finish_line(text@, start as int, end as int, line as nat, old(acc)@) == Err::<
                Seq<AssemblerInstruction>,
                AssemblyError,
            >(e),
        },
{
    let toks = match tokenize_line(text, start, end) {
        Ok(t) => t,
        Err(e) => return Err(e),
    };
    if toks.len() == 0 {
        return Ok(());
    }
    match build(&toks, line) {
        Ok(i) => {
            acc.push(i);
            Ok(())
        },
        Err(e) => Err(e),
    }
}

/// Parses a whole source text into a program.
pub fn program(source: &str) -> (r: Result<Program, AssemblyError>)
    requires
        source.spec_bytes().len() < usize::MAX,
    ensures
        match r {
            Ok(p) => parse_program(source.spec_bytes()) == Ok::<
                Seq<AssemblerInstruction>,
                AssemblyError,
            >(p@) && instructions_wf(p@),
            Err(e) => parse_program(source.spec_bytes()) == Err::<
                Seq<AssemblerInstruction>,
                AssemblyError,
            >(e),
        },
{
    let text = source.as_bytes();
    let len = text.len();
    let mut acc: Vec<AssemblerInstruction> = Vec::new();
    let mut start: usize = 0;
    let mut line: usize = 1;
    let mut pos: usize = 0;
    while pos < len
        invariant
            len == text@.len(),
            len < usize::MAX,
            text@ == source.spec_bytes(),
            start <= pos <= len,
            1 <= line <= pos + 1,
            instructions_wf(acc@),
            parse_from(text@, pos as int, start as int, line as nat, acc@) == parse_program(text@),
        decreases len - pos,
    {
        if text[pos] == 10 {
            match parse_line(text, start, pos, line, &mut acc) {
                Ok(_) => {},
                Err(e) => return Err(e),
            }
            start = pos + 1;
            line = line + 1;
        }
        pos = pos + 1;
    }
    match parse_line(text, start, len, line, &mut acc) {
        Ok(_) => {},
        Err(e) => return Err(e),
    }
    if acc.len() == 0 {
        return Err(AssemblyError::EmptyProgram);
    }
    Ok(Program { instructions: acc })
}

impl Program {
    /// The byte program: each instruction's bytes, concatenated in order.
    pub fn to_bytes(&self) -> (r: Vec<u8>)
        requires
            instructions_wf(self@),
        ensures
            r@ == encode_program(self@),
    {
        let mut program: Vec<u8> = Vec::new();
        let mut k: usize = 0;
        while k < self.instructions.len()
            invariant
                k <= self@.len(),
                instructions_wf(self@),
                program@ == encode_program(self@.subrange(0, k as int)),
            decreases self@.len() - k,
        {
            let mut bytes = self.instructions[k].to_bytes();
            assert(self@.subrange(0, k + 1).drop_last() =~= self@.subrange(0, k as int));
            program.append(&mut bytes);
            k = k + 1;
        }
        assert(self@.subrange(0, k as int) =~= self@);
        program
    }
}

/// Assembles source text into a byte program, or reports why it cannot.
pub fn assemble(source: &str) -> (r: Result<ByteProgram, AssemblyError>)
    requires
        source.spec_bytes().len() < usize::MAX,
    ensures
        match r {
            Ok(b) => parse_program(source.spec_bytes()) is Ok && b.bytes@ == encode_program(
                parse_program(source.spec_bytes())->Ok_0,
            ),
            Err(e) => parse_program(source.spec_bytes()) == Err::<
                Seq<AssemblerInstruction>,
                AssemblyError,
            >(e),
        },
{
    match program(source) {
        Ok(p) => Ok(ByteProgram { bytes: p.to_bytes() }),
        Err(e) => Err(e),
    }
}

/// The decimal digits of `n`, most significant first, as ASCII bytes.
pub open spec fn decimal(n: nat) -> Seq<u8>
    decreases n,
{
    if n < 10 {
        seq![(48 + n) as u8]
    } else {
        decimal(n / 10).push((48 + n % 10) as u8)
    }
}

/// The source text `load $r #u`.
pub open spec fn load_source(r: nat, u: nat) -> Seq<u8> {
    mnemonic(Opcode::LOAD) + seq![32u8, 36u8] + decimal(r) + seq![32u8, 35u8] + decimal(u)
}

proof fn lemma_decimal(n: nat)
    ensures
        all_digits(decimal(n)),
        digits_value(decimal(n)) == n,
    decreases n,
{
    let d = decimal(n);
    if n < 10 {
        assert(d.drop_last() =~= Seq::<u8>::empty());
        assert(d.last() == (48 + n) as u8);
        assert(digits_value(d) == digits_value(d.drop_last()) * 10 + (d.last() - 48));
    } else {
        lemma_decimal(n / 10);
        assert(d.drop_last() =~= decimal(n / 10));
        assert(d.last() == (48 + n % 10) as u8);
        assert(digits_value(d) == digits_value(d.drop_last()) * 10 + (d.last() - 48));
        assert(n == (n / 10) * 10 + n % 10);
        assert forall|i: int| 0 <= i < d.len() implies is_digit(#[trigger] d[i]) by {
            if i < d.len() - 1 {
                assert(d[i] == decimal(n / 10)[i]);
            }
        }
    }
}

/// Scanning over the rest of a word that is under way.
proof fn lemma_scan_word(text: Seq<u8>, pos: int, q: int, end: int, s: int, acc: Seq<Token>)
    requires
        0 <= pos <= q <= end <= text.len(),
        forall|k: int| pos <= k < q ==> !is_blank(#[trigger] text[k]),
    ensures
        scan(text, pos, end, Some(s), acc) == scan(text, q, end, Some(s), acc),
    decreases q - pos,
{
    if pos < q {
        lemma_scan_word(text, pos + 1, q, end, s, acc);
    }
}

/// A text without line breaks is parsed as its one line.
proof fn lemma_single_line(text: Seq<u8>, pos: int, acc: Seq<AssemblerInstruction>)
    requires
        0 <= pos <= text.len(),
        forall|k: int| 0 <= k < text.len() ==> #[trigger] text[k] != 10,
    ensures
        parse_from(text, pos, 0, 1, acc) == parse_from(text, text.len() as int, 0, 1, acc),
    decreases text.len() - pos,
{
    if pos < text.len() {
        lemma_single_line(text, pos + 1, acc);
    }
}

/// The tokens of `load $r #u`: the mnemonic, the register and the integer.
proof fn lemma_load_tokens(r: nat, u: nat)
    requires
        r <= 31,
        u <= 65535,
    ensures
        forall|k: int| 0 <= k < load_source(r, u).len() ==> #[trigger] load_source(r, u)[k] != 10,
        line_tokens(load_source(r, u), 0, load_source(r, u).len() as int) == Ok::<
            Seq<Token>,
            AssemblyError,
        >(
            seq![
                Token::Op { code: Opcode::LOAD },
                Token::Register { reg_num: r as u8 },
                Token::IntegerOperand { value: u as i32 },
            ],
        ),
{
    let d1 = decimal(r);
    let d2 = decimal(u);
    lemma_decimal(r);
    lemma_decimal(u);
    let t = load_source(r, u);
    let n1 = d1.len() as int;
    let end = t.len() as int;
    assert(end == 8 + n1 + d2.len());
    assert forall|k: int| 0 <= k < t.len() implies #[trigger] t[k] != 10 && (k != 4 && k != 6
        + n1 ==> !is_blank(t[k])) by {
        if 6 <= k < 6 + n1 {
            assert(t[k] == d1[k - 6]);
            assert(is_digit(d1[k - 6]));
        } else if 8 + n1 <= k < end {
            assert(t[k] == d2[k - 8 - n1]);
            assert(is_digit(d2[k - 8 - n1]));
        }
    }
    let op = Token::Op { code: Opcode::LOAD };
    let reg = Token::Register { reg_num: r as u8 };
    let imm = Token::IntegerOperand { value: u as i32 };
    assert(t.subrange(0, 4) =~= mnemonic(Opcode::LOAD));
    assert(decode(0) == Opcode::LOAD);
    assert(classify(t, 0, 4) == Ok::<Token, AssemblyError>(op));
    assert(t.subrange(5, 6 + n1).subrange(1, 1 + n1) =~= d1);
    assert(classify(t, 5, 6 + n1) == Ok::<Token, AssemblyError>(reg));
    assert(t.subrange(7 + n1, end).subrange(1, end - 7 - n1) =~= d2);
    assert(t.subrange(7 + n1, end)[1] == d2[0]);
    assert(classify(t, 7 + n1, end) == Ok::<Token, AssemblyError>(imm));
    let e = Seq::<Token>::empty();
    assert(e.push(op) =~= seq![op]);
    assert(seq![op].push(reg) =~= seq![op, reg]);
    assert(seq![op, reg].push(imm) =~= seq![op, reg, imm]);
    assert(t[4] == 32 && t[6 + n1] == 32);
    assert(scan(t, 0, end, None, e) == scan(t, 1, end, Some(0), e));
    lemma_scan_word(t, 1, 4, end, 0, e);
    assert(scan(t, 4, end, Some(0), e) == scan(t, 5, end, None, seq![op]));
    assert(scan(t, 5, end, None, seq![op]) == scan(t, 6, end, Some(5), seq![op]));
    lemma_scan_word(t, 6, 6 + n1, end, 5, seq![op]);
    assert(scan(t, 6 + n1, end, Some(5), seq![op]) == scan(t, 7 + n1, end, None, seq![op, reg]));
    assert(scan(t, 7 + n1, end, None, seq![op, reg]) == scan(
        t,
        8 + n1,
        end,
        Some(7 + n1),
        seq![op, reg],
    ));
    lemma_scan_word(t, 8 + n1, end, end, 7 + n1, seq![op, reg]);
}

/// For every register r in 0..=31 and every u in 0..=65535, `load $r #u` assembles, and
/// one step of its byte program sets register r to u and moves past the instruction.
pub proof fn lemma_load_sets_register(r: nat, u: nat, s: VmState)
    requires
        r <= 31,
        u <= 65535,
        s.pc == 0,
        s.fault is None,
        s.registers.len() == 32,
    ensures
        parse_program(load_source(r, u)) is Ok,
        step(encode_program(parse_program(load_source(r, u))->Ok_0), s) == (VmState {
            registers: s.registers.update(r as int, u as i32),
            pc: 4,
            ..s
        }, StepOutcome::Continue),
{
    let t = load_source(r, u);
    lemma_load_tokens(r, u);
    let op = Token::Op { code: Opcode::LOAD };
    let reg = Token::Register { reg_num: r as u8 };
    let imm = Token::IntegerOperand { value: u as i32 };
    let toks = seq![op, reg, imm];
    reveal_with_fuel(crate::assembler::instruction_parsers::check_operands, 4);
    let ai = AssemblerInstruction {
        opcode: op,
        operand_1: Some(reg),
        operand_2: Some(imm),
        operand_3: None,
    };
    assert(build_instruction(toks, 1) == Ok::<AssemblerInstruction, AssemblyError>(ai));
    assert(Seq::<AssemblerInstruction>::empty().push(ai) =~= seq![ai]);
    lemma_single_line(t, 0, Seq::empty());
    assert(parse_program(t) == Ok::<Seq<AssemblerInstruction>, AssemblyError>(seq![ai]));
    assert(seq![ai].drop_last() =~= Seq::<AssemblerInstruction>::empty());
    let prog = encode_program(seq![ai]);
    assert(encode_program(seq![ai].drop_last()) == Seq::<u8>::empty());
    assert(prog == encode_instruction(ai));
    assert(encode_operand(Some(imm)) == seq![(u / 256) as u8, (u % 256) as u8]);
    assert(prog =~= seq![0u8, r as u8, (u / 256) as u8, (u % 256) as u8]);
    assert((u / 256) * 256 + u % 256 == u);
}

} // verus!
