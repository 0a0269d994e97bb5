//! Reading instructions back out of a byte program: the encoding loses nothing.
use vstd::prelude::*;
use crate::instruction::{TokenKind, decode, opcode_byte, operand_kind, lemma_decode_opcode_byte};
use crate::assembler::Token;
use crate::assembler::instruction_parsers::{
    AssemblerInstruction,
    encode_instruction,
    encode_operand,
    operand_fits,
};
use crate::assembler::program_parsers::{encode_program, instructions_wf};

verus! {

/// Number of bytes an operand of kind `k` takes.
pub open spec fn kind_width(k: TokenKind) -> int {
    match k {
        TokenKind::Register => 1,
        TokenKind::Integer => 2,
        _ => 0,
    }
}

/// The operand of kind `k` read from `bytes` at `pos`.
pub open spec fn decode_operand(bytes: Seq<u8>, pos: int, k: TokenKind) -> Option<Token> {
    match k {
        TokenKind::Register => Some(Token::Register { reg_num: bytes[pos] }),
        TokenKind::Integer => Some(
            Token::IntegerOperand { value: (bytes[pos] * 256 + bytes[pos + 1]) as i32 },
        ),
        _ => None,
    }
}

/// Number of operand bytes that follow the opcode byte `b`.
pub open spec fn operands_width(b: u8) -> nat {
    let code = decode(b);
    (kind_width(operand_kind(code, 0)) + kind_width(operand_kind(code, 1)) + kind_width(
        operand_kind(code, 2),
    )) as nat
}

/// The instruction whose encoding starts at `pos`.
pub open spec fn decode_instruction(bytes: Seq<u8>, pos: int) -> AssemblerInstruction {
    let code = decode(bytes[pos]);
    let at1 = pos + 1;
    let at2 = at1 + kind_width(operand_kind(code, 0));
    let at3 = at2 + kind_width(operand_kind(code, 1));
    AssemblerInstruction {
        opcode: Token::Op { code: code },
        operand_1: decode_operand(bytes, at1, operand_kind(code, 0)),
        operand_2: decode_operand(bytes, at2, operand_kind(code, 1)),
        operand_3: decode_operand(bytes, at3, operand_kind(code, 2)),
    }
}

/// The instructions encoded in `bytes` from `pos` on, appended to `acc`.
pub open spec fn decode_from(bytes: Seq<u8>, pos: int, acc: Seq<AssemblerInstruction>) -> Seq<
    AssemblerInstruction,
>
    decreases bytes.len() - pos,
{
    if pos < 0 || pos >= bytes.len() {
        acc
    } else {
        let next = pos + 1 + operands_width(bytes[pos]);
        let with = acc.push(decode_instruction(bytes, pos));
        if next >= bytes.len() {
            with
        } else {
            decode_from(bytes, next, with)
        }
    }
}

/// The instructions that a byte program encodes.
pub open spec fn disassemble(bytes: Seq<u8>) -> Seq<AssemblerInstruction> {
    decode_from(bytes, 0, Seq::empty())
}

proof fn lemma_decode_operand(bytes: Seq<u8>, q: int, o: Option<Token>, k: TokenKind)
    requires
        operand_fits(o, k),
        k != TokenKind::Mnemonic,
        0 <= q,
        q + encode_operand(o).len() <= bytes.len(),
        bytes.subrange(q, q + encode_operand(o).len()) == encode_operand(o),
    ensures
        decode_operand(bytes, q, k) == o,
        kind_width(k) == encode_operand(o).len(),
{
    let e = encode_operand(o);
    match o {
        Some(Token::IntegerOperand { value }) => {
            assert(bytes[q] == e[0] && bytes[q + 1] == e[1]);
            assert(0 <= value / 256 <= 255);
            assert(e[0] == value / 256 && e[1] == value % 256);
            assert((value / 256) * 256 + value % 256 == value);
            assert(k == TokenKind::Integer);
            assert(bytes[q] * 256 + bytes[q + 1] == value);
        },
        Some(Token::Register { reg_num }) => {
            assert(bytes[q] == e[0]);
        },
        _ => {},
    }
}

proof fn lemma_decode_one(bytes: Seq<u8>, pos: int, i: AssemblerInstruction)
    requires
        i.wf(),
        0 <= pos,
        pos + encode_instruction(i).len() <= bytes.len(),
        bytes.subrange(pos, pos + encode_instruction(i).len()) == encode_instruction(i),
    ensures
        decode_instruction(bytes, pos) == i,
        1 + operands_width(bytes[pos]) == encode_instruction(i).len(),
{
    let code = i.opcode->code;
    let e1 = encode_operand(i.operand_1);
    let e2 = encode_operand(i.operand_2);
    let e3 = encode_operand(i.operand_3);
    let enc = encode_instruction(i);
    let b = bytes.subrange(pos, pos + enc.len());
    assert(enc =~= seq![opcode_byte(code)] + e1 + e2 + e3);
    assert(bytes[pos] == b[0]);
    lemma_decode_opcode_byte(code);
    let l1 = e1.len() as int;
    let l2 = e2.len() as int;
    let at1 = pos + 1;
    let at2 = at1 + l1;
    let at3 = at2 + l2;
    assert(bytes.subrange(at1, at2) =~= b.subrange(1, 1 + l1));
    assert(enc.subrange(1, 1 + l1) =~= e1);
    lemma_decode_operand(bytes, at1, i.operand_1, operand_kind(code, 0));
    assert(bytes.subrange(at2, at3) =~= b.subrange(1 + l1, 1 + l1 + l2));
    assert(enc.subrange(1 + l1, 1 + l1 + l2) =~= e2);
    lemma_decode_operand(bytes, at2, i.operand_2, operand_kind(code, 1));
    assert(bytes.subrange(at3, at3 + e3.len()) =~= b.subrange(
        1 + l1 + l2,
        enc.len() as int,
    ));
    assert(enc.subrange(1 + l1 + l2, enc.len() as int) =~= e3);
    lemma_decode_operand(bytes, at3, i.operand_3, operand_kind(code, 2));
}

proof fn lemma_encode_prefix(p: Seq<AssemblerInstruction>, m: int)
    requires
        0 <= m <= p.len(),
    ensures
        encode_program(p.subrange(0, m)).len() <= encode_program(p).len(),
        encode_program(p).subrange(0, encode_program(p.subrange(0, m)).len() as int)
            == encode_program(p.subrange(0, m)),
    decreases p.len(),
{
    if m == p.len() {
        assert(p.subrange(0, m) =~= p);
        assert(encode_program(p).subrange(0, encode_program(p).len() as int) =~= encode_program(p));
    } else {
        let q = p.drop_last();
        lemma_encode_prefix(q, m);
        assert(q.subrange(0, m) =~= p.subrange(0, m));
        let a = encode_program(p.subrange(0, m));
        assert(encode_program(p).subrange(0, a.len() as int) =~= encode_program(q).subrange(
            0,
            a.len() as int,
        ));
    }
}

proof fn lemma_decode_from(p: Seq<AssemblerInstruction>, k: int)
    requires
        instructions_wf(p),
        0 <= k <= p.len(),
    ensures
        decode_from(encode_program(p), encode_program(p.subrange(0, k)).len() as int, p.subrange(0, k))
            == p,
    decreases p.len() - k,
{
    let bytes = encode_program(p);
    let pos = encode_program(p.subrange(0, k)).len() as int;
    if k == p.len() {
        assert(p.subrange(0, k) =~= p);
    } else {
        let i = p[k];
        assert(p.subrange(0, k + 1).drop_last() =~= p.subrange(0, k));
        assert(p.subrange(0, k + 1).last() == i);
        let next = encode_program(p.subrange(0, k + 1));
        assert(next == encode_program(p.subrange(0, k)) + encode_instruction(i));
        lemma_encode_prefix(p, k + 1);
        assert(p[k].wf());
        assert(bytes.subrange(pos, pos + encode_instruction(i).len()) =~= next.subrange(
            pos,
            next.len() as int,
        ));
        assert(next.subrange(pos, next.len() as int) =~= encode_instruction(i));
        lemma_decode_one(bytes, pos, i);
        assert(p.subrange(0, k).push(i) =~= p.subrange(0, k + 1));
        lemma_decode_from(p, k + 1);
    }
}

/// Decoding the bytes of a well-formed program gives back that program: the encoding loses
/// nothing, so two well-formed programs with the same bytes are the same program.
pub proof fn lemma_encoding_round_trip(p: Seq<AssemblerInstruction>, q: Seq<AssemblerInstruction>)
    requires
        instructions_wf(p),
        instructions_wf(q),
    ensures
        disassemble(encode_program(p)) == p,
        encode_program(p) == encode_program(q) ==> p == q,
{
    lemma_decode_from(p, 0);
    lemma_decode_from(q, 0);
    assert(p.subrange(0, 0) =~= Seq::<AssemblerInstruction>::empty());
    assert(q.subrange(0, 0) =~= Seq::<AssemblerInstruction>::empty());
}

} // verus!
