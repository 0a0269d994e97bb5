//! Turning the words of a source line into tokens.
use vstd::prelude::*;
use crate::instruction::{Opcode, opcode_of_mnemonic, mnemonic_from, decode};
use crate::assembler::{Token, AssemblyError};
use vstd::string::StringSliceAdditionalSpecFns;

verus! {

/// Space or tab: the separators between the words of a line.
pub open spec fn is_blank(b: u8) -> bool {
    b == 32 || b == 9
}

pub open spec fn is_digit(b: u8) -> bool {
    48 <= b <= 57
}

pub open spec fn is_lower(b: u8) -> bool {
    97 <= b <= 122
}

/// One or more decimal digits.
pub open spec fn all_digits(s: Seq<u8>) -> bool {
    s.len() > 0 && forall|i: int| 0 <= i < s.len() ==> is_digit(#[trigger] s[i])
}

/// The value of a string of decimal digits.
pub open spec fn digits_value(s: Seq<u8>) -> int
    decreases s.len(),
{
    if s.len() == 0 {
        0
    } else {
        digits_value(s.drop_last()) * 10 + (s.last() - 48)
    }
}

/// The index that `$` followed by decimal digits denotes, when it is at most 31.
pub open spec fn register_value(w: Seq<u8>) -> Option<u8> {
    let ds = w.subrange(1, w.len() as int);
    if w.len() >= 2 && w[0] == 36 && all_digits(ds) && digits_value(ds) <= 31 {
        Some(digits_value(ds) as u8)
    } else {
        None
    }
}

/// The value that `#`, an optional `-` and decimal digits denote, when it fits in `i32`.
pub open spec fn integer_value(w: Seq<u8>) -> Option<i32> {
    let neg = w.len() >= 2 && w[1] == 45;
    let ds = if neg {
        w.subrange(2, w.len() as int)
    } else {
        w.subrange(1, w.len() as int)
    };
    let v = if neg {
        -digits_value(ds)
    } else {
        digits_value(ds)
    };
    if w.len() >= 1 && w[0] == 35 && all_digits(ds) && i32::MIN <= v <= i32::MAX {
        Some(v as i32)
    } else {
        None
    }
}

/// The token that the word `text[s..e]` stands for, or the error it raises.
pub open spec fn classify(text: Seq<u8>, s: int, e: int) -> Result<Token, AssemblyError> {
    let w = text.subrange(s, e);
    if w[0] == 36 {
        match register_value(w) {
            Some(r) => Ok(Token::Register { reg_num: r }),
            None => Err(AssemblyError::InvalidRegister { offset: s as usize }),
        }
    } else if w[0] == 35 {
        match integer_value(w) {
            Some(v) => Ok(Token::IntegerOperand { value: v }),
            None => Err(AssemblyError::InvalidIntegerLiteral { offset: s as usize }),
        }
    } else {
        match opcode_of_mnemonic(w) {
            Some(op) => Ok(Token::Op { code: op }),
            None => if forall|i: int| 0 <= i < w.len() ==> is_lower(#[trigger] w[i]) {
                Err(AssemblyError::UnknownMnemonic { offset: s as usize })
            } else {
                Err(AssemblyError::LexError { offset: s as usize, len: (e - s) as usize })
            },
        }
    }
}

/// The tokens of `text[pos..end]`, appended to `acc`; `word` is where the word under
/// way began, if one is.
pub open spec fn scan(text: Seq<u8>, pos: int, end: int, word: Option<int>, acc: Seq<Token>) -> Result<
    Seq<Token>,
    AssemblyError,
>
    decreases end - pos,
{
    if pos >= end {
        match word {
            None => Ok(acc),
            Some(s) => match classify(text, s, end) {
                Ok(t) => Ok(acc.push(t)),
                Err(e) => Err(e),
            },
        }
    } else if is_blank(text[pos]) {
        match word {
            None => scan(text, pos + 1, end, None, acc),
            Some(s) => match classify(text, s, pos) {
                Ok(t) => scan(text, pos + 1, end, None, acc.push(t)),
                Err(e) => Err(e),
            },
        }
    } else {
        match word {
            None => scan(text, pos + 1, end, Some(pos), acc),
            Some(s) => scan(text, pos + 1, end, Some(s), acc),
        }
    }
}

/// The tokens of the line `text[start..end]`.
pub open spec fn line_tokens(text: Seq<u8>, start: int, end: int) -> Result<Seq<Token>, AssemblyError> {
    scan(text, start, end, None, Seq::empty())
}

/// What a lone word stands for.
pub open spec fn word_token(w: Seq<u8>) -> Result<Token, AssemblyError> {
    if w.len() == 0 {
        Err(AssemblyError::LexError { offset: 0, len: 0 })
    } else {
        classify(w, 0, w.len() as int)
    }
}

proof fn lemma_digits_prefix(s: Seq<u8>, k: int)
    requires
        0 <= k <= s.len(),
        forall|i: int| 0 <= i < s.len() ==> is_digit(#[trigger] s[i]),
    ensures
        0 <= digits_value(s.subrange(0, k)) <= digits_value(s),
    decreases s.len(),
{
    if s.len() > 0 {
        if k == s.len() {
            assert(s.subrange(0, k) =~= s);
            lemma_digits_prefix(s.drop_last(), 0);
        } else {
            lemma_digits_prefix(s.drop_last(), k);
            assert(s.drop_last().subrange(0, k) =~= s.subrange(0, k));
        }
    } else {
        assert(s.subrange(0, k) =~= s);
    }
}

/// The value of the digits in `text[s..e]` when all are digits and it is at most `limit`.
fn parse_digits(text: &[u8], s: usize, e: usize, limit: u64) -> (r: Option<u64>)
    requires
        s <= e <= text@.len(),
        limit <= 0x1_0000_0000,
    ensures
        r == (if all_digits(text@.subrange(s as int, e as int)) && digits_value(
            text@.subrange(s as int, e as int),
        ) <= limit {
            Some(digits_value(text@.subrange(s as int, e as int)) as u64)
        } else {
            None
        }),
        r matches Some(v) ==> v <= limit && v as int == digits_value(
            text@.subrange(s as int, e as int),
        ),
{
    let ghost ds = text@.subrange(s as int, e as int);
    if s == e {
        return None;
    }
    let mut acc: u64 = 0;
    let mut i = s;
    while i < e
        invariant
            s <= i <= e <= text@.len(),
            limit <= 0x1_0000_0000,
            ds == text@.subrange(s as int, e as int),
            forall|j: int| s <= j < i ==> is_digit(#[trigger] text@[j]),
            acc == digits_value(text@.subrange(s as int, i as int)),
            acc <= limit,
        decreases e - i,
    {
        let b = text[i];
        if b < 48 || b > 57 {
            assert(!is_digit(ds[i - s]));
            return None;
        }
        assert(text@.subrange(s as int, i + 1).drop_last() =~= text@.subrange(s as int, i as int));
        let next = acc * 10 + (b - 48) as u64;
        if next > limit {
            proof {
                if all_digits(ds) {
                    lemma_digits_prefix(ds, i + 1 - s);
                    assert(ds.subrange(0, i + 1 - s) =~= text@.subrange(s as int, i + 1));
                }
            }
            return None;
        }
        acc = next;
        i = i + 1;
    }
    assert(ds =~= text@.subrange(s as int, i as int));
    Some(acc)
}

/// Whether `text[s..e]` equals `m`.
fn bytes_equal(text: &[u8], s: usize, e: usize, m: &Vec<u8>) -> (r: bool)
    requires
        s <= e <= text@.len(),
    ensures
        r == (text@.subrange(s as int, e as int) == m@),
{
    if e - s != m.len() {
        return false;
    }
    let mut i: usize = 0;
    while i < m.len()
        invariant
            s <= e <= text@.len(),
            e - s == m@.len(),
            i <= m@.len(),
            forall|j: int| 0 <= j < i ==> text@[s + j] == m@[j],
        decreases m@.len() - i,
    {
        if text[s + i] != m[i] {
            assert(text@.subrange(s as int, e as int)[i as int] != m@[i as int]);
            return false;
        }
        i = i + 1;
    }
    assert(text@.subrange(s as int, e as int) =~= m@);
    true
}

/// The opcode whose mnemonic is `text[s..e]`, if any.
fn lookup_mnemonic(text: &[u8], s: usize, e: usize) -> (r: Option<Opcode>)
    requires
        s <= e <= text@.len(),
    ensures
        r == opcode_of_mnemonic(text@.subrange(s as int, e as int)),
{
    let ghost w = text@.subrange(s as int, e as int);
    let mut code: u8 = 0;
    while code < 17
        invariant
            w == text@.subrange(s as int, e as int),
            s <= e <= text@.len(),
            code <= 17,
            mnemonic_from(w, code as nat) == opcode_of_mnemonic(w),
        decreases 17 - code,
    {
        let op = Opcode::from(code);
        let m = op.mnemonic();
        if bytes_equal(text, s, e, &m) {
            return Some(op);
        }
        code = code + 1;
    }
    None
}

/// The token that the word `text[s..e]` stands for.
fn classify_word(text: &[u8], s: usize, e: usize) -> (r: Result<Token, AssemblyError>)
    requires
        s < e <= text@.len(),
    ensures
        r == classify(text@, s as int, e as int),
{
    let ghost w = text@.subrange(s as int, e as int);
    assert(w[0] == text@[s as int]);
    let first = text[s];
    if first == 36 {
        assert(w.subrange(1, w.len() as int) =~= text@.subrange(s + 1, e as int));
        match parse_digits(text, s + 1, e, 31) {
            Some(v) => Ok(Token::Register { reg_num: v as u8 }),
            None => Err(AssemblyError::InvalidRegister { offset: s }),
        }
    } else if first == 35 {
        let neg = e - s >= 2 && text[s + 1] == 45;
        if neg {
            assert(w[1] == text@[s + 1]);
            assert(w.subrange(2, w.len() as int) =~= text@.subrange(s + 2, e as int));
            match parse_digits(text, s + 2, e, 0x8000_0000) {
                Some(v) => Ok(Token::IntegerOperand { value: (0 - v as i64) as i32 }),
                None => Err(AssemblyError::InvalidIntegerLiteral { offset: s }),
            }
        } else {
            assert(e - s >= 2 ==> w[1] == text@[s + 1]);
            assert(w.subrange(1, w.len() as int) =~= text@.subrange(s + 1, e as int));
            match parse_digits(text, s + 1, e, 0x7fff_ffff) {
                Some(v) => Ok(Token::IntegerOperand { value: v as i32 }),
                None => Err(AssemblyError::InvalidIntegerLiteral { offset: s }),
            }
        }
    } else {
        match lookup_mnemonic(text, s, e) {
            Some(op) => Ok(Token::Op { code: op }),
            None => {
                assert(w[0] != 36 && w[0] != 35);
                let mut i = s;
                while i < e
                    invariant
                        s <= i <= e <= text@.len(),
                        w == text@.subrange(s as int, e as int),
                        forall|j: int| 0 <= j < i - s ==> is_lower(#[trigger] w[j]),
                        w[0] != 36 && w[0] != 35,
                        opcode_of_mnemonic(w) is None,
                    decreases e - i,
                {
                    if text[i] < 97 || text[i] > 122 {
                        assert(w[i - s] == text@[i as int]);
                        return Err(AssemblyError::LexError { offset: s, len: e - s });
                    }
                    i = i + 1;
                }
                Err(AssemblyError::UnknownMnemonic { offset: s })
            },
        }
    }
}

/// The tokens of the line `text[start..end]`, or the first lexical error in it.
pub fn tokenize_line(text: &[u8], start: usize, end: usize) -> (r: Result<Vec<Token>, AssemblyError>)
    requires
        start <= end <= text@.len(),
    ensures
        match r {
            Ok(v) => line_tokens(text@, start as int, end as int) == Ok::<Seq<Token>, AssemblyError>(v@),
            Err(e) => line_tokens(text@, start as int, end as int) == Err::<Seq<Token>, AssemblyError>(e),
        },
{
    let mut toks: Vec<Token> = Vec::new();
    let mut word: Option<usize> = None;
    let mut i = start;
    while i < end
        invariant
            start <= i <= end <= text@.len(),
            match word {
                Some(s) => start <= s < i,
                None => true,
            },
            line_tokens(text@, start as int, end as int) == scan(
                text@,
                i as int,
                end as int,
                match word {
                    Some(s) => Some(s as int),
                    None => None,
                },
                toks@,
            ),
        decreases end - i,
    {
        if text[i] == 32 || text[i] == 9 {
            if let Some(s) = word {
                match classify_word(text, s, i) {
                    Ok(t) => toks.push(t),
                    Err(e) => return Err(e),
                }
                word = None;
            }
        } else if word.is_none() {
            word = Some(i);
        }
        i = i + 1;
    }
    if let Some(s) = word {
        match classify_word(text, s, end) {
            Ok(t) => toks.push(t),
            Err(e) => return Err(e),
        }
    }
    Ok(toks)
}

/// The token that a lone word stands for: a mnemonic, `$n` or `#n`.
pub fn parse_token(word: &str) -> (r: Result<Token, AssemblyError>)
    ensures
        r == word_token(word.spec_bytes()),
{
    let bytes = word.as_bytes();
    if bytes.len() == 0 {
        return Err(AssemblyError::LexError { offset: 0, len: 0 });
    }
    assert(bytes@.subrange(0, bytes@.len() as int) =~= bytes@);
    classify_word(bytes, 0, bytes.len())
}

} // verus!
