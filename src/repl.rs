//! State of the interactive shell around the machine, and its hex byte input.
use vstd::prelude::*;
use crate::vm::VM;
use vstd::string::StringSliceAdditionalSpecFns;

verus! {

/// A group of the hex input that does not denote a byte (an optional `+`, then hex digits
/// of value at most 255): it starts at byte `offset` of the input.
#[derive(PartialEq, Eq, Structural, Debug, Clone, Copy)]
pub struct ParseHexError {
    pub offset: usize,
}

/// The value of a hexadecimal digit (either case).
pub open spec fn hex_digit(b: u8) -> Option<int> {
    if 48 <= b <= 57 {
        Some(b - 48)
    } else if 97 <= b <= 102 {
        Some(b - 87)
    } else if 65 <= b <= 70 {
        Some(b - 55)
    } else {
        None
    }
}

/// One or more hexadecimal digits.
pub open spec fn all_hex(s: Seq<u8>) -> bool {
    s.len() > 0 && forall|i: int| 0 <= i < s.len() ==> (#[trigger] hex_digit(s[i])) is Some
}

/// The value of a string of hexadecimal digits.
pub open spec fn hex_value(s: Seq<u8>) -> int
    decreases s.len(),
{
    if s.len() == 0 {
        0
    } else {
        hex_value(s.drop_last()) * 16 + hex_digit(s.last())->Some_0
    }
}

/// Where the digits of the group `text[start..end]` begin: after one optional `+`.
pub open spec fn digits_start(text: Seq<u8>, start: int, end: int) -> int {
    if start < end && text[start] == 43 {
        start + 1
    } else {
        start
    }
}

/// The byte that the group `text[start..end]` denotes (an optional `+`, then hex digits),
/// appended to `acc`.
pub open spec fn hex_group(text: Seq<u8>, start: int, end: int, acc: Seq<u8>) -> Result<
    Seq<u8>,
    ParseHexError,
> {
    let g = text.subrange(digits_start(text, start, end), end);
    if all_hex(g) && hex_value(g) <= 255 {
        Ok(acc.push(hex_value(g) as u8))
    } else {
        Err(ParseHexError { offset: start as usize })
    }
}

/// The bytes of the space-separated groups of `text` from `pos` on, where the current
/// group began at `start`.
pub open spec fn hex_from(text: Seq<u8>, pos: int, start: int, acc: Seq<u8>) -> Result<
    Seq<u8>,
    ParseHexError,
>
    decreases text.len() - pos,
{
    if pos >= text.len() {
        hex_group(text, start, text.len() as int, acc)
    } else if text[pos] == 32 {
        match hex_group(text, start, pos, acc) {
            Ok(a) => hex_from(text, pos + 1, pos + 1, a),
            Err(e) => Err(e),
        }
    } else {
        hex_from(text, pos + 1, start, acc)
    }
}

/// The bytes that a line of space-separated hex groups denotes (`00 01 03 E8`).
pub open spec fn hex_bytes(text: Seq<u8>) -> Result<Seq<u8>, ParseHexError> {
    hex_from(text, 0, 0, Seq::empty())
}

proof fn lemma_hex_prefix(s: Seq<u8>, k: int)
    requires
        0 <= k <= s.len(),
        forall|i: int| 0 <= i < s.len() ==> (#[trigger] hex_digit(s[i])) is Some,
    ensures
        0 <= hex_value(s.subrange(0, k)) <= hex_value(s),
    decreases s.len(),
{
    if s.len() > 0 {
        if k == s.len() {
            assert(s.subrange(0, k) =~= s);
            lemma_hex_prefix(s.drop_last(), 0);
        } else {
            lemma_hex_prefix(s.drop_last(), k);
            assert(s.drop_last().subrange(0, k) =~= s.subrange(0, k));
        }
    } else {
        assert(s.subrange(0, k) =~= s);
    }
}

/// Parses the group `text[start..end]` and appends its byte to `acc`.
fn push_hex_group(text: &[u8], start: usize, end: usize, acc: &mut Vec<u8>) -> (r: Result<
    (),
    ParseHexError,
>)
    requires
        start <= end <= text@.len(),
    ensures
        match r {
            Ok(_) => hex_group(text@, start as int, end as int, old(acc)@) == Ok::<
                Seq<u8>,
                ParseHexError,
            >(final(acc)@),
            Err(e) => hex_group(text@, start as int, end as int, old(acc)@) == Err::<
                Seq<u8>,
                ParseHexError,
            >(e),
        },
{
    let ds = if start < end && text[start] == 43 {
        start + 1
    } else {
        start
    };
    let ghost g = text@.subrange(ds as int, end as int);
    if ds == end {
        return Err(ParseHexError { offset: start });
    }
    let mut v: u32 = 0;
    let mut i = ds;
    while i < end
        invariant
            start <= ds <= i <= end <= text@.len(),
            ds == digits_start(text@, start as int, end as int),
            g == text@.subrange(ds as int, end as int),
            forall|j: int| ds <= j < i ==> (#[trigger] hex_digit(text@[j])) is Some,
            v == hex_value(text@.subrange(ds as int, i as int)),
            v <= 255,
        decreases end - i,
    {
        let b = text[i];
        let d: u32 = if 48 <= b && b <= 57 {
            (b - 48) as u32
        } else if 97 <= b && b <= 102 {
            (b - 87) as u32
        } else if 65 <= b && b <= 70 {
            (b - 55) as u32
        } else {
            assert(hex_digit(g[i - ds]) is None);
            return Err(ParseHexError { offset: start });
        };
        assert(text@.subrange(ds as int, i + 1).drop_last() =~= text@.subrange(
            ds as int,
            i as int,
        ));
        let next = v * 16 + d;
        if next > 255 {
            proof {
                if all_hex(g) {
                    lemma_hex_prefix(g, i + 1 - ds);
                    assert(g.subrange(0, i + 1 - ds) =~= text@.subrange(ds as int, i + 1));
                }
            }
            return Err(ParseHexError { offset: start });
        }
        v = next;
        i = i + 1;
    }
    assert(g =~= text@.subrange(ds as int, i as int));
    acc.push(v as u8);
    Ok(())
}

/// The shell: the history of its input lines and the machine it drives.
pub struct REPL {
    pub command_buffer: Vec<String>,
    pub vm: VM,
}

impl REPL {
    /// A shell with an empty history and a fresh machine.
    pub fn new() -> (r: REPL)
        ensures
            r.command_buffer@.len() == 0,
            r.vm.program@.len() == 0,
            r.vm@.registers == Seq::new(32, |i: int| 0i32),
            r.vm@.pc == 0,
            r.vm@.remainder == 0,
            !r.vm@.equal_flag,
            r.vm@.fault is None,
    {
        REPL { vm: VM::new(), command_buffer: Vec::new() }
    }

    /// Reads space-separated hex groups, each one byte (`00 01 03 E8`), with no `0x`; a
    /// group may start with one `+`.
    pub fn parse_hex(&mut self, instruction: &str) -> (r: Result<Vec<u8>, ParseHexError>)
        ensures
            match r {
                Ok(v) => hex_bytes(instruction.spec_bytes()) == Ok::<Seq<u8>, ParseHexError>(v@),
                Err(e) => hex_bytes(instruction.spec_bytes()) == Err::<Seq<u8>, ParseHexError>(e),
            },
    {
        let text = instruction.as_bytes();
        let len = text.len();
        let mut results: Vec<u8> = Vec::new();
        let mut start: usize = 0;
        let mut pos: usize = 0;
        while pos < len
            invariant
                len == text@.len(),
                text@ == instruction.spec_bytes(),
                start <= pos <= len,
                hex_from(text@, pos as int, start as int, results@) == hex_bytes(text@),
            decreases len - pos,
        {
            if text[pos] == 32 {
                match push_hex_group(text, start, pos, &mut results) {
                    Ok(_) => {},
                    Err(e) => return Err(e),
                }
                start = pos + 1;
            }
            pos = pos + 1;
        }
        match push_hex_group(text, start, len, &mut results) {
            Ok(_) => Ok(results),
            Err(e) => Err(e),
        }
    }

    /// A copy of the byte program loaded in the machine.
    pub fn program(&self) -> (r: Vec<u8>)
        ensures
            r@ == self.vm.program@,
    {
        let mut results: Vec<u8> = Vec::new();
        let mut k: usize = 0;
        while k < self.vm.program.len()
            invariant
                k <= self.vm.program@.len(),
                results@ == self.vm.program@.subrange(0, k as int),
            decreases self.vm.program@.len() - k,
        {
            results.push(self.vm.program[k]);
            k = k + 1;
        }
        assert(results@ =~= self.vm.program@);
        results
    }
}

} // verus!
