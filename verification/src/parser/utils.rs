//! Readers shared by the assembler and the interpreter.
use vstd::prelude::*;
use crate::parser::assembly::{AsmError, CursorPos, push_all, room, until_end, lemma_push_all, le_bytes};
use crate::parser::exec;
use crate::exceptions::{Error, spec_message};
use crate::text::{numbered, message_with_number};
use vstd::string::*;

verus! {

/// ASCII whitespace: space, tab, line feed, form feed, carriage return.
pub open spec fn is_ws(b: u8) -> bool {
    b == 0x20 || b == 0x09 || b == 0x0A || b == 0x0C || b == 0x0D
}

/// Whether a byte is ASCII whitespace.
pub fn is_ascii_ws(b: u8) -> (res: bool)
    ensures
        res == is_ws(b),
{
    b == 0x20 || b == 0x09 || b == 0x0A || b == 0x0C || b == 0x0D
}

/// The position of the first byte at or after `i` that is not whitespace,
/// or the end.
pub open spec fn ws_end(input: Seq<u8>, i: int) -> int
    decreases input.len() - i,
{
    if i >= input.len() {
        input.len() as int
    } else if is_ws(input[i]) {
        ws_end(input, i + 1)
    } else {
        i
    }
}

/// The position after whitespace and `;` comments (which run to the end of
/// the line) starting at `i`.
pub open spec fn skip_end(input: Seq<u8>, i: int) -> int
    decreases input.len() - i,
{
    if i >= input.len() {
        input.len() as int
    } else if is_ws(input[i]) {
        skip_end(input, i + 1)
    } else if input[i] == 0x3B {
        let j = until_end(input, i + 1, 0x0A);
        if i < j <= input.len() { skip_end(input, j) } else { input.len() as int }
    } else {
        i
    }
}

pub proof fn lemma_until_end_bounds(input: Seq<u8>, from: int, byte: u8)
    requires
        0 <= from,
    ensures
        from <= until_end(input, from, byte) <= input.len() || (from > input.len() && until_end(input, from, byte) == input.len()),
        from < input.len() ==> from < until_end(input, from, byte) <= input.len(),
    decreases input.len() - from,
{
    if from < input.len() && input[from] != byte {
        lemma_until_end_bounds(input, from + 1, byte);
    }
}

pub proof fn lemma_skip_end_bounds(input: Seq<u8>, i: int)
    requires
        0 <= i <= input.len(),
    ensures
        i <= skip_end(input, i) <= input.len(),
    decreases input.len() - i,
{
    if i < input.len() {
        if is_ws(input[i]) {
            lemma_skip_end_bounds(input, i + 1);
        } else if input[i] == 0x3B {
            lemma_until_end_bounds(input, i + 1, 0x0A);
            let j = until_end(input, i + 1, 0x0A);
            if i < j <= input.len() {
                lemma_skip_end_bounds(input, j);
            }
        }
    }
}

pub proof fn lemma_ws_end_bounds(input: Seq<u8>, i: int)
    requires
        0 <= i <= input.len(),
    ensures
        i <= ws_end(input, i) <= input.len(),
        forall|k: int| i <= k < ws_end(input, i) ==> is_ws(#[trigger] input[k]),
        ws_end(input, i) < input.len() ==> !is_ws(input[ws_end(input, i)]),
    decreases input.len() - i,
{
    if i < input.len() && is_ws(input[i]) {
        lemma_ws_end_bounds(input, i + 1);
    }
}

/// Consumes whitespace and returns the first byte that is not whitespace,
/// consuming it too; `None` at the end of the input.
pub fn read_non_whitespace_byte(input: &[u8], at: &mut usize) -> (res: Option<u8>)
    requires
        *old(at) <= input@.len(),
    ensures
        ws_end(input@, *old(at) as int) == input@.len() ==> res is None && *final(at) == input@.len(),
        ws_end(input@, *old(at) as int) < input@.len() ==> res == Some(input@[ws_end(input@, *old(at) as int)])
            && *final(at) == ws_end(input@, *old(at) as int) + 1,
{
    proof {
        lemma_ws_end_bounds(input@, *at as int);
    }
    let ghost start = *at as int;
    while *at < input.len()
        invariant
            input@.len() == input.len(),
            start == *old(at),
            start <= *at <= input@.len(),
            ws_end(input@, *at as int) == ws_end(input@, start),
        decreases input@.len() - *at,
    {
        let b = input[*at];
        *at = *at + 1;
        if !is_ascii_ws(b) {
            assert(ws_end(input@, *at - 1) == *at - 1);
            return Some(b);
        }
        assert(ws_end(input@, *at - 1) == ws_end(input@, *at as int));
    }
    None
}

/// Consumes whitespace and `;` comments, counting them on the cursor.
pub fn skip_whitespace_and_comments(input: &[u8], at: &mut usize, cursor: &mut CursorPos) -> (res: Result<(), AsmError>)
    requires
        *old(at) <= input@.len(),
        old(cursor).wf(),
        room(*old(cursor), input@.len() - *old(at)),
    ensures
        res is Ok,
        *final(at) == skip_end(input@, *old(at) as int),
        *final(cursor) == push_all(*old(cursor), input@.subrange(*old(at) as int, *final(at) as int)),
        final(cursor).wf(),
{
    let ghost start = *at as int;
    let ghost c0 = *cursor;
    proof {
        lemma_skip_end_bounds(input@, start);
        assert(input@.subrange(start, start) =~= Seq::<u8>::empty());
    }
    while *at < input.len()
        invariant_except_break
            input@.len() == input.len(),
            start == *old(at) as int,
            c0 == *old(cursor),
            start <= *at <= input@.len(),
            skip_end(input@, *at as int) == skip_end(input@, start),
            *cursor == push_all(c0, input@.subrange(start, *at as int)),
            cursor.wf(),
            room(*cursor, input@.len() - *at),
        ensures
            start == *old(at) as int,
            c0 == *old(cursor),
            start <= *at <= input@.len(),
            *at == skip_end(input@, start),
            *cursor == push_all(c0, input@.subrange(start, *at as int)),
            cursor.wf(),
        decreases input@.len() - *at,
    {
        let ch = input[*at];
        proof {
            crate::parser::assembly::lemma_room_mono(*cursor, 1, input@.len() - *at);
        }
        if is_ascii_ws(ch) {
            let ghost before = *at as int;
            proof {
                crate::parser::assembly::lemma_push_one(*cursor, ch, input@.len() - *at - 1);
                crate::parser::assembly::lemma_push_all_extend(c0, input@, start, before);
            }
            *at = *at + 1;
            cursor.push_u8(ch);
        } else if ch == 0x3B {
            let ghost before = *at as int;
            proof {
                crate::parser::assembly::lemma_push_one(*cursor, ch, input@.len() - *at - 1);
                crate::parser::assembly::lemma_push_all_extend(c0, input@, start, before);
            }
            *at = *at + 1;
            cursor.push_u8(ch);
            let ghost c1 = *cursor;
            let ghost after_semicolon = *at as int;
            let mut tmp: Vec<u8> = Vec::new();
            let n = cursor.read_until(input, at, 0x0A, &mut tmp);
            proof {
                lemma_until_end_bounds(input@, after_semicolon, 0x0A);
                assert(tmp@ =~= input@.subrange(after_semicolon, *at as int));
                crate::parser::assembly::lemma_push_all_concat(c0, input@.subrange(start, after_semicolon), tmp@);
                assert(input@.subrange(start, after_semicolon) + tmp@ =~= input@.subrange(start, *at as int));
                lemma_push_all(c1, tmp@, input@.len() - *at);
                assert(skip_end(input@, before) == skip_end(input@, *at as int));
            }
            match n {
                Ok(0) => {
                    return Ok(());
                },
                _ => {},
            }
        } else {
            break;
        }
    }
    Ok(())
}

/// `256` to the power `n`.
pub open spec fn pow256(n: nat) -> nat
    decreases n,
{
    if n == 0 { 1 } else { 256 * pow256((n - 1) as nat) }
}

/// The number that bytes encode in little-endian order.
pub open spec fn le_value(bytes: Seq<u8>) -> nat
    decreases bytes.len(),
{
    if bytes.len() == 0 { 0 } else { bytes[0] as nat + 256 * le_value(bytes.drop_first()) }
}

pub proof fn lemma_le_value_bound(bytes: Seq<u8>)
    ensures
        le_value(bytes) < pow256(bytes.len()),
    decreases bytes.len(),
{
    if bytes.len() > 0 {
        lemma_le_value_bound(bytes.drop_first());
        let r = le_value(bytes.drop_first());
        let p = pow256((bytes.len() - 1) as nat);
        let b = bytes[0] as nat;
        assert(b + 256 * r < 256 * p) by (nonlinear_arith)
            requires
                r < p,
                b < 256,
        ;
    }
}

/// One byte read as a little-endian number is that byte.
pub proof fn lemma_le_value_one(s: Seq<u8>, a: int)
    requires
        0 <= a < s.len(),
    ensures
        le_value(s.subrange(a, a + 1)) == s[a],
{
    let t = s.subrange(a, a + 1);
    assert(t.drop_first() =~= Seq::<u8>::empty());
    assert(le_value(t.drop_first()) == 0);
}

pub proof fn lemma_pow256_values()
    ensures
        pow256(1) == 0x100,
        pow256(2) == 0x1_0000,
        pow256(4) == 0x1_0000_0000,
        pow256(8) == 0x1_0000_0000_0000_0000,
{
    reveal_with_fuel(pow256, 9);
}

/// Decoding undoes encoding: the little-endian bytes of a number below
/// `256^n`, written in `n` bytes, read back as that number.
pub proof fn lemma_le_value_of_le_bytes(v: nat, n: nat)
    requires
        v < pow256(n),
    ensures
        le_value(le_bytes(v, n)) == v,
    decreases n,
{
    if n > 0 {
        let q = v / 256;
        assert(q < pow256((n - 1) as nat)) by (nonlinear_arith)
            requires
                v < 256 * pow256((n - 1) as nat),
                q == v / 256,
        ;
        lemma_le_value_of_le_bytes(q, (n - 1) as nat);
        let s = le_bytes(v, n);
        assert(s.drop_first() =~= le_bytes(q, (n - 1) as nat));
        assert(v == (v % 256) + 256 * q) by (nonlinear_arith)
            requires
                q == v / 256,
        ;
    }
}

/// The message of a short read: what needed the operand, then the byte
/// count four (whatever the width) and how many bytes there were.
pub open spec fn short_read_text(what_requires: Seq<char>, got: int, text: Seq<char>) -> bool {
    numbered(what_requires + " requires 4 bytes, got "@, got as u64, text)
}

/// Reads `n` bytes at `*at` as a little-endian number. With fewer bytes
/// left the rest of the input is consumed and the result is an `EOFError` at
/// the cursor, which is left as it was; else the cursor counts the bytes.
pub fn read_bin_le(input: &[u8], at: &mut usize, what_requires: &str, cursor: &mut exec::CursorPos, n: usize)
    -> (res: Result<u64, exec::ExecError>)
    requires
        1 <= n <= 8,
        *old(at) <= input@.len(),
        *old(at) + n <= input@.len() ==> old(cursor).pos + n <= usize::MAX,
    ensures
        *old(at) + n <= input@.len() ==> res == Ok::<u64, exec::ExecError>(le_value(input@.subrange(*old(at) as int, *old(at) + n)) as u64)
            && *final(at) == *old(at) + n
            && final(cursor).pos == old(cursor).pos + n
            && final(cursor).func == old(cursor).func,
        *old(at) + n > input@.len() ==> (res matches Err(e) && e.error is EOFError && e.pos == *old(cursor)
                && short_read_text(what_requires@, input@.len() - *old(at), spec_message(e.error)@))
            && *final(at) == input@.len()
            && *final(cursor) == *old(cursor),
        *old(at) + n <= input@.len() ==> le_value(input@.subrange(*old(at) as int, *old(at) + n)) < pow256(n as nat),
{
    let start = *at;
    let available = input.len() - start;
    if available < n {
        *at = input.len();
        let got = available as u64;
        let prefix = String::from_str(what_requires).concat(" requires 4 bytes, got ");
        return Err(exec::ExecError::new(Error::EOFError(message_with_number(prefix.as_str(), got)), *cursor));
    }
    let mut value: u64 = 0;
    let mut i: usize = n;
    proof {
        lemma_pow256_values();
        assert(input@.subrange(start + n, start + n as int) =~= Seq::<u8>::empty());
    }
    while i > 0
        invariant
            input@.len() == input.len(),
            1 <= n <= 8,
            start + n <= input@.len(),
            i <= n,
            value == le_value(input@.subrange(start + i, start + n as int)),
            pow256(8) == 0x1_0000_0000_0000_0000,
        decreases i,
    {
        let ghost rest = input@.subrange(start + i, start + n as int);
        i = i - 1;
        let b = input[start + i];
        let ghost s = input@.subrange(start + i, start + n as int);
        proof {
            assert(s.drop_first() =~= rest);
            lemma_le_value_bound(s);
            lemma_pow256_mono(s.len(), 8);
        }
        assert(s[0] == b);
        assert(le_value(s) == b as nat + 256 * value);
        value = b as u64 + 256 * value;
    }
    proof {
        lemma_le_value_bound(input@.subrange(start as int, start + n as int));
    }
    *at = start + n;
    cursor.pos = cursor.pos + n;
    Ok(value)
}

pub proof fn lemma_pow256_mono(a: nat, b: nat)
    requires
        a <= b,
    ensures
        pow256(a) <= pow256(b),
    decreases b,
{
    if a < b {
        lemma_pow256_mono(a, (b - 1) as nat);
    }
}

/// Reads one byte; see [`read_bin_le`].
pub fn read_bin_to_u8(input: &[u8], at: &mut usize, what_requires: &str, cursor: &mut exec::CursorPos)
    -> (res: Result<u8, exec::ExecError>)
    requires
        *old(at) <= input@.len(),
        *old(at) + 1 <= input@.len() ==> old(cursor).pos + 1 <= usize::MAX,
    ensures
        *old(at) + 1 <= input@.len() ==> res == Ok::<u8, exec::ExecError>(input@[*old(at) as int])
            && *final(at) == *old(at) + 1
            && final(cursor).pos == old(cursor).pos + 1
            && final(cursor).func == old(cursor).func,
        *old(at) + 1 > input@.len() ==> (res matches Err(e) && e.error is EOFError && e.pos == *old(cursor)
                && short_read_text(what_requires@, input@.len() - *old(at), spec_message(e.error)@))
            && *final(at) == input@.len()
            && *final(cursor) == *old(cursor),
{
    let ghost start = *at as int;
    let r = read_bin_le(input, at, what_requires, cursor, 1);
    match r {
        Ok(v) => {
            proof {
                let s = input@.subrange(start, start + 1);
                assert(s.drop_first() =~= Seq::<u8>::empty());
                assert(le_value(s.drop_first()) == 0);
                assert(le_value(s) == s[0] as nat);
            }
            Ok(v as u8)
        },
        Err(e) => Err(e),
    }
}

/// Reads a little-endian `u16`; see [`read_bin_le`].
pub fn read_bin_to_u16(input: &[u8], at: &mut usize, what_requires: &str, cursor: &mut exec::CursorPos)
    -> (res: Result<u16, exec::ExecError>)
    requires
        *old(at) <= input@.len(),
        *old(at) + 2 <= input@.len() ==> old(cursor).pos + 2 <= usize::MAX,
    ensures
        *old(at) + 2 <= input@.len() ==> res == Ok::<u16, exec::ExecError>(le_value(input@.subrange(*old(at) as int, *old(at) + 2)) as u16)
            && le_value(input@.subrange(*old(at) as int, *old(at) + 2)) < 0x1_0000
            && *final(at) == *old(at) + 2
            && final(cursor).pos == old(cursor).pos + 2
            && final(cursor).func == old(cursor).func,
        *old(at) + 2 > input@.len() ==> (res matches Err(e) && e.error is EOFError && e.pos == *old(cursor)
                && short_read_text(what_requires@, input@.len() - *old(at), spec_message(e.error)@))
            && *final(at) == input@.len()
            && *final(cursor) == *old(cursor),
{
    proof { lemma_pow256_values(); }
    match read_bin_le(input, at, what_requires, cursor, 2) {
        Ok(v) => Ok(v as u16),
        Err(e) => Err(e),
    }
}

/// Reads a little-endian `u32`; see [`read_bin_le`].
pub fn read_bin_to_u32(input: &[u8], at: &mut usize, what_requires: &str, cursor: &mut exec::CursorPos)
    -> (res: Result<u32, exec::ExecError>)
    requires
        *old(at) <= input@.len(),
        *old(at) + 4 <= input@.len() ==> old(cursor).pos + 4 <= usize::MAX,
    ensures
        *old(at) + 4 <= input@.len() ==> res == Ok::<u32, exec::ExecError>(le_value(input@.subrange(*old(at) as int, *old(at) + 4)) as u32)
            && le_value(input@.subrange(*old(at) as int, *old(at) + 4)) < 0x1_0000_0000
            && *final(at) == *old(at) + 4
            && final(cursor).pos == old(cursor).pos + 4
            && final(cursor).func == old(cursor).func,
        *old(at) + 4 > input@.len() ==> (res matches Err(e) && e.error is EOFError && e.pos == *old(cursor)
                && short_read_text(what_requires@, input@.len() - *old(at), spec_message(e.error)@))
            && *final(at) == input@.len()
            && *final(cursor) == *old(cursor),
{
    proof { lemma_pow256_values(); }
    match read_bin_le(input, at, what_requires, cursor, 4) {
        Ok(v) => Ok(v as u32),
        Err(e) => Err(e),
    }
}

/// Reads a little-endian `u64`; see [`read_bin_le`].
pub fn read_bin_to_u64(input: &[u8], at: &mut usize, what_requires: &str, cursor: &mut exec::CursorPos)
    -> (res: Result<u64, exec::ExecError>)
    requires
        *old(at) <= input@.len(),
        *old(at) + 8 <= input@.len() ==> old(cursor).pos + 8 <= usize::MAX,
    ensures
        *old(at) + 8 <= input@.len() ==> res == Ok::<u64, exec::ExecError>(le_value(input@.subrange(*old(at) as int, *old(at) + 8)) as u64)
            && le_value(input@.subrange(*old(at) as int, *old(at) + 8)) < 0x1_0000_0000_0000_0000
            && *final(at) == *old(at) + 8
            && final(cursor).pos == old(cursor).pos + 8
            && final(cursor).func == old(cursor).func,
        *old(at) + 8 > input@.len() ==> (res matches Err(e) && e.error is EOFError && e.pos == *old(cursor)
                && short_read_text(what_requires@, input@.len() - *old(at), spec_message(e.error)@))
            && *final(at) == input@.len()
            && *final(cursor) == *old(cursor),
{
    proof { lemma_pow256_values(); }
    read_bin_le(input, at, what_requires, cursor, 8)
}

} // verus!
