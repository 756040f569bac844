//! Reading hexadecimal numbers and hex-encoded bytes.
use vstd::prelude::*;
use crate::exceptions::{Error, ErrorCode, Fault, fixed_fault, is_fault};
use crate::text::{numbered, spec_upper_hex, upper_hex_u64, char_text, byte_char, message_with_number};
use vstd::string::*;
use crate::parser::assembly::{AsmError, CursorPos, push_all, room, lemma_push_all_concat, lemma_push_all};
use crate::parser::utils::{is_ws, is_ascii_ws, ws_end, skip_end, lemma_skip_end_bounds, lemma_ws_end_bounds,
    read_non_whitespace_byte, skip_whitespace_and_comments};

verus! {

/// The value of a hexadecimal digit (`0`-`9`, `a`-`f`, `A`-`F`).
pub open spec fn hex_value(b: u8) -> Option<u8> {
    if 0x30 <= b <= 0x39 { Some((b - 0x30) as u8) }
    else if 0x61 <= b <= 0x66 { Some((b - 0x61 + 10) as u8) }
    else if 0x41 <= b <= 0x46 { Some((b - 0x41 + 10) as u8) }
    else { None }
}

/// The hexadecimal digits stand for their places in `0123456789abcdef`,
/// and the upper-case letters for the same values as the lower-case ones;
/// no other byte is a digit.
pub proof fn lemma_hex_digits()
    ensures
        forall|i: int| 0 <= i < 16 ==> hex_value(crate::value::ascii("0123456789abcdef"@)[i]) == Some(i as u8),
        forall|i: int| 10 <= i < 16 ==> hex_value(crate::value::ascii("0123456789ABCDEF"@)[i]) == Some(i as u8),
        forall|b: u8| #[trigger] hex_value(b) is Some ==> crate::value::ascii("0123456789abcdef"@).contains(b)
            || crate::value::ascii("0123456789ABCDEF"@).contains(b),
{
    reveal_strlit("0123456789abcdef");
    reveal_strlit("0123456789ABCDEF");
    let lower = crate::value::ascii("0123456789abcdef"@);
    let upper = crate::value::ascii("0123456789ABCDEF"@);
    assert(lower =~= seq![0x30u8, 0x31, 0x32, 0x33, 0x34, 0x35, 0x36, 0x37, 0x38, 0x39, 0x61, 0x62, 0x63, 0x64, 0x65, 0x66]);
    assert(upper =~= seq![0x30u8, 0x31, 0x32, 0x33, 0x34, 0x35, 0x36, 0x37, 0x38, 0x39, 0x41, 0x42, 0x43, 0x44, 0x45, 0x46]);
    assert forall|b: u8| #[trigger] hex_value(b) is Some implies lower.contains(b) || upper.contains(b) by {
        if 0x30 <= b <= 0x39 {
            assert(lower[b - 0x30] == b);
        } else if 0x61 <= b <= 0x66 {
            assert(lower[b - 0x61 + 10] == b);
        } else {
            assert(upper[b - 0x41 + 10] == b);
        }
    }
}

/// What goes wrong when reading a hexadecimal number.
#[derive(Debug, Clone, Copy, PartialEq, Eq)]
pub enum HexFault {
    /// A byte that is neither a digit, `'`, nor whitespace.
    BadDigit(u8),
    /// More digits than the number may have: the value of the digits read
    /// before, and the digit that is one too many.
    TooLong(u64, u8),
}

/// `16^n`.
pub open spec fn pow16(n: nat) -> nat
    decreases n,
{
    if n == 0 { 1 } else { 16 * pow16((n - 1) as nat) }
}

pub proof fn lemma_pow16_mono(a: nat, b: nat)
    requires
        a <= b,
    ensures
        pow16(a) <= pow16(b),
    decreases b,
{
    if a < b {
        lemma_pow16_mono(a, (b - 1) as nat);
    }
}

/// Scanning hexadecimal digits from `i`: `'` separators are skipped, the
/// number ends at whitespace (consumed) or at the end of the input; a
/// non-digit or a digit beyond `max` digits is a fault. Gives the position
/// reached and the number, or the fault.
pub open spec fn hex_scan(input: Seq<u8>, i: int, count: nat, acc: nat, max: nat) -> (int, Result<nat, HexFault>)
    decreases input.len() - i,
{
    if i >= input.len() {
        (input.len() as int, Ok(acc))
    } else if is_ws(input[i]) {
        (i + 1, Ok(acc))
    } else if input[i] == 0x27 {
        hex_scan(input, i + 1, count, acc, max)
    } else {
        match hex_value(input[i]) {
            None => (i + 1, Err(HexFault::BadDigit(input[i]))),
            Some(d) => if count >= max {
                (i + 1, Err(HexFault::TooLong(acc as u64, input[i])))
            } else {
                hex_scan(input, i + 1, count + 1, (acc * 16 + d) as nat, max)
            },
        }
    }
}

pub proof fn lemma_hex_scan(input: Seq<u8>, i: int, count: nat, acc: nat, max: nat)
    requires
        0 <= i <= input.len(),
        count <= max,
        acc < pow16(count),
    ensures
        i <= hex_scan(input, i, count, acc, max).0 <= input.len(),
        hex_scan(input, i, count, acc, max).1 matches Ok(v) ==> v < pow16(max),
    decreases input.len() - i,
{
    if i < input.len() && !is_ws(input[i]) {
        if input[i] == 0x27 {
            lemma_hex_scan(input, i + 1, count, acc, max);
        } else if let Some(d) = hex_value(input[i]) {
            if count < max {
                assert(acc * 16 + d < pow16(count + 1)) by (nonlinear_arith)
                    requires acc < pow16(count), d < 16, pow16(count + 1) == 16 * pow16(count);
                lemma_hex_scan(input, i + 1, count + 1, (acc * 16 + d) as nat, max);
            }
        }
    } else {
        lemma_pow16_mono(count, max);
    }
}

/// The value of a hexadecimal digit.
pub fn hex_digit_value(b: u8) -> (res: Option<u8>)
    ensures
        res == hex_value(b),
{
    if 0x30 <= b && b <= 0x39 {
        Some(b - 0x30)
    } else if 0x61 <= b && b <= 0x66 {
        Some(b - 0x61 + 10)
    } else if 0x41 <= b && b <= 0x46 {
        Some(b - 0x41 + 10)
    } else {
        None
    }
}

/// Scans a hexadecimal number of at most `max_digit_count` digits from
/// `*at`; see [`hex_scan`].
pub fn scan_hex_digits(input: &[u8], at: &mut usize, max_digit_count: usize) -> (res: Result<u64, HexFault>)
    requires
        *old(at) <= input@.len(),
        max_digit_count <= 16,
    ensures
        *final(at) == hex_scan(input@, *old(at) as int, 0, 0, max_digit_count as nat).0,
        match hex_scan(input@, *old(at) as int, 0, 0, max_digit_count as nat).1 {
            Ok(v) => res == Ok::<u64, HexFault>(v as u64) && v < pow16(max_digit_count as nat),
            Err(f) => res == Err::<u64, HexFault>(f),
        },
{
    let ghost start = *at as int;
    let ghost max = max_digit_count as nat;
    let mut res: u64 = 0;
    let mut count: usize = 0;
    proof {
        lemma_hex_scan(input@, start, 0, 0, max);
        lemma_pow16_mono(max, 16);
        lemma_pow16_mono(0, max);
        assert(pow16(16) == 0x1_0000_0000_0000_0000) by {
            reveal_with_fuel(pow16, 17);
        }
    }
    while *at < input.len()
        invariant_except_break
            input@.len() == input.len(),
            start == *old(at) as int,
            max == max_digit_count as nat,
            max <= 16,
            pow16(max) <= 0x1_0000_0000_0000_0000,
            start <= *at <= input@.len(),
            count <= max_digit_count,
            res < pow16(count as nat),
            res < pow16(max),
            hex_scan(input@, *at as int, count as nat, res as nat, max) == hex_scan(input@, start, 0, 0, max),
        ensures
            start == *old(at) as int,
            *at == hex_scan(input@, start, 0, 0, max).0,
            hex_scan(input@, start, 0, 0, max).1 == Ok::<nat, HexFault>(res as nat),
            res < pow16(max),
        decreases input@.len() - *at,
    {
        let cur = input[*at];
        *at = *at + 1;
        if is_ascii_ws(cur) {
            proof {
                lemma_pow16_mono(count as nat, max);
            }
            break;
        }
        if cur == 0x27 {
            continue;
        }
        let digit = match hex_digit_value(cur) {
            Some(d) => d,
            None => {
                return Err(HexFault::BadDigit(cur));
            },
        };
        if count >= max_digit_count {
            return Err(HexFault::TooLong(res, cur));
        }
        proof {
            lemma_pow16_mono((count + 1) as nat, max);
            assert(res * 16 + digit < pow16((count + 1) as nat)) by (nonlinear_arith)
                requires res < pow16(count as nat), digit < 16, pow16((count + 1) as nat) == 16 * pow16(count as nat);
            assert((res << 4u64) | (digit as u64) == res * 16 + digit) by (bit_vector)
                requires res * 16 + digit < 0x1_0000_0000_0000_0000, digit < 16;
        }
        res = (res << 4) | (digit as u64);
        count = count + 1;
    }
    Ok(res)
}

/// The text of a byte as a character, as `byte as char` gives it.
pub open spec fn char_of(b: u8) -> Seq<char> {
    seq![b as char]
}

/// The error the assembler reports for a fault in a number of at most
/// `max` digits: a non-digit is a `SyntaxError` that quotes it; a digit
/// too many is an `InvalidType` that shows the value read so far in
/// upper-case hexadecimal, `'`, the extra digit, and the limit.
pub open spec fn asm_fault(f: HexFault, max: nat) -> Fault {
    match f {
        HexFault::BadDigit(b) => fixed_fault(ErrorCode::SyntaxError, "Invalid hex digit '"@ + char_of(b) + "'"@),
        HexFault::TooLong(v, b) => Fault {
            kind: ErrorCode::InvalidType,
            text: |t: Seq<char>| numbered(
                spec_upper_hex(v as nat) + "'"@ + char_of(b) + " overflow, maximum digit count "@, max as u64, t),
        },
    }
}

/// Reading a number of at most `max` digits after whitespace and comments:
/// the position reached, and the number or the error.
pub open spec fn spec_hex_number(input: Seq<u8>, at: int, max: nat) -> (int, Result<nat, Fault>) {
    let (end, r) = hex_scan(input, skip_end(input, at), 0, 0, max);
    (end, match r {
        Ok(v) => Ok(v),
        Err(f) => Err(asm_fault(f, max)),
    })
}

/// Builds the message of a fault in a number; see [`asm_fault`].
fn hex_fault_error(f: HexFault, max_digit_count: usize) -> (res: Error)
    requires
        max_digit_count <= 16,
    ensures
        is_fault(res, asm_fault(f, max_digit_count as nat)),
{
    match f {
        HexFault::BadDigit(b) => {
            let c = char_text(byte_char(b));
            let m = String::from_str("Invalid hex digit '").concat(c.as_str()).concat("'");
            proof {
                reveal_strlit("Invalid hex digit '");
                reveal_strlit("'");
                assert(m@ =~= "Invalid hex digit '"@ + char_of(b) + "'"@);
            }
            Error::SyntaxError(m)
        },
        HexFault::TooLong(v, b) => {
            let c = char_text(byte_char(b));
            let prefix = upper_hex_u64(v).concat("'").concat(c.as_str()).concat(" overflow, maximum digit count ");
            proof {
                reveal_strlit("'");
                reveal_strlit(" overflow, maximum digit count ");
                assert(prefix@ =~= spec_upper_hex(v as nat) + "'"@ + char_of(b) + " overflow, maximum digit count "@);
            }
            let m = message_with_number(prefix.as_str(), max_digit_count as u64);
            Error::InvalidType(m)
        },
    }
}

pub proof fn lemma_hex_number_bounds(input: Seq<u8>, at: int, max: nat)
    requires
        0 <= at <= input.len(),
    ensures
        at <= spec_hex_number(input, at, max).0 <= input.len(),
        spec_hex_number(input, at, max).1 matches Ok(v) ==> v < pow16(max),
{
    lemma_skip_end_bounds(input, at);
    lemma_hex_scan(input, skip_end(input, at), 0, 0, max);
}

/// Reads a hexadecimal number of at most `max_digit_count` digits after
/// whitespace and comments, counting what it consumes on the cursor; see
/// [`spec_hex_number`]. A non-digit is a `SyntaxError`, too many digits an
/// `InvalidType` (see [`asm_fault`]), both at the cursor after the
/// offending byte.
pub fn hex_to_uint(input: &[u8], at: &mut usize, max_digit_count: usize, cursor_pos: &mut CursorPos) -> (res: Result<u64, AsmError>)
    requires
        *old(at) <= input@.len(),
        max_digit_count <= 16,
        old(cursor_pos).wf(),
        room(*old(cursor_pos), input@.len() - *old(at)),
    ensures
        *final(at) == spec_hex_number(input@, *old(at) as int, max_digit_count as nat).0,
        *final(cursor_pos) == push_all(*old(cursor_pos), input@.subrange(*old(at) as int, *final(at) as int)),
        final(cursor_pos).wf(),
        match spec_hex_number(input@, *old(at) as int, max_digit_count as nat).1 {
            Ok(v) => res == Ok::<u64, AsmError>(v as u64) && v < pow16(max_digit_count as nat),
            Err(k) => res matches Err(e) && is_fault(e.error, k) && e.pos == *final(cursor_pos),
        },
{
    let ghost start = *at as int;
    let ghost c0 = *cursor_pos;
    let _ = skip_whitespace_and_comments(input, at, cursor_pos);
    let s = *at;
    proof {
        lemma_skip_end_bounds(input@, start);
        lemma_push_all(c0, input@.subrange(start, s as int), input@.len() - s);
        lemma_hex_scan(input@, s as int, 0, 0, max_digit_count as nat);
    }
    let scanned = scan_hex_digits(input, at, max_digit_count);
    let consumed = vstd::slice::slice_subrange(input, s, *at);
    proof {
        crate::parser::assembly::lemma_room_mono(*cursor_pos, consumed@.len() as int, input@.len() - s);
    }
    cursor_pos.push_bytes(consumed);
    proof {
        lemma_push_all_concat(c0, input@.subrange(start, s as int), consumed@);
        assert(input@.subrange(start, s as int) + consumed@ =~= input@.subrange(start, *at as int));
    }
    match scanned {
        Ok(v) => Ok(v),
        Err(f) => Err(AsmError::new(hex_fault_error(f, max_digit_count), cursor_pos)),
    }
}

/// Reads a two-digit hexadecimal `u8`; see [`hex_to_uint`].
pub fn hex_to_u8(input: &[u8], at: &mut usize, cursor_pos: &mut CursorPos) -> (res: Result<u8, AsmError>)
    requires
        *old(at) <= input@.len(),
        old(cursor_pos).wf(),
        room(*old(cursor_pos), input@.len() - *old(at)),
    ensures
        *final(at) == spec_hex_number(input@, *old(at) as int, 2).0,
        *final(cursor_pos) == push_all(*old(cursor_pos), input@.subrange(*old(at) as int, *final(at) as int)),
        final(cursor_pos).wf(),
        match spec_hex_number(input@, *old(at) as int, 2).1 {
            Ok(v) => res == Ok::<u8, AsmError>(v as u8) && v < 0x100,
            Err(k) => res matches Err(e) && is_fault(e.error, k) && e.pos == *final(cursor_pos),
        },
{
    proof { reveal_with_fuel(pow16, 3); }
    let v = hex_to_uint(input, at, 2, cursor_pos)?;
    Ok(v as u8)
}

/// Reads a four-digit hexadecimal `u16`; see [`hex_to_uint`].
pub fn hex_to_u16(input: &[u8], at: &mut usize, cursor_pos: &mut CursorPos) -> (res: Result<u16, AsmError>)
    requires
        *old(at) <= input@.len(),
        old(cursor_pos).wf(),
        room(*old(cursor_pos), input@.len() - *old(at)),
    ensures
        *final(at) == spec_hex_number(input@, *old(at) as int, 4).0,
        *final(cursor_pos) == push_all(*old(cursor_pos), input@.subrange(*old(at) as int, *final(at) as int)),
        final(cursor_pos).wf(),
        match spec_hex_number(input@, *old(at) as int, 4).1 {
            Ok(v) => res == Ok::<u16, AsmError>(v as u16) && v < 0x1_0000,
            Err(k) => res matches Err(e) && is_fault(e.error, k) && e.pos == *final(cursor_pos),
        },
{
    proof { reveal_with_fuel(pow16, 5); }
    let v = hex_to_uint(input, at, 4, cursor_pos)?;
    Ok(v as u16)
}

/// Reads an eight-digit hexadecimal `u32`; see [`hex_to_uint`].
pub fn hex_to_u32(input: &[u8], at: &mut usize, cursor_pos: &mut CursorPos) -> (res: Result<u32, AsmError>)
    requires
        *old(at) <= input@.len(),
        old(cursor_pos).wf(),
        room(*old(cursor_pos), input@.len() - *old(at)),
    ensures
        *final(at) == spec_hex_number(input@, *old(at) as int, 8).0,
        *final(cursor_pos) == push_all(*old(cursor_pos), input@.subrange(*old(at) as int, *final(at) as int)),
        final(cursor_pos).wf(),
        match spec_hex_number(input@, *old(at) as int, 8).1 {
            Ok(v) => res == Ok::<u32, AsmError>(v as u32) && v < 0x1_0000_0000,
            Err(k) => res matches Err(e) && is_fault(e.error, k) && e.pos == *final(cursor_pos),
        },
{
    proof { reveal_with_fuel(pow16, 9); }
    let v = hex_to_uint(input, at, 8, cursor_pos)?;
    Ok(v as u32)
}

/// Reads a sixteen-digit hexadecimal `u64`; see [`hex_to_uint`].
pub fn hex_to_u64(input: &[u8], at: &mut usize, cursor_pos: &mut CursorPos) -> (res: Result<u64, AsmError>)
    requires
        *old(at) <= input@.len(),
        old(cursor_pos).wf(),
        room(*old(cursor_pos), input@.len() - *old(at)),
    ensures
        *final(at) == spec_hex_number(input@, *old(at) as int, 16).0,
        *final(cursor_pos) == push_all(*old(cursor_pos), input@.subrange(*old(at) as int, *final(at) as int)),
        final(cursor_pos).wf(),
        match spec_hex_number(input@, *old(at) as int, 16).1 {
            Ok(v) => res == Ok::<u64, AsmError>(v as u64),
            Err(k) => res matches Err(e) && is_fault(e.error, k) && e.pos == *final(cursor_pos),
        },
{
    hex_to_uint(input, at, 16, cursor_pos)
}

/// The value of a hexadecimal digit character; anything else is a
/// `SyntaxError` that quotes it.
pub fn hex_char_to_byte(c: u8) -> (res: Result<u8, Error>)
    ensures
        match hex_value(c) {
            Some(v) => res == Ok::<u8, Error>(v),
            None => res matches Err(e) && is_fault(e, bad_hex_char(c)),
        },
{
    match hex_digit_value(c) {
        Some(v) => Ok(v),
        None => {
            let t = char_text(byte_char(c));
            let m = String::from_str("Invalid hex character: '").concat(t.as_str()).concat("'");
            proof {
                reveal_strlit("Invalid hex character: '");
                reveal_strlit("'");
                assert(m@ =~= "Invalid hex character: '"@ + char_of(c) + "'"@);
            }
            Err(Error::SyntaxError(m))
        },
    }
}

/// The error for a byte that is no hexadecimal digit, in hex text.
pub open spec fn bad_hex_char(c: u8) -> Fault {
    fixed_fault(ErrorCode::SyntaxError, "Invalid hex character: '"@ + char_of(c) + "'"@)
}

/// Decoding hex text from `at`: pairs of digits, each pair after optional
/// whitespace, become one byte each. Gives the position reached, the bytes
/// decoded, and whether it ended well: a pair cut off by the end of the
/// input is an `EOFError`, whitespace inside a pair or a non-digit a
/// `SyntaxError` (the first non-digit of the pair is quoted).
pub open spec fn spec_compile_hex(input: Seq<u8>, at: int) -> (int, Seq<u8>, Result<(), Fault>)
    decreases input.len() - at,
{
    let f = ws_end(input, at);
    if !(0 <= at <= f <= input.len()) || f >= input.len() {
        (input.len() as int, Seq::empty(), Ok(()))
    } else if f + 1 >= input.len() {
        (input.len() as int, Seq::empty(), Err(fixed_fault(ErrorCode::EOFError, "Unexpected EOF: missing second hex digit"@)))
    } else if is_ws(input[f + 1]) {
        (f + 2, Seq::empty(), Err(fixed_fault(ErrorCode::SyntaxError, "Unexpected whitespace in hex pair"@)))
    } else {
        match (hex_value(input[f]), hex_value(input[f + 1])) {
            (Some(h), Some(l)) => {
                let (end, out, r) = spec_compile_hex(input, f + 2);
                (end, seq![(h * 16 + l) as u8] + out, r)
            },
            (None, _) => (f + 2, Seq::empty(), Err(bad_hex_char(input[f]))),
            (_, None) => (f + 2, Seq::empty(), Err(bad_hex_char(input[f + 1]))),
        }
    }
}

/// Decodes hex text into bytes appended to `output`; see
/// [`spec_compile_hex`]. On an error the bytes decoded before it stay
/// appended.
pub fn compile_hex(input: &[u8], at: &mut usize, output: &mut Vec<u8>) -> (res: Result<(), Error>)
    requires
        *old(at) <= input@.len(),
    ensures
        *final(at) == spec_compile_hex(input@, *old(at) as int).0,
        final(output)@ == old(output)@ + spec_compile_hex(input@, *old(at) as int).1,
        match spec_compile_hex(input@, *old(at) as int).2 {
            Ok(()) => res is Ok,
            Err(k) => res matches Err(e) && is_fault(e, k),
        },
{
    let ghost start = *at as int;
    while true
        invariant
            input@.len() == input.len(),
            start == *old(at) as int,
            start <= *at <= input@.len(),
            spec_compile_hex(input@, start).0 == spec_compile_hex(input@, *at as int).0,
            spec_compile_hex(input@, start).2 == spec_compile_hex(input@, *at as int).2,
            old(output)@ + spec_compile_hex(input@, start).1 == output@ + spec_compile_hex(input@, *at as int).1,
        decreases input@.len() - *at,
    {
        proof {
            lemma_ws_end_bounds(input@, *at as int);
        }
        let ghost before = *at as int;
        let first = match read_non_whitespace_byte(input, at) {
            Some(b) => b,
            None => {
                return Ok(());
            },
        };
        if *at >= input.len() {
            return Err(Error::EOFError(String::from_str("Unexpected EOF: missing second hex digit")));
        }
        let second = input[*at];
        *at = *at + 1;
        if is_ascii_ws(second) {
            return Err(Error::SyntaxError(String::from_str("Unexpected whitespace in hex pair")));
        }
        let high = hex_char_to_byte(first)?;
        let low = hex_char_to_byte(second)?;
        proof {
            assert((high << 4u8) | low == high * 16 + low) by (bit_vector)
                requires high < 16, low < 16;
            assert(old(output)@ + spec_compile_hex(input@, start).1
                =~= output@.push((high * 16 + low) as u8) + spec_compile_hex(input@, *at as int).1);
        }
        output.push((high << 4) | low);
    }
    Ok(())
}

} // verus!
