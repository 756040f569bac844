//! The assembler: from assembly text to the bytecode of functions
//! registered in an environment.
use vstd::prelude::*;
use vstd::slice::SliceAdditionalExecFns;
use crate::env::{Env, FuncInfo, FuncPtr};
use crate::tables::{labels_listed, label_table_entries, label_table_with_capacity, label_table_clear, label_table_insert,
    label_table_get, label_table_positions, func_table_entries};
use crate::value::Var;
use dashmap::DashMap;
use crate::exceptions::{Error, ErrorCode, Fault, fixed_fault, is_fault};
use crate::text::{numbered_then, message_with_number_then, char_text, byte_char};
use vstd::string::*;
use crate::parser::utils::{is_ws, is_ascii_ws, skip_end, skip_whitespace_and_comments, lemma_skip_end_bounds};
use crate::value::{ValueType, bytes_eq, spec_basic_type_code, spec_basic_type_of_name, var_type_asm_to_code, var_type_asm_to_type,
    type_name_fault, lossy_text_of, lossy_text};
use crate::parser::cmd::cmd_u8;
use crate::parser::hex::{hex_to_u8, hex_to_u16, hex_to_u32, hex_to_u64, spec_hex_number, lemma_hex_number_bounds, pow16,
    hex_scan, scan_hex_digits, char_of, hex_value, lemma_hex_scan};

verus! {

/// How far a byte sequence gets as UTF-8: a whole character, the valid
/// beginning of one, or an invalid sequence.
pub enum Utf8Status {
    Complete,
    Incomplete,
    Invalid,
}

/// Whether a byte continues a multi-byte UTF-8 character.
pub open spec fn is_continuation(b: u8) -> bool {
    0x80 <= b <= 0xBF
}

/// The length of the UTF-8 character a byte begins, or 0 when it begins
/// none.
pub open spec fn utf8_width(b: u8) -> nat {
    if b < 0x80 { 1 }
    else if 0xC2 <= b <= 0xDF { 2 }
    else if 0xE0 <= b <= 0xEF { 3 }
    else if 0xF0 <= b <= 0xF4 { 4 }
    else { 0 }
}

/// Whether `b1` may follow the first byte `b0` of a character.
pub open spec fn utf8_second_ok(b0: u8, b1: u8) -> bool {
    if b0 == 0xE0 { 0xA0 <= b1 <= 0xBF }
    else if b0 == 0xED { 0x80 <= b1 <= 0x9F }
    else if b0 == 0xF0 { 0x90 <= b1 <= 0xBF }
    else if b0 == 0xF4 { 0x80 <= b1 <= 0x8F }
    else { is_continuation(b1) }
}

/// Whether a non-empty byte sequence is the beginning (or the whole) of one
/// well-formed UTF-8 character.
pub open spec fn utf8_valid_prefix(s: Seq<u8>) -> bool {
    &&& s.len() >= 1
    &&& utf8_width(s[0]) > 0
    &&& s.len() <= utf8_width(s[0])
    &&& (s.len() >= 2 ==> utf8_second_ok(s[0], s[1]))
    &&& (s.len() >= 3 ==> is_continuation(s[2]))
    &&& (s.len() >= 4 ==> is_continuation(s[3]))
}

/// How far a non-empty byte sequence gets as one UTF-8 character.
pub open spec fn utf8_status(s: Seq<u8>) -> Utf8Status {
    if !utf8_valid_prefix(s) {
        Utf8Status::Invalid
    } else if s.len() == utf8_width(s[0]) {
        Utf8Status::Complete
    } else {
        Utf8Status::Incomplete
    }
}

/// A position in assembly text: line and column of the next character
/// (both from 1), the bytes of a multi-byte character read so far, the
/// function being assembled, and whether reads are currently not counted.
#[derive(Copy, Clone, Debug, PartialEq, Eq)]
pub struct CursorPos {
    pub line: u32,
    pub column: u32,
    buffer: [u8; 4],
    buf_len: u32,
    pub func: Option<FuncPtr>,
    is_static: bool,
}

impl CursorPos {
    /// The bytes of the character begun but not finished.
    pub closed spec fn pending(self) -> Seq<u8> {
        self.buffer@.subrange(0, self.buf_len as int)
    }

    /// The raw buffer of the pending character.
    pub closed spec fn buffer(self) -> Seq<u8> {
        self.buffer@
    }

    /// The line number.
    pub closed spec fn spec_line(self) -> u32 {
        self.line
    }

    /// The column number.
    pub closed spec fn spec_column(self) -> u32 {
        self.column
    }

    /// The function being assembled.
    pub closed spec fn spec_func(self) -> Option<FuncPtr> {
        self.func
    }

    /// Whether reads are currently not counted.
    pub closed spec fn spec_is_static(self) -> bool {
        self.is_static
    }

    /// The cursor's invariant: what is pending is the valid beginning of a
    /// character, so it is at most three bytes long.
    pub closed spec fn wf(self) -> bool {
        &&& self.buf_len <= 3
        &&& self.buf_len > 0 ==> utf8_status(self.pending()) == Utf8Status::Incomplete
    }

    /// The cursor after counting one byte: a newline moves to the start of
    /// the next line, a carriage return is ignored, any other whole character
    /// moves one column, an invalid sequence is dropped, and the beginning of
    /// a multi-byte character is kept until it is whole. A static cursor does
    /// not move.
    pub closed spec fn spec_push_u8(self, byte: u8) -> CursorPos {
        if self.is_static {
            self
        } else if self.buf_len == 0 && byte < 0x80 {
            if byte == 0x0A {
                CursorPos { line: (self.line + 1) as u32, column: 1, ..self }
            } else if byte == 0x0D {
                self
            } else {
                CursorPos { column: (self.column + 1) as u32, ..self }
            }
        } else {
            let pending = self.pending().push(byte);
            match utf8_status(pending) {
                Utf8Status::Complete => CursorPos {
                    column: (self.column + 1) as u32,
                    buffer: vstd::array::spec_array_update(self.buffer, self.buf_len as int, byte),
                    buf_len: 0,
                    ..self
                },
                Utf8Status::Invalid => CursorPos { buffer: vstd::array::spec_array_update(self.buffer, self.buf_len as int, byte), buf_len: 0, ..self },
                Utf8Status::Incomplete => CursorPos {
                    buffer: vstd::array::spec_array_update(self.buffer, self.buf_len as int, byte),
                    buf_len: (self.buf_len + 1) as u32,
                    ..self
                },
            }
        }
    }
}

/// Whether `n` more bytes can be counted without the line or column number
/// overflowing.
pub closed spec fn room(c: CursorPos, n: int) -> bool {
    c.line + n <= u32::MAX && c.column + n <= u32::MAX
}

/// What [`room`] asks: that the line and the column can each grow by `n`.
pub proof fn lemma_room(c: CursorPos, n: int)
    ensures
        room(c, n) <==> c.spec_line() + n <= u32::MAX && c.spec_column() + n <= u32::MAX,
{
}

/// Where counting one byte leaves the cursor, with nothing pending: a
/// newline moves to column 1 of the next line, a carriage return changes
/// nothing, any other ASCII byte moves one column; a static cursor does not
/// move. The function and the mode are kept, and after an ASCII byte
/// nothing is pending.
pub proof fn lemma_push_u8_place(c: CursorPos, byte: u8)
    requires
        c.wf(),
        room(c, 1),
    ensures
        c.spec_push_u8(byte).spec_func() == c.spec_func(),
        c.spec_push_u8(byte).spec_is_static() == c.spec_is_static(),
        c.spec_is_static() ==> c.spec_push_u8(byte) == c,
        !c.spec_is_static() && c.pending().len() == 0 && byte == 0x0A ==> c.spec_push_u8(byte).spec_line() == c.spec_line() + 1
            && c.spec_push_u8(byte).spec_column() == 1 && c.spec_push_u8(byte).pending().len() == 0,
        !c.spec_is_static() && c.pending().len() == 0 && byte == 0x0D ==> c.spec_push_u8(byte) == c,
        !c.spec_is_static() && c.pending().len() == 0 && byte < 0x80 && byte != 0x0A && byte != 0x0D
            ==> c.spec_push_u8(byte).spec_line() == c.spec_line()
            && c.spec_push_u8(byte).spec_column() == c.spec_column() + 1
            && c.spec_push_u8(byte).pending().len() == 0,
{
    let p = c.spec_push_u8(byte);
    if !c.is_static && c.buf_len == 0 && byte < 0x80 {
        assert(p.pending() =~= c.pending());
    } else if !c.is_static && c.buf_len != 0 {
        assert(c.pending().len() == c.buf_len);
    }
}

/// Where counting one byte leaves a counting cursor when the byte belongs
/// to a multi-byte character (something is pending, or the byte is not
/// ASCII): the line stays; when the pending bytes and this one make a whole
/// character the column moves by one and nothing is pending; when they can
/// begin no character they are dropped and the column stays; otherwise the
/// byte is kept pending and the column stays.
pub proof fn lemma_push_u8_char(c: CursorPos, byte: u8)
    requires
        c.wf(),
        room(c, 1),
        !c.spec_is_static(),
        !(c.pending().len() == 0 && byte < 0x80),
    ensures
        c.spec_push_u8(byte).spec_line() == c.spec_line(),
        c.spec_push_u8(byte).spec_func() == c.spec_func(),
        !c.spec_push_u8(byte).spec_is_static(),
        utf8_status(c.pending().push(byte)) == Utf8Status::Complete ==> c.spec_push_u8(byte).spec_column() == c.spec_column() + 1
            && c.spec_push_u8(byte).pending().len() == 0,
        utf8_status(c.pending().push(byte)) == Utf8Status::Invalid ==> c.spec_push_u8(byte).spec_column() == c.spec_column()
            && c.spec_push_u8(byte).pending().len() == 0,
        utf8_status(c.pending().push(byte)) == Utf8Status::Incomplete ==> c.spec_push_u8(byte).spec_column() == c.spec_column()
            && c.spec_push_u8(byte).pending() == c.pending().push(byte),
{
    let p = c.spec_push_u8(byte);
    assert(c.pending().len() == c.buf_len);
    if utf8_status(c.pending().push(byte)) == Utf8Status::Incomplete {
        assert(p.pending() =~= c.pending().push(byte));
    }
}

/// The cursor after counting each byte of `bytes` in order.
pub open spec fn push_all(c: CursorPos, bytes: Seq<u8>) -> CursorPos
    decreases bytes.len(),
{
    if bytes.len() == 0 {
        c
    } else {
        push_all(c, bytes.drop_last()).spec_push_u8(bytes.last())
    }
}

/// How far the first `len` bytes of a buffer get as one UTF-8 character.
fn utf8_classify(buffer: &[u8; 4], len: u32) -> (res: Utf8Status)
    requires
        1 <= len <= 4,
    ensures
        res == utf8_status(buffer@.subrange(0, len as int)),
{
    let ghost s = buffer@.subrange(0, len as int);
    let b0 = buffer[0];
    let width: u32 = if b0 < 0x80 {
        1
    } else if 0xC2 <= b0 && b0 <= 0xDF {
        2
    } else if 0xE0 <= b0 && b0 <= 0xEF {
        3
    } else if 0xF0 <= b0 && b0 <= 0xF4 {
        4
    } else {
        0
    };
    assert(width == utf8_width(s[0]));
    if width == 0 || len > width {
        return Utf8Status::Invalid;
    }
    if len >= 2 {
        let b1 = buffer[1];
        let second_ok = if b0 == 0xE0 {
            0xA0 <= b1 && b1 <= 0xBF
        } else if b0 == 0xED {
            0x80 <= b1 && b1 <= 0x9F
        } else if b0 == 0xF0 {
            0x90 <= b1 && b1 <= 0xBF
        } else if b0 == 0xF4 {
            0x80 <= b1 && b1 <= 0x8F
        } else {
            0x80 <= b1 && b1 <= 0xBF
        };
        assert(second_ok == utf8_second_ok(s[0], s[1]));
        if !second_ok {
            return Utf8Status::Invalid;
        }
    }
    if len >= 3 {
        let b2 = buffer[2];
        if !(0x80 <= b2 && b2 <= 0xBF) {
            return Utf8Status::Invalid;
        }
    }
    if len >= 4 {
        let b3 = buffer[3];
        if !(0x80 <= b3 && b3 <= 0xBF) {
            return Utf8Status::Invalid;
        }
    }
    if len == width {
        Utf8Status::Complete
    } else {
        Utf8Status::Incomplete
    }
}

impl CursorPos {
    /// A cursor at line 1, column 1, outside any function.
    pub fn new() -> (res: Self)
        ensures
            res.spec_line() == 1,
            res.spec_column() == 1,
            res.spec_func() is None,
            !res.spec_is_static(),
            res.pending() == Seq::<u8>::empty(),
            res.buffer() == seq![0u8, 0u8, 0u8, 0u8],
            res.wf(),
    {
        let res = Self { line: 1, column: 1, buffer: [0u8; 4], buf_len: 0, func: None, is_static: false };
        assert(res.buffer@ =~= seq![0u8, 0u8, 0u8, 0u8]);
        res
    }

    /// A cursor at the given place.
    pub fn with_pos(line: u32, column: u32, func: Option<FuncPtr>) -> (res: Self)
        ensures
            res.spec_line() == line,
            res.spec_column() == column,
            res.spec_func() == func,
            !res.spec_is_static(),
            res.pending() == Seq::<u8>::empty(),
            res.buffer() == seq![0u8, 0u8, 0u8, 0u8],
            res.wf(),
    {
        let res = Self { line, column, buffer: [0u8; 4], buf_len: 0, func, is_static: false };
        assert(res.buffer@ =~= seq![0u8, 0u8, 0u8, 0u8]);
        res
    }

    /// Counts one byte; see [`CursorPos::spec_push_u8`].
    pub fn push_u8(&mut self, byte: u8)
        requires
            old(self).wf(),
            room(*old(self), 1),
        ensures
            *final(self) == old(self).spec_push_u8(byte),
            final(self).wf(),
    {
        if self.is_static {
            return;
        }
        if self.buf_len == 0 && byte < 0x80 {
            if byte == 0x0A {
                self.line = self.line + 1;
                self.column = 1;
            } else if byte == 0x0D {
            } else {
                self.column = self.column + 1;
            }
            return;
        }
        broadcast use vstd::array::group_array_axioms;
        let ghost old_pending = self.pending();
        let ghost old_buffer = self.buffer;
        let idx = self.buf_len as usize;
        self.buffer.set(idx, byte);
        self.buf_len = self.buf_len + 1;
        proof {
            assert(self.pending() =~= old_pending.push(byte));
            assert(self.buffer =~= vstd::array::spec_array_update(old_buffer, idx as int, byte));
        }
        match utf8_classify(&self.buffer, self.buf_len) {
            Utf8Status::Complete => {
                self.column = self.column + 1;
                self.buf_len = 0;
            },
            Utf8Status::Invalid => {
                self.buf_len = 0;
            },
            Utf8Status::Incomplete => {},
        }
    }

    /// Counts each byte of `bytes` in order.
    pub fn push_bytes(&mut self, bytes: &[u8])
        requires
            old(self).wf(),
            room(*old(self), bytes@.len() as int),
        ensures
            *final(self) == push_all(*old(self), bytes@),
            final(self).wf(),
    {
        let mut i: usize = 0;
        while i < bytes.len()
            invariant
                i <= bytes@.len(),
                *self == push_all(*old(self), bytes@.subrange(0, i as int)),
                self.wf(),
                room(*self, bytes@.len() - i),
            decreases bytes@.len() - i,
        {
            proof {
                lemma_push_one(*self, bytes@[i as int], bytes@.len() - i - 1);
                assert(bytes@.subrange(0, i + 1).drop_last() =~= bytes@.subrange(0, i as int));
            }
            self.push_u8(bytes[i]);
            i = i + 1;
        }
        assert(bytes@.subrange(0, bytes@.len() as int) =~= bytes@);
    }

    /// Moves to the given line and column and drops any pending bytes.
    pub fn reset(&mut self, line: u32, column: u32)
        ensures
            final(self).spec_line() == line,
            final(self).spec_column() == column,
            final(self).pending() == Seq::<u8>::empty(),
            final(self).buffer() == old(self).buffer(),
            final(self).spec_func() == old(self).spec_func(),
            final(self).spec_is_static() == old(self).spec_is_static(),
            final(self).wf(),
    {
        self.line = line;
        self.column = column;
        self.buf_len = 0;
    }

    /// Turns counting of reads off (`true`) or back on (`false`); asking for
    /// the mode already in force is refused with `Duplicated`.
    pub fn set_static(&mut self, is_static: bool) -> (res: Result<(), AsmError>)
        ensures
            old(self).spec_is_static() == is_static ==> *final(self) == *old(self)
                && (res matches Err(e) && e.error matches Error::Duplicated(m) && m@ == Seq::<char>::empty() && e.pos == *old(self)),
            old(self).spec_is_static() != is_static ==> res is Ok
                && *final(self) == old(self).with_static(is_static),
    {
        if self.is_static == is_static {
            let m = String::from_str("");
            proof { reveal_strlit(""); }
            return Err(AsmError::new(Error::Duplicated(m), self));
        }
        self.is_static = is_static;
        Ok(())
    }

    /// Reads exactly `buf.len()` bytes of `input` from `*at` into `buf` and
    /// counts them. With fewer bytes left, the rest of the input is consumed,
    /// `buf` and the cursor are left as they were, and the result is an
    /// `EOFError` at the cursor.
    pub fn read_exact(&mut self, input: &[u8], at: &mut usize, buf: &mut [u8]) -> (res: Result<(), AsmError>)
        requires
            *old(at) <= input@.len(),
            old(self).wf(),
            room(*old(self), old(buf)@.len() as int),
        ensures
            final(buf)@.len() == old(buf)@.len(),
            final(self).wf(),
            *old(at) + old(buf)@.len() <= input@.len() ==> res is Ok
                && *final(at) == *old(at) + old(buf)@.len()
                && final(buf)@ == input@.subrange(*old(at) as int, *final(at) as int)
                && *final(self) == push_all(*old(self), final(buf)@),
            *old(at) + old(buf)@.len() > input@.len() ==> (res matches Err(e) && e.error matches Error::EOFError(m) && m@ == "failed to fill whole buffer"@ && e.pos == *old(self))
                && *final(at) == input@.len()
                && final(buf)@ == old(buf)@
                && *final(self) == *old(self),
    {
        let n = buf.len();
        if input.len() - *at < n {
            *at = input.len();
            return Err(AsmError::new(Error::EOFError(String::from_str("failed to fill whole buffer")), self));
        }
        let start = *at;
        let mut i: usize = 0;
        while i < n
            invariant
                n == buf@.len(),
                start + n <= input@.len(),
                input@.len() == input.len(),
                i <= n,
                forall|j: int| 0 <= j < i ==> buf@[j] == input@[start + j],
            decreases n - i,
        {
            buf.set(i, input[start + i]);
            i = i + 1;
        }
        *at = start + n;
        proof {
            assert(buf@ =~= input@.subrange(start as int, (start + n) as int));
        }
        if self.is_static {
            proof {
                lemma_push_all_static(*old(self), buf@);
            }
            return Ok(());
        }
        self.push_bytes(buf);
        Ok(())
    }

    /// Appends the bytes of `input` from `*at` up to and including the first
    /// `byte` (or to the end) to `buf`, and returns how many there were. The
    /// cursor then counts all of `buf`, including what it held before.
    pub fn read_until(&mut self, input: &[u8], at: &mut usize, byte: u8, buf: &mut Vec<u8>) -> (res: Result<usize, AsmError>)
        requires
            *old(at) <= input@.len(),
            old(self).wf(),
            room(*old(self), old(buf)@.len() + input@.len() - *old(at)),
        ensures
            *final(at) == until_end(input@, *old(at) as int, byte),
            final(buf)@ == old(buf)@ + input@.subrange(*old(at) as int, *final(at) as int),
            res == Ok::<usize, AsmError>((*final(at) - *old(at)) as usize),
            *final(self) == push_all(*old(self), final(buf)@),
            final(self).wf(),
    {
        let start = *at;
        while *at < input.len()
            invariant_except_break
                start <= *at <= input@.len(),
                until_end(input@, *at as int, byte) == until_end(input@, start as int, byte),
                buf@ == old(buf)@ + input@.subrange(start as int, *at as int),
            ensures
                start <= *at <= input@.len(),
                *at == until_end(input@, start as int, byte),
                buf@ == old(buf)@ + input@.subrange(start as int, *at as int),
            decreases input@.len() - *at,
        {
            let b = input[*at];
            buf.push(b);
            *at = *at + 1;
            proof {
                assert(old(buf)@ + input@.subrange(start as int, *at as int)
                    =~= (old(buf)@ + input@.subrange(start as int, *at - 1)).push(b));
            }
            if b == byte {
                break;
            }
        }
        let len = *at - start;
        if self.is_static {
            proof {
                lemma_push_all_static(*old(self), buf@);
            }
            return Ok(len);
        }
        self.push_bytes(buf.as_slice());
        Ok(len)
    }

    /// The same cursor with counting turned off or on.
    pub closed spec fn with_static(self, is_static: bool) -> CursorPos {
        CursorPos { is_static, ..self }
    }
}

/// A cursor put in static mode for as long as the guard lives: bytes
/// pushed on it do not move it. [`StaticCursorPos::release`] takes it out
/// of static mode again; the guard has no destructor that would do so.
pub struct StaticCursorPos<'a> {
    pub cursor_pos: &'a mut CursorPos,
}

impl<'a> StaticCursorPos<'a> {
    /// Puts a cursor that is not static into static mode.
    pub fn new(cursor_pos: &'a mut CursorPos) -> (res: Self)
        requires
            !old(cursor_pos).spec_is_static(),
        ensures
            *res.cursor_pos == old(cursor_pos).with_static(true),
            *final(cursor_pos) == *final(res.cursor_pos),
    {
        cursor_pos.is_static = true;
        StaticCursorPos { cursor_pos }
    }

    /// Takes the cursor out of static mode.
    pub fn release(self)
        requires
            old(self.cursor_pos).spec_is_static(),
        ensures
            *final(self.cursor_pos) == old(self.cursor_pos).with_static(false),
    {
        self.cursor_pos.is_static = false;
    }
}

/// Turning counting off or on keeps the place, the function, what is
/// pending and the invariant, and only sets the mode; setting the mode back
/// gives the cursor that was there before.
pub proof fn lemma_with_static(c: CursorPos, is_static: bool)
    ensures
        c.with_static(is_static).spec_is_static() == is_static,
        c.with_static(is_static).spec_line() == c.spec_line(),
        c.with_static(is_static).spec_column() == c.spec_column(),
        c.with_static(is_static).spec_func() == c.spec_func(),
        c.with_static(is_static).pending() == c.pending(),
        c.with_static(is_static).buffer() == c.buffer(),
        c.with_static(is_static).wf() == c.wf(),
        room(c.with_static(is_static), 1) == room(c, 1),
        c.with_static(is_static).with_static(c.spec_is_static()) == c,
{
}

/// What a [`StaticCursorPos`] guard promises: whatever bytes are counted
/// while it holds a cursor that was not static, releasing it gives back the
/// cursor exactly as it was.
pub proof fn lemma_static_guard_round_trip(c: CursorPos, bytes: Seq<u8>)
    requires
        !c.spec_is_static(),
    ensures
        push_all(c.with_static(true), bytes) == c.with_static(true),
        push_all(c.with_static(true), bytes).with_static(false) == c,
{
    lemma_push_all_static(c.with_static(true), bytes);
}

/// The position just past the first `byte` at or after `from`, or the end.
pub open spec fn until_end(input: Seq<u8>, from: int, byte: u8) -> int
    decreases input.len() - from,
{
    if from >= input.len() {
        input.len() as int
    } else if input[from] == byte {
        from + 1
    } else {
        until_end(input, from + 1, byte)
    }
}

/// Room for more bytes is room for fewer.
pub proof fn lemma_room_mono(c: CursorPos, a: int, b: int)
    requires
        a <= b,
        room(c, b),
    ensures
        room(c, a),
{
}

/// Counting one more byte of a range extends the count by that byte.
pub proof fn lemma_push_all_extend(c: CursorPos, s: Seq<u8>, a: int, b: int)
    requires
        0 <= a <= b < s.len(),
    ensures
        push_all(c, s.subrange(a, b + 1)) == push_all(c, s.subrange(a, b)).spec_push_u8(s[b]),
{
    assert(s.subrange(a, b + 1).drop_last() =~= s.subrange(a, b));
}

/// A static cursor counts nothing.
pub proof fn lemma_push_all_static(c: CursorPos, bytes: Seq<u8>)
    requires
        c.spec_is_static(),
    ensures
        push_all(c, bytes) == c,
    decreases bytes.len(),
{
    if bytes.len() > 0 {
        lemma_push_all_static(c, bytes.drop_last());
    }
}

/// Counting bytes keeps the cursor's invariant, uses up room for as many
/// bytes, and keeps its function and counting mode.
pub proof fn lemma_push_all(c: CursorPos, bytes: Seq<u8>, n: int)
    requires
        c.wf(),
        n >= 0,
        room(c, bytes.len() + n),
    ensures
        push_all(c, bytes).wf(),
        room(push_all(c, bytes), n),
        push_all(c, bytes).spec_func() == c.spec_func(),
        push_all(c, bytes).spec_is_static() == c.spec_is_static(),
    decreases bytes.len(),
{
    if bytes.len() > 0 {
        lemma_push_all(c, bytes.drop_last(), n + 1);
        lemma_push_one(push_all(c, bytes.drop_last()), bytes.last(), n);
    }
}

/// Counting one byte keeps the invariant and uses up room for one byte.
pub proof fn lemma_push_one(c: CursorPos, b: u8, n: int)
    requires
        c.wf(),
        n >= 0,
        room(c, n + 1),
    ensures
        c.spec_push_u8(b).wf(),
        room(c.spec_push_u8(b), n),
        c.spec_push_u8(b).spec_func() == c.spec_func(),
        c.spec_push_u8(b).spec_is_static() == c.spec_is_static(),
{
    broadcast use vstd::array::group_array_axioms;
    if !c.is_static && !(c.buf_len == 0 && b < 0x80) {
        let d = c.spec_push_u8(b);
        let pending = c.pending().push(b);
        assert(vstd::array::spec_array_update(c.buffer, c.buf_len as int, b)@ == c.buffer@.update(c.buf_len as int, b));
        if utf8_status(pending) == Utf8Status::Incomplete {
            assert(d.pending() =~= pending);
            assert(c.buf_len < 3) by {
                if c.buf_len == 3 {
                    assert(pending.len() == 4);
                }
            }
        }
    }
}

/// Counting the bytes of `a` and then those of `b` is counting `a + b`.
pub proof fn lemma_push_all_concat(c: CursorPos, a: Seq<u8>, b: Seq<u8>)
    ensures
        push_all(push_all(c, a), b) == push_all(c, a + b),
    decreases b.len(),
{
    if b.len() == 0 {
        assert(a + b =~= a);
    } else {
        lemma_push_all_concat(c, a, b.drop_last());
        assert((a + b).drop_last() =~= a + b.drop_last());
        assert((a + b).last() == b.last());
    }
}

/// An error of the assembler: what went wrong and where.
#[derive(Clone, Debug, PartialEq, Eq)]
pub struct AsmError {
    pub error: Error,
    pub pos: CursorPos,
}

impl AsmError {
    pub fn new(error: Error, pos: &CursorPos) -> (res: Self)
        ensures
            res.error == error,
            res.pos == *pos,
    {
        Self { error, pos: *pos }
    }
}

/// Whether `e` is the fault `f` reported at `cursor`.
pub open spec fn fault_at(e: AsmError, f: Fault, cursor: CursorPos) -> bool {
    is_fault(e.error, f) && e.pos == cursor
}

/// Attaches a position to the error of a result.
pub fn ok_or_err<T>(result: Result<T, Error>, pos: &CursorPos) -> (res: Result<T, AsmError>)
    ensures
        match result {
            Ok(v) => res == Ok::<T, AsmError>(v),
            Err(e) => res == Err::<T, AsmError>(AsmError { error: e, pos: *pos }),
        },
{
    match result {
        Ok(res) => Ok(res),
        Err(error) => Err(AsmError { error, pos: *pos }),
    }
}

/// The place in the output: the number of the next byte to be written,
/// counting the first byte as 1.
#[derive(Copy, Clone, Debug, PartialEq, Eq)]
pub struct OutputCursorPos {
    pub pos: u64,
}

impl OutputCursorPos {
    /// The place of the first byte, numbered 1.
    pub fn new() -> (res: Self)
        ensures
            res.pos == 1,
    {
        Self { pos: 1 }
    }

    pub fn with_pos(pos: u64) -> (res: Self)
        ensures
            res.pos == pos,
    {
        Self { pos }
    }

    /// Counts the bytes of `bytes` as written.
    pub fn push_bytes(&mut self, bytes: &[u8])
        requires
            old(self).pos + bytes@.len() <= u64::MAX,
        ensures
            final(self).pos == old(self).pos + bytes@.len(),
    {
        self.pos = self.pos + bytes.len() as u64;
    }

    /// Counts one byte as written.
    pub fn push_u8(&mut self, byte: u8)
        requires
            old(self).pos < u64::MAX,
        ensures
            final(self).pos == old(self).pos + 1,
    {
        self.pos = self.pos + 1;
    }

    /// Appends `buf` to `writer` and counts it.
    pub fn write_all(&mut self, writer: &mut Vec<u8>, buf: &[u8], cursor_pos: &CursorPos) -> (res: Result<(), AsmError>)
        requires
            old(self).pos + buf@.len() <= u64::MAX,
        ensures
            res is Ok,
            final(writer)@ == old(writer)@ + buf@,
            final(self).pos == old(self).pos + buf@.len(),
    {
        append_bytes(writer, buf);
        self.pos = self.pos + buf.len() as u64;
        Ok(())
    }
}

/// Appends `bytes` to `out`.
pub(crate) fn append_bytes(out: &mut Vec<u8>, bytes: &[u8])
    ensures
        final(out)@ == old(out)@ + bytes@,
{
    let mut i: usize = 0;
    while i < bytes.len()
        invariant
            i <= bytes@.len(),
            out@ == old(out)@ + bytes@.subrange(0, i as int),
        decreases bytes@.len() - i,
    {
        out.push(bytes[i]);
        i = i + 1;
        proof {
            assert(old(out)@ + bytes@.subrange(0, i as int) =~= (old(out)@ + bytes@.subrange(0, i - 1)).push(bytes@[i - 1]));
        }
    }
    assert(bytes@.subrange(0, bytes@.len() as int) =~= bytes@);
}

/// The end of a token: the first whitespace byte at or after `i`, or the
/// end of the input.
pub open spec fn ident_end(input: Seq<u8>, i: int) -> int
    decreases input.len() - i,
{
    if i >= input.len() {
        input.len() as int
    } else if is_ws(input[i]) {
        i
    } else {
        ident_end(input, i + 1)
    }
}

/// The end of a type name: the first whitespace, `<` or `>` at or after
/// `i`, or the end of the input.
pub open spec fn type_ident_end(input: Seq<u8>, i: int) -> int
    decreases input.len() - i,
{
    if i >= input.len() {
        input.len() as int
    } else if is_ws(input[i]) || input[i] == 0x3C || input[i] == 0x3E {
        i
    } else {
        type_ident_end(input, i + 1)
    }
}

pub proof fn lemma_ident_end_bounds(input: Seq<u8>, i: int)
    requires
        0 <= i <= input.len(),
    ensures
        i <= ident_end(input, i) <= input.len(),
        ident_end(input, i) < input.len() ==> is_ws(input[ident_end(input, i)]),
    decreases input.len() - i,
{
    if i < input.len() && !is_ws(input[i]) {
        lemma_ident_end_bounds(input, i + 1);
    }
}

pub proof fn lemma_type_ident_end_bounds(input: Seq<u8>, i: int)
    requires
        0 <= i <= input.len(),
    ensures
        i <= type_ident_end(input, i) <= input.len(),
    decreases input.len() - i,
{
    if i < input.len() && !(is_ws(input[i]) || input[i] == 0x3C || input[i] == 0x3E) {
        lemma_type_ident_end_bounds(input, i + 1);
    }
}

/// Where the next identifier starts and ends: after whitespace and
/// comments, up to the next whitespace.
pub open spec fn spec_identifier(input: Seq<u8>, at: int) -> (int, int) {
    let s = skip_end(input, at);
    (s, ident_end(input, s))
}

/// The identifier read from `at`, if any.
pub open spec fn spec_identifier_value(input: Seq<u8>, at: int) -> Option<Seq<u8>> {
    let (s, e) = spec_identifier(input, at);
    if e == s { None } else { Some(input.subrange(s, e)) }
}

/// Reads bytes up to a stop byte, counting them; the stop bytes are
/// whitespace, and also `<` and `>` when `angle_stops` is set.
fn read_token(input: &[u8], at: &mut usize, cursor: &mut CursorPos, angle_stops: bool) -> (res: Vec<u8>)
    requires
        *old(at) <= input@.len(),
        old(cursor).wf(),
        room(*old(cursor), input@.len() - *old(at)),
    ensures
        *final(at) == if angle_stops { type_ident_end(input@, *old(at) as int) } else { ident_end(input@, *old(at) as int) },
        res@ == input@.subrange(*old(at) as int, *final(at) as int),
        *final(cursor) == push_all(*old(cursor), res@),
        final(cursor).wf(),
{
    let ghost start = *at as int;
    let mut id: Vec<u8> = Vec::new();
    while *at < input.len()
        invariant_except_break
            input@.len() == input.len(),
            start == *old(at) as int,
            start <= *at <= input@.len(),
            (if angle_stops { type_ident_end(input@, *at as int) } else { ident_end(input@, *at as int) })
                == (if angle_stops { type_ident_end(input@, start) } else { ident_end(input@, start) }),
            id@ == input@.subrange(start, *at as int),
            *cursor == push_all(*old(cursor), id@),
            cursor.wf(),
            room(*cursor, input@.len() - *at),
        ensures
            start == *old(at) as int,
            start <= *at <= input@.len(),
            *at == (if angle_stops { type_ident_end(input@, start) } else { ident_end(input@, start) }),
            id@ == input@.subrange(start, *at as int),
            *cursor == push_all(*old(cursor), id@),
            cursor.wf(),
        decreases input@.len() - *at,
    {
        let ch = input[*at];
        if is_ascii_ws(ch) || (angle_stops && (ch == 0x3C || ch == 0x3E)) {
            break;
        }
        proof {
            lemma_room_mono(*cursor, 1, input@.len() - *at);
            lemma_push_one(*cursor, ch, input@.len() - *at - 1);
            lemma_push_all_extend(*old(cursor), input@, start, *at as int);
            assert(input@.subrange(start, *at + 1) =~= id@.push(ch));
        }
        id.push(ch);
        *at = *at + 1;
        cursor.push_u8(ch);
    }
    id
}

/// Reads the next identifier after whitespace and comments: the bytes up to
/// the next whitespace, or `None` when there are none.
pub fn read_identifier(input: &[u8], at: &mut usize, cursor_pos: &mut CursorPos) -> (res: Result<Option<Vec<u8>>, AsmError>)
    requires
        *old(at) <= input@.len(),
        old(cursor_pos).wf(),
        room(*old(cursor_pos), input@.len() - *old(at)),
    ensures
        *final(at) == spec_identifier(input@, *old(at) as int).1,
        *final(cursor_pos) == push_all(*old(cursor_pos), input@.subrange(*old(at) as int, *final(at) as int)),
        final(cursor_pos).wf(),
        res matches Ok(r) && match spec_identifier_value(input@, *old(at) as int) {
            None => r is None,
            Some(v) => r matches Some(id) && id@ == v,
        },
{
    let ghost start = *at as int;
    let ghost c0 = *cursor_pos;
    let _ = skip_whitespace_and_comments(input, at, cursor_pos);
    let ghost s = *at as int;
    let ghost c1 = *cursor_pos;
    proof {
        lemma_skip_end_bounds(input@, start);
        lemma_push_all(c0, input@.subrange(start, s), input@.len() - s);
    }
    let id = read_token(input, at, cursor_pos, false);
    proof {
        lemma_ident_end_bounds(input@, s);
        lemma_push_all_concat(c0, input@.subrange(start, s), id@);
        assert(input@.subrange(start, s) + id@ =~= input@.subrange(start, *at as int));
    }
    if id.len() == 0 {
        Ok(None)
    } else {
        Ok(Some(id))
    }
}

/// The error for a byte other than `expected` at `at`: the end of the
/// input, or the byte found, each quoted with the one expected.
pub open spec fn expect_fault(input: Seq<u8>, at: int, expected: u8) -> Fault {
    if at < 0 || at >= input.len() {
        fixed_fault(ErrorCode::InvalidType, "unexpected end of input, expected '"@ + char_of(expected) + "'"@)
    } else {
        fixed_fault(ErrorCode::InvalidType, "expected '"@ + char_of(expected) + "', found '"@ + char_of(input[at]) + "'"@)
    }
}

/// Consumes the byte `expected`; the end of the input or another byte is
/// refused with `InvalidType` at the cursor; see [`expect_fault`].
fn expect_char(input: &[u8], at: &mut usize, cursor_pos: &mut CursorPos, expected: u8) -> (res: Result<(), AsmError>)
    requires
        *old(at) <= input@.len(),
        old(cursor_pos).wf(),
        room(*old(cursor_pos), input@.len() - *old(at)),
    ensures
        *old(at) < input@.len() && input@[*old(at) as int] == expected ==> res is Ok
            && *final(at) == *old(at) + 1
            && *final(cursor_pos) == old(cursor_pos).spec_push_u8(expected),
        !(*old(at) < input@.len() && input@[*old(at) as int] == expected) ==> (res matches Err(e) && e.error is InvalidType
                && fault_at(e, expect_fault(input@, *old(at) as int, expected), *old(cursor_pos)))
            && *final(at) == *old(at)
            && *final(cursor_pos) == *old(cursor_pos),
        final(cursor_pos).wf(),
{
    if *at >= input.len() {
        let m = String::from_str("unexpected end of input, expected '").concat(char_text(byte_char(expected)).as_str()).concat("'");
        proof {
            assert(m@ =~= "unexpected end of input, expected '"@ + char_of(expected) + "'"@);
        }
        return Err(AsmError::new(Error::InvalidType(m), cursor_pos));
    }
    let b = input[*at];
    if b != expected {
        let m = String::from_str("expected '").concat(char_text(byte_char(expected)).as_str()).concat("', found '")
            .concat(char_text(byte_char(b)).as_str()).concat("'");
        proof {
            assert(m@ =~= "expected '"@ + char_of(expected) + "', found '"@ + char_of(b) + "'"@);
        }
        return Err(AsmError::new(Error::InvalidType(m), cursor_pos));
    }
    proof {
        lemma_room_mono(*cursor_pos, 1, input@.len() - *at);
        lemma_push_one(*cursor_pos, b, input@.len() - *at - 1);
    }
    *at = *at + 1;
    cursor_pos.push_u8(b);
    Ok(())
}

/// The bytes `ptr`.
pub open spec fn ptr_name() -> Seq<u8> {
    seq![0x70u8, 0x74, 0x72]
}

/// Parsing a type from `at`: a basic type name, or `ptr<T>` for a type `T`,
/// with whitespace and comments allowed before each part. Gives the position
/// reached and the type, or the error there.
pub open spec fn spec_type_from_asm(input: Seq<u8>, at: int) -> (int, Result<ValueType, Fault>)
    decreases input.len() - at,
{
    let s = skip_end(input, at);
    let e = type_ident_end(input, s);
    if e == s || !(0 <= at <= s <= e <= input.len()) {
        (e, Err(fixed_fault(ErrorCode::InvalidType, "expected type identifier, found '<', '>', or end of input"@)))
    } else if input.subrange(s, e) == ptr_name() {
        let s2 = skip_end(input, e);
        if s2 >= input.len() || input[s2] != 0x3C {
            (s2, Err(expect_fault(input, s2, 0x3C)))
        } else if at < s2 + 1 <= input.len() {
            match spec_type_from_asm(input, s2 + 1) {
                (e3, Err(k)) => (e3, Err(k)),
                (e3, Ok(inner)) => {
                    let s4 = skip_end(input, e3);
                    if s4 >= input.len() || input[s4] != 0x3E {
                        (s4, Err(expect_fault(input, s4, 0x3E)))
                    } else {
                        (s4 + 1, Ok(ValueType::Ptr(Box::new(inner))))
                    }
                },
            }
        } else {
            (s2, Err(expect_fault(input, s2, 0x3C)))
        }
    } else {
        match spec_basic_type_of_name(input.subrange(s, e)) {
            Some(t) => (e, Ok(t)),
            None => (e, Err(type_name_fault(input.subrange(s, e)))),
        }
    }
}

pub proof fn lemma_type_from_asm_bounds(input: Seq<u8>, at: int)
    requires
        0 <= at <= input.len(),
    ensures
        at <= spec_type_from_asm(input, at).0 <= input.len(),
    decreases input.len() - at,
{
    lemma_skip_end_bounds(input, at);
    let s = skip_end(input, at);
    lemma_type_ident_end_bounds(input, s);
    let e = type_ident_end(input, s);
    if e != s && input.subrange(s, e) == ptr_name() {
        lemma_skip_end_bounds(input, e);
        let s2 = skip_end(input, e);
        if !(s2 >= input.len() || input[s2] != 0x3C) && at < s2 + 1 <= input.len() {
            lemma_type_from_asm_bounds(input, s2 + 1);
            let e3 = spec_type_from_asm(input, s2 + 1).0;
            lemma_skip_end_bounds(input, e3);
        }
    }
}

/// Parses a type; see [`spec_type_from_asm`]. Errors carry the cursor
/// where they happened.
pub fn get_type_from_asm(input: &[u8], at: &mut usize, cursor_pos: &mut CursorPos) -> (res: Result<ValueType, AsmError>)
    requires
        *old(at) <= input@.len(),
        old(cursor_pos).wf(),
        room(*old(cursor_pos), input@.len() - *old(at)),
    ensures
        *final(at) == spec_type_from_asm(input@, *old(at) as int).0,
        *final(cursor_pos) == push_all(*old(cursor_pos), input@.subrange(*old(at) as int, *final(at) as int)),
        final(cursor_pos).wf(),
        match spec_type_from_asm(input@, *old(at) as int).1 {
            Ok(t) => res == Ok::<ValueType, AsmError>(t),
            Err(k) => res matches Err(e) && fault_at(e, k, *final(cursor_pos)),
        },
    decreases input@.len() - *old(at),
{
    let ghost start = *at as int;
    let ghost c0 = *cursor_pos;
    let _ = skip_whitespace_and_comments(input, at, cursor_pos);
    let ghost s = *at as int;
    proof {
        lemma_skip_end_bounds(input@, start);
        lemma_push_all(c0, input@.subrange(start, s), input@.len() - s);
    }
    let ident = read_token(input, at, cursor_pos, true);
    let ghost e = *at as int;
    proof {
        lemma_type_ident_end_bounds(input@, s);
        lemma_push_all_concat(c0, input@.subrange(start, s), ident@);
        assert(input@.subrange(start, s) + ident@ =~= input@.subrange(start, e));
        lemma_push_all(c0, input@.subrange(start, e), input@.len() - e);
    }
    if ident.len() == 0 {
        return Err(AsmError::new(Error::InvalidType(String::from_str("expected type identifier, found '<', '>', or end of input")), cursor_pos));
    }
    if crate::value::bytes_eq(ident.as_slice(), &[0x70u8, 0x74u8, 0x72u8]) {
        proof {
            assert(seq![0x70u8, 0x74u8, 0x72u8] =~= ptr_name());
        }
        let _ = skip_whitespace_and_comments(input, at, cursor_pos);
        let ghost s2 = *at as int;
        proof {
            lemma_skip_end_bounds(input@, e);
            lemma_push_all_concat(c0, input@.subrange(start, e), input@.subrange(e, s2));
            assert(input@.subrange(start, e) + input@.subrange(e, s2) =~= input@.subrange(start, s2));
            lemma_push_all(c0, input@.subrange(start, s2), input@.len() - s2);
        }
        let ghost c2 = *cursor_pos;
        expect_char(input, at, cursor_pos, 0x3C)?;
        proof {
            lemma_push_all_extend(c0, input@, start, s2);
            lemma_push_one(c2, 0x3C, input@.len() - s2 - 1);
        }
        let inner_res = get_type_from_asm(input, at, cursor_pos);
        let ghost e3 = *at as int;
        proof {
            lemma_type_from_asm_bounds(input@, s2 + 1);
            lemma_push_all_concat(c0, input@.subrange(start, s2 + 1), input@.subrange(s2 + 1, e3));
            assert(input@.subrange(start, s2 + 1) + input@.subrange(s2 + 1, e3) =~= input@.subrange(start, e3));
            lemma_push_all(c0, input@.subrange(start, e3), input@.len() - e3);
        }
        let inner = inner_res?;
        let _ = skip_whitespace_and_comments(input, at, cursor_pos);
        let ghost s4 = *at as int;
        proof {
            lemma_skip_end_bounds(input@, e3);
            lemma_push_all_concat(c0, input@.subrange(start, e3), input@.subrange(e3, s4));
            assert(input@.subrange(start, e3) + input@.subrange(e3, s4) =~= input@.subrange(start, s4));
            lemma_push_all(c0, input@.subrange(start, s4), input@.len() - s4);
        }
        let ghost c4 = *cursor_pos;
        expect_char(input, at, cursor_pos, 0x3E)?;
        proof {
            lemma_push_all_extend(c0, input@, start, s4);
        }
        Ok(ValueType::Ptr(Box::new(inner)))
    } else {
        proof {
            assert(seq![0x70u8, 0x74u8, 0x72u8] =~= ptr_name());
        }
        match var_type_asm_to_type(ident.as_slice()) {
            Ok(t) => Ok(t),
            Err(err) => Err(AsmError::new(err, cursor_pos)),
        }
    }
}

/// `n` little-endian bytes of `v`.
pub open spec fn le_bytes(v: nat, n: nat) -> Seq<u8>
    decreases n,
{
    if n == 0 { Seq::empty() } else { seq![(v % 256) as u8] + le_bytes(v / 256, (n - 1) as nat) }
}

/// The operands an instruction is written with.
pub enum OperandShape {
    /// None.
    NoOperand,
    /// One hexadecimal number of at most so many digits, written in so
    /// many little-endian bytes.
    Hex(nat, nat),
    /// Two four-digit numbers, each written in two bytes.
    TwoHex16,
    /// A type name, written as its one-byte code.
    TypeCode,
    /// A type name and a four-digit number: the type's code, then the
    /// number in two bytes.
    TypeThenHex16,
}

/// The opcode and operands of an instruction mnemonic.
pub open spec fn cmd_shape(id: Seq<u8>) -> Option<(u8, OperandShape)> {
    if id == seq![0x61u8, 0x64u8, 0x64u8] { Some((0u8, OperandShape::NoOperand)) }
    else if id == seq![0x73u8, 0x75u8, 0x62u8] { Some((1u8, OperandShape::NoOperand)) }
    else if id == seq![0x6du8, 0x75u8, 0x6cu8] { Some((2u8, OperandShape::NoOperand)) }
    else if id == seq![0x64u8, 0x69u8, 0x76u8] { Some((3u8, OperandShape::NoOperand)) }
    else if id == seq![0x6du8, 0x6fu8, 0x64u8] { Some((4u8, OperandShape::NoOperand)) }
    else if id == seq![0x62u8, 0x69u8, 0x74u8, 0x61u8, 0x6eu8, 0x64u8] { Some((8u8, OperandShape::NoOperand)) }
    else if id == seq![0x62u8, 0x69u8, 0x74u8, 0x6fu8, 0x72u8] { Some((7u8, OperandShape::NoOperand)) }
    else if id == seq![0x78u8, 0x6fu8, 0x72u8] { Some((9u8, OperandShape::NoOperand)) }
    else if id == seq![0x70u8, 0x6fu8, 0x70u8, 0x72u8, 0x65u8, 0x74u8] { Some((12u8, OperandShape::NoOperand)) }
    else if id == seq![0x64u8, 0x75u8, 0x70u8] { Some((27u8, OperandShape::NoOperand)) }
    else if id == seq![0x70u8, 0x6fu8, 0x70u8] { Some((29u8, OperandShape::NoOperand)) }
    else if id == seq![0x6eu8, 0x6fu8, 0x70u8] { Some((22u8, OperandShape::NoOperand)) }
    else if id == seq![0x72u8, 0x65u8, 0x74u8, 0x63u8] { Some((10u8, OperandShape::Hex(4, 2))) }
    else if id == seq![0x72u8, 0x65u8, 0x74u8, 0x76u8] { Some((11u8, OperandShape::Hex(4, 2))) }
    else if id == seq![0x64u8, 0x65u8, 0x6cu8, 0x76u8] { Some((20u8, OperandShape::Hex(4, 2))) }
    else if id == seq![0x64u8, 0x65u8, 0x6cu8, 0x70u8] { Some((21u8, OperandShape::Hex(4, 2))) }
    else if id == seq![0x70u8, 0x75u8, 0x73u8, 0x68u8, 0x76u8, 0x61u8, 0x72u8] { Some((24u8, OperandShape::Hex(4, 2))) }
    else if id == seq![0x70u8, 0x6fu8, 0x70u8, 0x76u8, 0x61u8, 0x72u8] { Some((25u8, OperandShape::Hex(4, 2))) }
    else if id == seq![0x73u8, 0x74u8, 0x6fu8, 0x72u8, 0x65u8, 0x76u8, 0x61u8, 0x72u8] { Some((26u8, OperandShape::Hex(4, 2))) }
    else if id == seq![0x63u8, 0x61u8, 0x6cu8, 0x6cu8] { Some((23u8, OperandShape::Hex(8, 4))) }
    else if id == seq![0x6cu8, 0x64u8, 0x63u8] { Some((28u8, OperandShape::Hex(2, 1))) }
    else if id == seq![0x6du8, 0x6fu8, 0x76u8, 0x63u8] { Some((16u8, OperandShape::TwoHex16)) }
    else if id == seq![0x6du8, 0x6fu8, 0x76u8] { Some((17u8, OperandShape::TwoHex16)) }
    else if id == seq![0x6eu8, 0x65u8, 0x77u8, 0x76u8] { Some((18u8, OperandShape::TypeThenHex16)) }
    else if id == seq![0x63u8, 0x6fu8, 0x6eu8, 0x76u8, 0x74u8, 0x6fu8, 0x70u8] { Some((30u8, OperandShape::TypeCode)) }
    else { None }
}

/// The bytes `func`.
pub open spec fn func_name() -> Seq<u8> { seq![0x66u8, 0x75u8, 0x6eu8, 0x63u8] }

/// The bytes `endfunc`.
pub open spec fn endfunc_name() -> Seq<u8> { seq![0x65u8, 0x6eu8, 0x64u8, 0x66u8, 0x75u8, 0x6eu8, 0x63u8] }

/// The code of the basic type a name stands for.
pub open spec fn type_code_of_name(name: Seq<u8>) -> Option<u8> {
    match spec_basic_type_of_name(name) {
        Some(t) => spec_basic_type_code(t),
        None => None,
    }
}

/// Assembling one instruction whose mnemonic `id` has been read, with its
/// operands read from `at`: the position reached, the bytes written, and the
/// outcome. A type name that is missing is an `EOFError`; one that names no
/// basic type is an `InvalidType` after the opcode has been written; an
/// unknown mnemonic is refused as [`unknown_cmd_fault`] says.
pub open spec fn spec_assembly_cmd(id: Seq<u8>, input: Seq<u8>, at: int) -> (int, Seq<u8>, Result<(), Fault>) {
    if id == func_name() || id == endfunc_name() {
        (at, Seq::empty(), Err(fixed_fault(ErrorCode::Duplicated, "Nested function definition"@)))
    } else {
        match cmd_shape(id) {
            None => (at, Seq::empty(), Err(unknown_cmd_fault(id))),
            Some((op, OperandShape::NoOperand)) => (at, seq![op], Ok(())),
            Some((op, OperandShape::Hex(digits, width))) => {
                let (e, r) = spec_hex_number(input, at, digits);
                match r {
                    Err(k) => (e, Seq::empty(), Err(k)),
                    Ok(v) => (e, seq![op] + le_bytes(v, width), Ok(())),
                }
            },
            Some((op, OperandShape::TwoHex16)) => {
                let (e1, r1) = spec_hex_number(input, at, 4);
                match r1 {
                    Err(k) => (e1, Seq::empty(), Err(k)),
                    Ok(v1) => {
                        let (e2, r2) = spec_hex_number(input, e1, 4);
                        match r2 {
                            Err(k) => (e2, Seq::empty(), Err(k)),
                            Ok(v2) => (e2, seq![op] + le_bytes(v1, 2) + le_bytes(v2, 2), Ok(())),
                        }
                    },
                }
            },
            Some((op, OperandShape::TypeCode)) => {
                let (s, e) = spec_identifier(input, at);
                if e == s {
                    (e, Seq::empty(), Err(fixed_fault(ErrorCode::EOFError, "(CONVTOP) Unexpected EOF when reading type identifier"@)))
                } else {
                    match type_code_of_name(input.subrange(s, e)) {
                        Some(c) => (e, seq![op, c], Ok(())),
                        None => (e, seq![op], Err(type_name_fault(input.subrange(s, e)))),
                    }
                }
            },
            Some((op, OperandShape::TypeThenHex16)) => {
                let (s, e) = spec_identifier(input, at);
                if e == s {
                    (e, Seq::empty(), Err(fixed_fault(ErrorCode::EOFError, "(NEWV) Unexpected EOF when reading type identifier"@)))
                } else {
                    let (e2, r) = spec_hex_number(input, e, 4);
                    match r {
                        Err(k) => (e2, Seq::empty(), Err(k)),
                        Ok(v) => match type_code_of_name(input.subrange(s, e)) {
                            Some(c) => (e2, seq![op, c] + le_bytes(v, 2), Ok(())),
                            None => (e2, seq![op], Err(type_name_fault(input.subrange(s, e)))),
                        },
                    }
                }
            },
        }
    }
}

/// Whether every byte is a hexadecimal digit.
pub open spec fn all_hex(id: Seq<u8>) -> bool {
    forall|i: int| 0 <= i < id.len() ==> #[trigger] hex_value(id[i]) is Some
}

/// The error for a mnemonic that names no instruction. One made of
/// hexadecimal digits only is read as a number of at most sixteen digits:
/// the message says that the number is no identifier, or, when it has more
/// digits than that, that it overflows. Any other mnemonic is quoted.
pub open spec fn unknown_cmd_fault(id: Seq<u8>) -> Fault {
    if all_hex(id) {
        match hex_scan(id, 0, 0, 0, 16).1 {
            Ok(v) => Fault {
                kind: ErrorCode::InvalidIdentifier,
                text: |t: Seq<char>| numbered_then("Integer "@, v as u64,
                    " is not a valid identifier, did you add redundant arguments?"@, t),
            },
            Err(_) => fixed_fault(ErrorCode::InvalidIdentifier, "'"@ + lossy_text_of(id)
                + "' looks like a valid integer but it overflows. Did you add redundant integer arguments?"@),
        }
    } else {
        fixed_fault(ErrorCode::InvalidIdentifier, lossy_text_of(id))
    }
}

/// The operands of an instruction, as the assembler reads them.
enum CmdOperands {
    NoOperand,
    Hex8,
    Hex16,
    Hex32,
    TwoHex16,
    TypeCode,
    TypeThenHex16,
}

spec fn shape_of(c: CmdOperands) -> OperandShape {
    match c {
        CmdOperands::NoOperand => OperandShape::NoOperand,
        CmdOperands::Hex8 => OperandShape::Hex(2, 1),
        CmdOperands::Hex16 => OperandShape::Hex(4, 2),
        CmdOperands::Hex32 => OperandShape::Hex(8, 4),
        CmdOperands::TwoHex16 => OperandShape::TwoHex16,
        CmdOperands::TypeCode => OperandShape::TypeCode,
        CmdOperands::TypeThenHex16 => OperandShape::TypeThenHex16,
    }
}

/// The opcode and operands of a mnemonic; see [`cmd_shape`].
fn instruction_shape(id: &[u8]) -> (res: Option<(u8, CmdOperands)>)
    ensures
        match cmd_shape(id@) {
            None => res is None,
            Some((op, sh)) => res matches Some((o, c)) && o == op && shape_of(c) == sh,
        },
{
    let shape: Option<(u8, CmdOperands)> = 
{
        if bytes_eq(id, &[0x61u8, 0x64u8, 0x64u8]) {
            Some((cmd_u8::ADD, CmdOperands::NoOperand))
        }         else if bytes_eq(id, &[0x73u8, 0x75u8, 0x62u8]) {
            Some((cmd_u8::SUB, CmdOperands::NoOperand))
        }         else if bytes_eq(id, &[0x6du8, 0x75u8, 0x6cu8]) {
            Some((cmd_u8::MUL, CmdOperands::NoOperand))
        }         else if bytes_eq(id, &[0x64u8, 0x69u8, 0x76u8]) {
            Some((cmd_u8::DIV, CmdOperands::NoOperand))
        }         else if bytes_eq(id, &[0x6du8, 0x6fu8, 0x64u8]) {
            Some((cmd_u8::MOD, CmdOperands::NoOperand))
        }         else if bytes_eq(id, &[0x62u8, 0x69u8, 0x74u8, 0x61u8, 0x6eu8, 0x64u8]) {
            Some((cmd_u8::BIT_AND, CmdOperands::NoOperand))
        }         else if bytes_eq(id, &[0x62u8, 0x69u8, 0x74u8, 0x6fu8, 0x72u8]) {
            Some((cmd_u8::BIT_OR, CmdOperands::NoOperand))
        }         else if bytes_eq(id, &[0x78u8, 0x6fu8, 0x72u8]) {
            Some((cmd_u8::XOR, CmdOperands::NoOperand))
        }         else if bytes_eq(id, &[0x70u8, 0x6fu8, 0x70u8, 0x72u8, 0x65u8, 0x74u8]) {
            Some((cmd_u8::POPRET, CmdOperands::NoOperand))
        }         else if bytes_eq(id, &[0x64u8, 0x75u8, 0x70u8]) {
            Some((cmd_u8::DUP, CmdOperands::NoOperand))
        }         else if bytes_eq(id, &[0x70u8, 0x6fu8, 0x70u8]) {
            Some((cmd_u8::POP, CmdOperands::NoOperand))
        }         else if bytes_eq(id, &[0x6eu8, 0x6fu8, 0x70u8]) {
            Some((cmd_u8::NOP, CmdOperands::NoOperand))
        }         else if bytes_eq(id, &[0x72u8, 0x65u8, 0x74u8, 0x63u8]) {
            Some((cmd_u8::RETC, CmdOperands::Hex16))
        }         else if bytes_eq(id, &[0x72u8, 0x65u8, 0x74u8, 0x76u8]) {
            Some((cmd_u8::RETV, CmdOperands::Hex16))
        }         else if bytes_eq(id, &[0x64u8, 0x65u8, 0x6cu8, 0x76u8]) {
            Some((cmd_u8::DELV, CmdOperands::Hex16))
        }         else if bytes_eq(id, &[0x64u8, 0x65u8, 0x6cu8, 0x70u8]) {
            Some((cmd_u8::DELP, CmdOperands::Hex16))
        }         else if bytes_eq(id, &[0x70u8, 0x75u8, 0x73u8, 0x68u8, 0x76u8, 0x61u8, 0x72u8]) {
            Some((cmd_u8::PUSHVAR, CmdOperands::Hex16))
        }         else if bytes_eq(id, &[0x70u8, 0x6fu8, 0x70u8, 0x76u8, 0x61u8, 0x72u8]) {
            Some((cmd_u8::POPVAR, CmdOperands::Hex16))
        }         else if bytes_eq(id, &[0x73u8, 0x74u8, 0x6fu8, 0x72u8, 0x65u8, 0x76u8, 0x61u8, 0x72u8]) {
            Some((cmd_u8::STOREVAR, CmdOperands::Hex16))
        }         else if bytes_eq(id, &[0x63u8, 0x61u8, 0x6cu8, 0x6cu8]) {
            Some((cmd_u8::CALL, CmdOperands::Hex32))
        }         else if bytes_eq(id, &[0x6cu8, 0x64u8, 0x63u8]) {
            Some((cmd_u8::LDC, CmdOperands::Hex8))
        }         else if bytes_eq(id, &[0x6du8, 0x6fu8, 0x76u8, 0x63u8]) {
            Some((cmd_u8::MOVC, CmdOperands::TwoHex16))
        }         else if bytes_eq(id, &[0x6du8, 0x6fu8, 0x76u8]) {
            Some((cmd_u8::MOV, CmdOperands::TwoHex16))
        }         else if bytes_eq(id, &[0x6eu8, 0x65u8, 0x77u8, 0x76u8]) {
            Some((cmd_u8::NEWV, CmdOperands::TypeThenHex16))
        }         else if bytes_eq(id, &[0x63u8, 0x6fu8, 0x6eu8, 0x76u8, 0x74u8, 0x6fu8, 0x70u8]) {
            Some((cmd_u8::CONV_TOP, CmdOperands::TypeCode))
        } else {
            None
        }
    };
    shape
}

/// Whether every byte is a hexadecimal digit.
fn all_hex_digits(id: &[u8]) -> (res: bool)
    ensures
        res == all_hex(id@),
{
    let mut i: usize = 0;
    while i < id.len()
        invariant
            i <= id@.len(),
            forall|j: int| 0 <= j < i ==> #[trigger] crate::parser::hex::hex_value(id@[j]) is Some,
        decreases id@.len() - i,
    {
        if crate::parser::hex::hex_digit_value(id[i]).is_none() {
            return false;
        }
        i = i + 1;
    }
    true
}

/// The error for a mnemonic that names no instruction; see
/// [`unknown_cmd_fault`].
fn unknown_cmd_error(id: &[u8], cursor_pos: &CursorPos) -> (res: AsmError)
    ensures
        fault_at(res, unknown_cmd_fault(id@), *cursor_pos),
{
    if all_hex_digits(id) {
        let mut reader_at: usize = 0;
        proof {
            lemma_hex_scan(id@, 0, 0, 0, 16);
            assert(pow16(0) == 1);
        }
        match scan_hex_digits(id, &mut reader_at, 16) {
            Ok(num) => {
                let m = message_with_number_then("Integer ", num, " is not a valid identifier, did you add redundant arguments?");
                AsmError::new(Error::InvalidIdentifier(m), cursor_pos)
            },
            Err(_) => {
                let m = String::from_str("'").concat(lossy_text(id).as_str())
                    .concat("' looks like a valid integer but it overflows. Did you add redundant integer arguments?");
                AsmError::new(Error::InvalidIdentifier(m), cursor_pos)
            },
        }
    } else {
        AsmError::new(Error::InvalidIdentifier(lossy_text(id)), cursor_pos)
    }
}

/// Appends `n` little-endian bytes of `v` to `out`.
fn push_le(out: &mut Vec<u8>, v: u64, n: usize)
    ensures
        final(out)@ == old(out)@ + le_bytes(v as nat, n as nat),
        final(out)@.len() == old(out)@.len() + n,
    decreases n,
{
    if n > 0 {
        proof {
            assert((v & 0xff) as u8 == (v % 256) as u8) by (bit_vector);
            assert(v >> 8u64 == v / 256) by (bit_vector);
        }
        out.push((v & 0xff) as u8);
        push_le(out, v >> 8, n - 1);
        proof {
            assert(old(out)@ + le_bytes(v as nat, n as nat)
                =~= old(out)@.push((v % 256) as u8) + le_bytes((v / 256) as nat, (n - 1) as nat));
        }
    }
}

/// Assembles one instruction whose mnemonic `id` has been read, reading its
/// operands from `*at` and appending its bytecode to `output`; see
/// [`spec_assembly_cmd`]. Errors carry the cursor where they happened.
pub fn compile_assembly_cmd(
    id: &[u8],
    input: &[u8],
    at: &mut usize,
    output: &mut Vec<u8>,
    cursor_pos: &mut CursorPos,
    output_pos: &mut OutputCursorPos,
) -> (res: Result<(), AsmError>)
    requires
        *old(at) <= input@.len(),
        old(cursor_pos).wf(),
        room(*old(cursor_pos), input@.len() - *old(at)),
        old(output_pos).pos + 16 <= u64::MAX,
    ensures
        *final(at) == spec_assembly_cmd(id@, input@, *old(at) as int).0,
        *final(cursor_pos) == push_all(*old(cursor_pos), input@.subrange(*old(at) as int, *final(at) as int)),
        final(cursor_pos).wf(),
        final(output)@ == old(output)@ + spec_assembly_cmd(id@, input@, *old(at) as int).1,
        final(output_pos).pos == old(output_pos).pos + spec_assembly_cmd(id@, input@, *old(at) as int).1.len(),
        match spec_assembly_cmd(id@, input@, *old(at) as int).2 {
            Ok(()) => res is Ok,
            Err(k) => res matches Err(e) && fault_at(e, k, *final(cursor_pos)),
        },
{
    let ghost start = *at as int;
    let ghost c0 = *cursor_pos;
    proof {
        assert(input@.subrange(start, start) =~= Seq::<u8>::empty());
    }
    if bytes_eq(id, &[0x66u8, 0x75u8, 0x6eu8, 0x63u8]) || bytes_eq(id, &[0x65u8, 0x6eu8, 0x64u8, 0x66u8, 0x75u8, 0x6eu8, 0x63u8]) {
        proof {
            assert(seq![0x66u8, 0x75u8, 0x6eu8, 0x63u8] =~= func_name());
            assert(seq![0x65u8, 0x6eu8, 0x64u8, 0x66u8, 0x75u8, 0x6eu8, 0x63u8] =~= endfunc_name());
        }
        return Err(AsmError::new(Error::Duplicated(String::from_str("Nested function definition")), cursor_pos));
    }
    proof {
        assert(seq![0x66u8, 0x75u8, 0x6eu8, 0x63u8] =~= func_name());
        assert(seq![0x65u8, 0x6eu8, 0x64u8, 0x66u8, 0x75u8, 0x6eu8, 0x63u8] =~= endfunc_name());
    }

    let (op, operands) = match instruction_shape(id) {
        Some(shape) => shape,
        None => {
            return Err(unknown_cmd_error(id, cursor_pos));
        },
    };
    let mut bytes: Vec<u8> = Vec::new();
    bytes.push(op);
    match operands {
        CmdOperands::NoOperand => {},
        CmdOperands::Hex8 => {
            let v = hex_to_u8(input, at, cursor_pos)?;
            push_le(&mut bytes, v as u64, 1);
        },
        CmdOperands::Hex16 => {
            let v = hex_to_u16(input, at, cursor_pos)?;
            push_le(&mut bytes, v as u64, 2);
        },
        CmdOperands::Hex32 => {
            let v = hex_to_u32(input, at, cursor_pos)?;
            push_le(&mut bytes, v as u64, 4);
        },
        CmdOperands::TwoHex16 => {
            let v1 = hex_to_u16(input, at, cursor_pos)?;
            let ghost e1 = *at as int;
            proof {
                lemma_hex_number_bounds(input@, start, 4);
                lemma_push_all(c0, input@.subrange(start, e1), input@.len() - e1);
            }
            let v2_res = hex_to_u16(input, at, cursor_pos);
            proof {
                lemma_hex_number_bounds(input@, e1, 4);
                lemma_push_all_concat(c0, input@.subrange(start, e1), input@.subrange(e1, *at as int));
                assert(input@.subrange(start, e1) + input@.subrange(e1, *at as int) =~= input@.subrange(start, *at as int));
            }
            let v2 = v2_res?;
            push_le(&mut bytes, v1 as u64, 2);
            push_le(&mut bytes, v2 as u64, 2);
        },
        CmdOperands::TypeCode => {
            let type_ = match read_identifier(input, at, cursor_pos)? {
                Some(value) => value,
                None => {
                    return Err(AsmError::new(Error::EOFError(String::from_str("(CONVTOP) Unexpected EOF when reading type identifier")), cursor_pos));
                },
            };
            match var_type_asm_to_code(type_.as_slice()) {
                Ok(code) => {
                    bytes.push(code);
                },
                Err(err) => {
                    output_pos.write_all(output, bytes.as_slice(), cursor_pos)?;
                    return Err(AsmError::new(err, cursor_pos));
                },
            }
        },
        CmdOperands::TypeThenHex16 => {
            let type_ = match read_identifier(input, at, cursor_pos)? {
                Some(value) => value,
                None => {
                    return Err(AsmError::new(Error::EOFError(String::from_str("(NEWV) Unexpected EOF when reading type identifier")), cursor_pos));
                },
            };
            let ghost e1 = *at as int;
            proof {
                lemma_skip_end_bounds(input@, start);
                lemma_ident_end_bounds(input@, skip_end(input@, start));
                lemma_push_all(c0, input@.subrange(start, e1), input@.len() - e1);
            }
            let id_res = hex_to_u16(input, at, cursor_pos);
            proof {
                lemma_hex_number_bounds(input@, e1, 4);
                lemma_push_all_concat(c0, input@.subrange(start, e1), input@.subrange(e1, *at as int));
                assert(input@.subrange(start, e1) + input@.subrange(e1, *at as int) =~= input@.subrange(start, *at as int));
            }
            let var_id = id_res?;
            match var_type_asm_to_code(type_.as_slice()) {
                Ok(code) => {
                    bytes.push(code);
                    push_le(&mut bytes, var_id as u64, 2);
                },
                Err(err) => {
                    output_pos.write_all(output, bytes.as_slice(), cursor_pos)?;
                    return Err(AsmError::new(err, cursor_pos));
                },
            }
        },
    }
    output_pos.write_all(output, bytes.as_slice(), cursor_pos)?;
    Ok(())
}


/// The bytes `label`.
pub open spec fn label_name() -> Seq<u8> { seq![0x6cu8, 0x61u8, 0x62u8, 0x65u8, 0x6cu8] }

/// The bytes `jmp`.
pub open spec fn jmp_name() -> Seq<u8> { seq![0x6au8, 0x6du8, 0x70u8] }

/// The bytes `cp`.
pub open spec fn cp_name() -> Seq<u8> { seq![0x63u8, 0x70u8] }

/// The bytes `endcp`.
pub open spec fn endcp_name() -> Seq<u8> { seq![0x65u8, 0x6eu8, 0x64u8, 0x63u8, 0x70u8] }

/// Whether constants of type `t` can be read: unsigned integers and
/// `Null`. Reading the others is not implemented (the reader panics).
pub open spec fn constant_type_supported(t: ValueType) -> bool {
    t is U8 || t is U16 || t is U32 || t is U64 || t is Null
}

/// Whether constants of type `t` can be read; see
/// [`constant_type_supported`].
pub fn is_constant_type_supported(t: &ValueType) -> (res: bool)
    ensures
        res == constant_type_supported(*t),
{
    match t {
        ValueType::U8 | ValueType::U16 | ValueType::U32 | ValueType::U64 | ValueType::Null => true,
        _ => false,
    }
}

/// Reading a constant of type `t` from `at`: unsigned integers as
/// hexadecimal numbers of their width, `Null` from nothing. A constant pool
/// entry of another type is reported by the assembler as `InvalidType`
/// (reading it is not implemented).
pub open spec fn spec_construct_var(input: Seq<u8>, at: int, t: ValueType) -> (int, Result<Var, Fault>) {
    match t {
        ValueType::U8 => {
            let (e, r) = spec_hex_number(input, at, 2);
            (e, match r { Ok(v) => Ok(Var::U8(v as u8)), Err(k) => Err(k) })
        },
        ValueType::U16 => {
            let (e, r) = spec_hex_number(input, at, 4);
            (e, match r { Ok(v) => Ok(Var::U16(v as u16)), Err(k) => Err(k) })
        },
        ValueType::U32 => {
            let (e, r) = spec_hex_number(input, at, 8);
            (e, match r { Ok(v) => Ok(Var::U32(v as u32)), Err(k) => Err(k) })
        },
        ValueType::U64 => {
            let (e, r) = spec_hex_number(input, at, 16);
            (e, match r { Ok(v) => Ok(Var::U64(v as u64)), Err(k) => Err(k) })
        },
        ValueType::Null => (at, Ok(Var::Null)),
        _ => (at, Err(fixed_fault(ErrorCode::InvalidType, "not yet implemented"@))),
    }
}

/// Reads a constant of type `type_`, one whose reading is implemented; see
/// [`spec_construct_var`].
pub fn construct_var_from_asm(input: &[u8], at: &mut usize, type_: &ValueType, cursor_pos: &mut CursorPos) -> (res: Result<Var, AsmError>)
    requires
        constant_type_supported(*type_),
        *old(at) <= input@.len(),
        old(cursor_pos).wf(),
        room(*old(cursor_pos), input@.len() - *old(at)),
    ensures
        *final(at) == spec_construct_var(input@, *old(at) as int, *type_).0,
        *final(cursor_pos) == push_all(*old(cursor_pos), input@.subrange(*old(at) as int, *final(at) as int)),
        final(cursor_pos).wf(),
        match spec_construct_var(input@, *old(at) as int, *type_).1 {
            Ok(v) => res == Ok::<Var, AsmError>(v),
            Err(k) => res matches Err(e) && fault_at(e, k, *final(cursor_pos)),
        },
{
    proof {
        assert(input@.subrange(*at as int, *at as int) =~= Seq::<u8>::empty());
    }
    match type_ {
        ValueType::U8 => Ok(Var::U8(hex_to_u8(input, at, cursor_pos)?)),
        ValueType::U16 => Ok(Var::U16(hex_to_u16(input, at, cursor_pos)?)),
        ValueType::U32 => Ok(Var::U32(hex_to_u32(input, at, cursor_pos)?)),
        ValueType::U64 => Ok(Var::U64(hex_to_u64(input, at, cursor_pos)?)),
        _ => Ok(Var::Null),
    }
}


/// Reading the constant pool from `at` (after `cp`): entries `type value`
/// up to `endcp`, each appended to `consts`. Gives the position reached, the
/// constants, and the outcome: a missing entry is an `EOFError`, a name that
/// names no basic type an `InvalidType`.
pub open spec fn spec_cp(input: Seq<u8>, at: int, consts: Seq<Var>) -> (int, Seq<Var>, Result<(), Fault>)
    decreases input.len() - at,
{
    let s1 = skip_end(input, at);
    let (s, e) = spec_identifier(input, s1);
    if e == s {
        (e, consts, Err(fixed_fault(ErrorCode::EOFError, "Unexpected end of constant pool"@)))
    } else if input.subrange(s, e) == endcp_name() {
        (e, consts, Ok(()))
    } else {
        let s3 = skip_end(input, e);
        match spec_basic_type_of_name(input.subrange(s, e)) {
            None => (s3, consts, Err(type_name_fault(input.subrange(s, e)))),
            Some(t) => {
                let s4 = skip_end(input, s3);
                let (e5, r) = spec_construct_var(input, s4, t);
                match r {
                    Err(k) => (e5, consts, Err(k)),
                    Ok(v) => {
                        let s6 = skip_end(input, e5);
                        if at < s6 <= input.len() {
                            spec_cp(input, s6, consts.push(v))
                        } else {
                            (s6, consts.push(v), Ok(()))
                        }
                    },
                }
            },
        }
    }
}

/// A function the assembler registered: its bytecode, constants and labels.
pub struct AsmFunc {
    pub code: Seq<u8>,
    pub constants: Seq<Var>,
    pub labels: Map<Seq<u8>, u64>,
}

/// The assembler's state between statements: the position in the input,
/// the function being assembled (number and bytecode so far), its constant
/// pool and labels, the place in the output (the number of the next byte
/// to be written over all functions, the first being 1), and the functions
/// registered so far.
pub struct AsmState {
    pub at: int,
    pub func: Option<(u32, Seq<u8>)>,
    pub constants: Seq<Var>,
    pub labels: Map<Seq<u8>, u64>,
    pub out_pos: nat,
    pub registered: Map<u32, AsmFunc>,
}

/// The state the assembler starts in at `at`: nothing written yet, so the
/// next byte is byte 1.
pub open spec fn asm_start(at: int) -> AsmState {
    AsmState { at, func: None, constants: Seq::empty(), labels: Map::empty(), out_pos: 1, registered: Map::empty() }
}

/// The error for a function number that is registered already, as the
/// environment gives it.
pub open spec fn registered_fault(k: u32) -> Fault {
    Fault {
        kind: ErrorCode::Duplicated,
        text: |t: Seq<char>| numbered_then("func "@, k as u64, " already registered"@, t),
    }
}

/// One statement of assembly: `func N`, `endfunc`, `label NAME`,
/// `jmp NAME`, a constant pool `cp ... endcp`, or an instruction inside a
/// function. Gives the next state, and an outcome when assembling ends:
/// at the end of the input (well only outside a function) or at an error.
/// Numbers in `taken` cannot be registered again.
pub open spec fn spec_statement(input: Seq<u8>, st: AsmState, taken: Set<u32>) -> (AsmState, Option<Result<(), Fault>>) {
    let (s, e) = spec_identifier(input, skip_end(input, st.at));
    let id = input.subrange(s, e);
    if e == s {
        (AsmState { at: e, ..st }, Some(if st.func is None { Ok(()) } else { Err(fixed_fault(ErrorCode::EOFError, "Unexpected EOF when reading cmd identifier"@)) }))
    } else if id == func_name() {
        let (e2, r) = spec_hex_number(input, e, 8);
        match r {
            Err(k) => (AsmState { at: e2, ..st }, Some(Err(k))),
            Ok(v) => if st.func is Some {
                (AsmState { at: e2, ..st }, Some(Err(fixed_fault(ErrorCode::Duplicated, "Nested functions are not allowed"@))))
            } else {
                (AsmState { at: e2, func: Some((v as u32, Seq::empty())), constants: Seq::empty(), labels: Map::empty(), ..st }, None)
            },
        }
    } else if id == endfunc_name() {
        match st.func {
            None => (AsmState { at: e, ..st }, Some(Err(fixed_fault(ErrorCode::SyntaxError, "Unexpected endfunc"@)))),
            Some((k, code)) => if taken.contains(k) || st.registered.contains_key(k) {
                (AsmState { at: e, func: None, ..st }, Some(Err(registered_fault(k))))
            } else {
                (AsmState {
                    at: e,
                    func: None,
                    constants: Seq::empty(),
                    labels: Map::empty(),
                    registered: st.registered.insert(k, AsmFunc { code, constants: st.constants, labels: st.labels }),
                    ..st
                }, None)
            },
        }
    } else if id == label_name() {
        let (s2, e2) = spec_identifier(input, e);
        if e2 == s2 {
            (AsmState { at: e2, ..st }, Some(Err(fixed_fault(ErrorCode::EOFError, "Unexpected EOF when reading label id"@))))
        } else {
            (AsmState { at: e2, labels: st.labels.insert(input.subrange(s2, e2), st.out_pos as u64), ..st }, None)
        }
    } else if id == jmp_name() {
        let (s2, e2) = spec_identifier(input, e);
        let name = input.subrange(s2, e2);
        if e2 == s2 {
            (AsmState { at: e2, ..st }, Some(Err(fixed_fault(ErrorCode::EOFError, "Missing label after jmp"@))))
        } else if !st.labels.contains_key(name) {
            (AsmState { at: e2, ..st }, Some(Err(fixed_fault(ErrorCode::OutOfIndex, "Unknown label "@ + lossy_text_of(name)))))
        } else {
            match st.func {
                None => (AsmState { at: e2, ..st }, Some(Err(fixed_fault(ErrorCode::SyntaxError, "jmp outside function"@)))),
                Some((k, code)) => (AsmState {
                    at: e2,
                    func: Some((k, code + seq![13u8] + le_bytes(st.labels[name] as nat, 8))),
                    out_pos: st.out_pos + 9,
                    ..st
                }, None),
            }
        }
    } else if id == cp_name() {
        let (e2, consts, r) = spec_cp(input, e, st.constants);
        (AsmState { at: e2, constants: consts, ..st }, match r { Ok(()) => None, Err(k) => Some(Err(k)) })
    } else if id == endcp_name() {
        (AsmState { at: e, ..st }, Some(Err(fixed_fault(ErrorCode::SyntaxError, "endcp is invalid outside constant pools"@))))
    } else {
        match st.func {
            None => (AsmState { at: e, ..st }, Some(Err(fixed_fault(ErrorCode::SyntaxError,
                "Statement "@ + lossy_text_of(id) + " must be in a function"@)))),
            Some((k, code)) => {
                let (e2, w, r) = spec_assembly_cmd(id, input, e);
                (AsmState { at: e2, func: Some((k, code + w)), out_pos: st.out_pos + w.len(), ..st },
                    match r { Ok(()) => None, Err(k) => Some(Err(k)) })
            },
        }
    }
}

/// Assembling statements from state `st` until the input ends or an error
/// happens: the final state and the outcome.
pub open spec fn spec_assemble(input: Seq<u8>, st: AsmState, taken: Set<u32>) -> (AsmState, Result<(), Fault>)
    decreases input.len() - st.at,
{
    let (next, done) = spec_statement(input, st, taken);
    match done {
        Some(r) => (next, r),
        None => if st.at < next.at <= input.len() {
            spec_assemble(input, next, taken)
        } else {
            (next, Ok(()))
        },
    }
}

/// Whether a function table holds what it held before (`pre`) together
/// with the functions the assembler registered.
pub open spec fn table_matches(entries: Map<u32, FuncInfo>, pre: Map<u32, FuncInfo>, reg: Map<u32, AsmFunc>) -> bool {
    &&& forall|k: u32| #[trigger] entries.contains_key(k) <==> pre.contains_key(k) || reg.contains_key(k)
    &&& forall|k: u32| #[trigger] pre.contains_key(k) ==> entries[k] == pre[k] && !reg.contains_key(k)
    &&& forall|k: u32| #[trigger] reg.contains_key(k) ==> {
        &&& entries[k].code@ == reg[k].code
        &&& entries[k].constants@ == reg[k].constants
        &&& labels_listed(entries[k].labels@, reg[k].labels)
    }
}


pub proof fn lemma_construct_var_bounds(input: Seq<u8>, at: int, t: ValueType)
    requires
        0 <= at <= input.len(),
    ensures
        at <= spec_construct_var(input, at, t).0 <= input.len(),
{
    lemma_hex_number_bounds(input, at, 2);
    lemma_hex_number_bounds(input, at, 4);
    lemma_hex_number_bounds(input, at, 8);
    lemma_hex_number_bounds(input, at, 16);
}

pub proof fn lemma_cp_bounds(input: Seq<u8>, at: int, consts: Seq<Var>)
    requires
        0 <= at <= input.len(),
    ensures
        at <= spec_cp(input, at, consts).0 <= input.len(),
    decreases input.len() - at,
{
    lemma_skip_end_bounds(input, at);
    let s1 = skip_end(input, at);
    lemma_skip_end_bounds(input, s1);
    lemma_ident_end_bounds(input, skip_end(input, s1));
    let (s, e) = spec_identifier(input, s1);
    if e != s && input.subrange(s, e) != endcp_name() {
        lemma_skip_end_bounds(input, e);
        let s3 = skip_end(input, e);
        if let Some(t) = spec_basic_type_of_name(input.subrange(s, e)) {
            lemma_skip_end_bounds(input, s3);
            let s4 = skip_end(input, s3);
            lemma_construct_var_bounds(input, s4, t);
            let (e5, r) = spec_construct_var(input, s4, t);
            if let Ok(v) = r {
                lemma_skip_end_bounds(input, e5);
                let s6 = skip_end(input, e5);
                if at < s6 <= input.len() {
                    lemma_cp_bounds(input, s6, consts.push(v));
                }
            }
        }
    }
}

/// Reads the entries of a constant pool after `cp`, appending each constant
/// to `constants`; see [`spec_cp`].
#[verifier::rlimit(60)]
#[verifier::spinoff_prover]
fn read_constant_pool(input: &[u8], at: &mut usize, cursor_pos: &mut CursorPos, constants: &mut Vec<Var>) -> (res: Result<(), AsmError>)
    requires
        *old(at) <= input@.len(),
        old(cursor_pos).wf(),
        room(*old(cursor_pos), input@.len() - *old(at)),
    ensures
        *final(at) == spec_cp(input@, *old(at) as int, old(constants)@).0,
        final(constants)@ == spec_cp(input@, *old(at) as int, old(constants)@).1,
        *final(cursor_pos) == push_all(*old(cursor_pos), input@.subrange(*old(at) as int, *final(at) as int)),
        final(cursor_pos).wf(),
        match spec_cp(input@, *old(at) as int, old(constants)@).2 {
            Ok(()) => res is Ok,
            Err(k) => res matches Err(e) && fault_at(e, k, *final(cursor_pos)),
        },
    decreases input@.len() - *old(at),
{
    let ghost start = *at as int;
    let ghost c0 = *cursor_pos;
    proof {
        lemma_skip_end_bounds(input@, start);
    }
    let _ = skip_whitespace_and_comments(input, at, cursor_pos);
    let ghost s1 = *at as int;
    proof {
        lemma_push_all(c0, input@.subrange(start, s1), input@.len() - s1);
    }
    let token_res = read_identifier(input, at, cursor_pos);
    let ghost e = *at as int;
    proof {
        lemma_skip_end_bounds(input@, s1);
        lemma_ident_end_bounds(input@, skip_end(input@, s1));
        lemma_push_all_concat(c0, input@.subrange(start, s1), input@.subrange(s1, e));
        assert(input@.subrange(start, s1) + input@.subrange(s1, e) =~= input@.subrange(start, e));
        lemma_push_all(c0, input@.subrange(start, e), input@.len() - e);
    }
    let token = match token_res {
        Ok(Some(token)) => token,
        _ => {
            return Err(AsmError::new(Error::EOFError(String::from_str("Unexpected end of constant pool")), cursor_pos));
        },
    };
    if bytes_eq(token.as_slice(), &[0x65u8, 0x6eu8, 0x64u8, 0x63u8, 0x70u8]) {
        return Ok(());
    }
    let _ = skip_whitespace_and_comments(input, at, cursor_pos);
    let ghost s3 = *at as int;
    proof {
        lemma_skip_end_bounds(input@, e);
        lemma_push_all_concat(c0, input@.subrange(start, e), input@.subrange(e, s3));
        assert(input@.subrange(start, e) + input@.subrange(e, s3) =~= input@.subrange(start, s3));
        lemma_push_all(c0, input@.subrange(start, s3), input@.len() - s3);
    }
    let type_ = match var_type_asm_to_type(token.as_slice()) {
        Ok(t) => t,
        Err(err) => {
            return Err(AsmError::new(err, cursor_pos));
        },
    };
    let _ = skip_whitespace_and_comments(input, at, cursor_pos);
    let ghost s4 = *at as int;
    proof {
        lemma_skip_end_bounds(input@, s3);
        lemma_push_all_concat(c0, input@.subrange(start, s3), input@.subrange(s3, s4));
        assert(input@.subrange(start, s3) + input@.subrange(s3, s4) =~= input@.subrange(start, s4));
        lemma_push_all(c0, input@.subrange(start, s4), input@.len() - s4);
    }
    if !is_constant_type_supported(&type_) {
        return Err(AsmError::new(Error::InvalidType(String::from_str("not yet implemented")), cursor_pos));
    }
    let var_res = construct_var_from_asm(input, at, &type_, cursor_pos);
    let ghost e5 = *at as int;
    proof {
        lemma_construct_var_bounds(input@, s4, type_);
        lemma_push_all_concat(c0, input@.subrange(start, s4), input@.subrange(s4, e5));
        assert(input@.subrange(start, s4) + input@.subrange(s4, e5) =~= input@.subrange(start, e5));
        lemma_push_all(c0, input@.subrange(start, e5), input@.len() - e5);
    }
    let var = var_res?;
    constants.push(var);
    let _ = skip_whitespace_and_comments(input, at, cursor_pos);
    let ghost s6 = *at as int;
    proof {
        lemma_skip_end_bounds(input@, e5);
        lemma_push_all_concat(c0, input@.subrange(start, e5), input@.subrange(e5, s6));
        assert(input@.subrange(start, e5) + input@.subrange(e5, s6) =~= input@.subrange(start, s6));
        lemma_push_all(c0, input@.subrange(start, s6), input@.len() - s6);
    }
    let rest = read_constant_pool(input, at, cursor_pos, constants);
    proof {
        lemma_cp_bounds(input@, s6, old(constants)@.push(var));
        lemma_push_all_concat(c0, input@.subrange(start, s6), input@.subrange(s6, *at as int));
        assert(input@.subrange(start, s6) + input@.subrange(s6, *at as int) =~= input@.subrange(start, *at as int));
    }
    rest
}

/// Counting the bytes of `input` from `a` to `b` and then from `b` to `c`
/// is counting them from `a` to `c`; the cursor stays well formed and keeps
/// room for the rest of the input.
pub proof fn lemma_push_all_join(c0: CursorPos, input: Seq<u8>, a: int, b: int, c: int)
    requires
        0 <= a <= b <= c <= input.len(),
        c0.wf(),
        room(c0, input.len() - a),
    ensures
        push_all(push_all(c0, input.subrange(a, b)), input.subrange(b, c)) == push_all(c0, input.subrange(a, c)),
        push_all(c0, input.subrange(a, c)).wf(),
        room(push_all(c0, input.subrange(a, c)), input.len() - c),
{
    lemma_push_all_concat(c0, input.subrange(a, b), input.subrange(b, c));
    assert(input.subrange(a, b) + input.subrange(b, c) =~= input.subrange(a, c));
    lemma_push_all(c0, input.subrange(a, c), input.len() - c);
}

/// A copy of a constant pool.
fn clone_constants(constants: &Vec<Var>) -> (res: Vec<Var>)
    ensures
        res@ == constants@,
{
    let mut res: Vec<Var> = Vec::new();
    let mut i: usize = 0;
    while i < constants.len()
        invariant
            i <= constants@.len(),
            res@ == constants@.subrange(0, i as int),
        decreases constants@.len() - i,
    {
        res.push(constants[i].clone());
        i = i + 1;
        proof {
            assert(res@ =~= constants@.subrange(0, i as int));
        }
    }
    proof {
        assert(constants@.subrange(0, constants@.len() as int) =~= constants@);
    }
    res
}

/// The assembler's working state: the function being assembled and its
/// bytecode so far, its constant pool and labels, and (for the proof) the
/// functions registered so far.
struct AssemblerState {
    func_opt: Option<(FuncPtr, Vec<u8>)>,
    constants: Vec<Var>,
    labels: DashMap<Vec<u8>, u64>,
    registered: Ghost<Map<u32, AsmFunc>>,
}

impl AssemblerState {
    /// The abstract state, at input position `at` with `out_pos` bytes
    /// written.
    spec fn view_at(&self, at: int, out_pos: nat) -> AsmState {
        AsmState {
            at,
            func: match self.func_opt {
                Some((p, code)) => Some((p.0, code@)),
                None => None,
            },
            constants: self.constants@,
            labels: label_table_entries(self.labels),
            out_pos,
            registered: self.registered@,
        }
    }

    fn new() -> (res: Self)
        ensures
            forall|a: int| #[trigger] res.view_at(a, 1) == asm_start(a),
    {
        let res = Self {
            func_opt: None,
            constants: Vec::with_capacity(10),
            labels: label_table_with_capacity(16),
            registered: Ghost(Map::empty()),
        };
        proof {
            assert forall|a: int| #[trigger] res.view_at(a, 1) == asm_start(a) by {
                assert(res.view_at(a, 1).labels =~= Map::<Seq<u8>, u64>::empty());
                assert(res.view_at(a, 1).registered =~= Map::<u32, AsmFunc>::empty());
            }
        }
        res
    }

    /// Starts assembling function `ptr`; refused with `Duplicated` inside
    /// another function.
    fn start_func(&mut self, ptr: FuncPtr, pos: &CursorPos) -> (res: Result<(), AsmError>)
        ensures
            old(self).func_opt is Some ==> (res matches Err(e)
                && fault_at(e, fixed_fault(ErrorCode::Duplicated, "Nested functions are not allowed"@), *pos)) && *final(self) == *old(self),
            old(self).func_opt is None ==> res is Ok && (final(self).func_opt matches Some((p, code)) && p == ptr && code@ == Seq::<u8>::empty())
                && final(self).constants@ == Seq::<Var>::empty()
                && label_table_entries(final(self).labels) == crate::tables::no_labels()
                && final(self).registered == old(self).registered,
    {
        if self.func_opt.is_some() {
            return Err(AsmError::new(Error::Duplicated(String::from_str("Nested functions are not allowed")), pos));
        }
        self.func_opt = Some((ptr, Vec::new()));
        self.constants.clear();
        label_table_clear(&mut self.labels);
        Ok(())
    }

    /// Ends the function being assembled and registers it in `env` with its
    /// constants and label positions; `SyntaxError` outside a function,
    /// `Duplicated` when `env` already has a function of that number.
    fn end_func(&mut self, env: &mut Env, pos: &CursorPos, Ghost(pre): Ghost<Map<u32, FuncInfo>>) -> (res: Result<(), AsmError>)
        requires
            table_matches(func_table_entries(old(env).funcs), pre, old(self).registered@),
        ensures
            final(env).vars == old(env).vars,
            final(env).parent == old(env).parent,
            table_matches(func_table_entries(final(env).funcs), pre, final(self).registered@),
            match old(self).func_opt {
                None => (res matches Err(e) && fault_at(e, fixed_fault(ErrorCode::SyntaxError, "Unexpected endfunc"@), *pos))
                    && final(self).view_at(0, 0) == old(self).view_at(0, 0),
                Some((k, code)) => if pre.contains_key(k.0) || old(self).registered@.contains_key(k.0) {
                    (res matches Err(e) && fault_at(e, registered_fault(k.0), *pos))
                        && final(self).view_at(0, 0) == (AsmState { func: None, ..old(self).view_at(0, 0) })
                } else {
                    res is Ok && final(self).view_at(0, 0) == (AsmState {
                        func: None,
                        constants: Seq::empty(),
                        labels: Map::empty(),
                        registered: old(self).registered@.insert(k.0, AsmFunc {
                            code: code@,
                            constants: old(self).constants@,
                            labels: label_table_entries(old(self).labels),
                        }),
                        ..old(self).view_at(0, 0)
                    })
                },
            },
    {
        let (func_ptr, bytes) = match self.func_opt.take() {
            Some(f) => f,
            None => {
                return Err(AsmError::new(Error::SyntaxError(String::from_str("Unexpected endfunc")), pos));
            },
        };
        let label_ids = label_table_positions(&self.labels);
        let constants = clone_constants(&self.constants);
        let ghost code = bytes@;
        let ghost old_entries = func_table_entries(env.funcs);
        let ghost bytes_copy = bytes;
        let ghost labels_copy = label_ids;
        let ghost constants_copy = constants;
        let registered = env.register_func(func_ptr, bytes, label_ids, constants);
        match registered {
            Ok(()) => {},
            Err(err) => {
                return Err(AsmError::new(err, pos));
            },
        }
        let ghost new_reg = self.registered@.insert(func_ptr.0, AsmFunc {
            code,
            constants: self.constants@,
            labels: label_table_entries(self.labels),
        });
        self.constants.clear();
        label_table_clear(&mut self.labels);
        self.registered = Ghost(new_reg);
        proof {
            let entries = func_table_entries(env.funcs);
            assert forall|k: u32| #[trigger] entries.contains_key(k) <==> pre.contains_key(k) || new_reg.contains_key(k) by {
                if k != func_ptr.0 {
                    assert(entries.contains_key(k) == old_entries.contains_key(k));
                }
            }
            assert forall|k: u32| #[trigger] new_reg.contains_key(k) implies {
                &&& entries[k].code@ == new_reg[k].code
                &&& entries[k].constants@ == new_reg[k].constants
                &&& labels_listed(entries[k].labels@, new_reg[k].labels)
            } by {
                if k != func_ptr.0 {
                    assert(old(self).registered@.contains_key(k));
                } else {
                    assert(entries[k] == FuncInfo { code: bytes_copy, labels: labels_copy, constants: constants_copy });
                    assert(entries[k].code@ == code);
                    assert(entries[k].constants@ == new_reg[k].constants);
                    assert(labels_listed(entries[k].labels@, new_reg[k].labels));
                }
            }
            assert(self.view_at(0, 0).labels =~= Map::<Seq<u8>, u64>::empty());
        }
        Ok(())
    }

    /// Sets the position of a label to the number of bytes written so far.
    fn define_label(&mut self, name: Vec<u8>, pos: &OutputCursorPos) -> (res: Result<(), AsmError>)
        ensures
            res is Ok,
            final(self).view_at(0, 0) == (AsmState {
                labels: label_table_entries(old(self).labels).insert(name@, pos.pos),
                ..old(self).view_at(0, 0)
            }),
    {
        let _ = label_table_insert(&mut self.labels, name, pos.pos);
        Ok(())
    }

    /// The position of a label; `OutOfIndex` for an unknown one.
    fn get_label_pos(&self, name: &[u8], pos: &CursorPos) -> (res: Result<u64, AsmError>)
        ensures
            label_table_entries(self.labels).contains_key(name@) ==> res == Ok::<u64, AsmError>(label_table_entries(self.labels)[name@]),
            !label_table_entries(self.labels).contains_key(name@) ==> (res matches Err(e)
                && fault_at(e, fixed_fault(ErrorCode::OutOfIndex, "Unknown label "@ + lossy_text_of(name@)), *pos)),
    {
        match label_table_get(&self.labels, name) {
            Some(p) => Ok(p),
            None => Err(AsmError::new(Error::OutOfIndex(String::from_str("Unknown label ").concat(lossy_text(name).as_str())), pos)),
        }
    }
}


pub proof fn lemma_le_bytes_len(v: nat, n: nat)
    ensures
        le_bytes(v, n).len() == n,
    decreases n,
{
    if n > 0 {
        lemma_le_bytes_len(v / 256, (n - 1) as nat);
    }
}

pub proof fn lemma_identifier_bounds(input: Seq<u8>, at: int)
    requires
        0 <= at <= input.len(),
    ensures
        at <= spec_identifier(input, at).0 <= spec_identifier(input, at).1 <= input.len(),
{
    lemma_skip_end_bounds(input, at);
    lemma_ident_end_bounds(input, skip_end(input, at));
}

/// An instruction reads no further than the end of the input and writes at
/// most five bytes, and one assembled without error writes at least its
/// opcode. (With [`compile_assembly_cmd`], whose output position grows by
/// exactly the bytes appended, the output position therefore always counts
/// the bytes written.)
pub proof fn lemma_assembly_cmd_bounds(id: Seq<u8>, input: Seq<u8>, at: int)
    requires
        0 <= at <= input.len(),
    ensures
        at <= spec_assembly_cmd(id, input, at).0 <= input.len(),
        spec_assembly_cmd(id, input, at).1.len() <= 5,
        spec_assembly_cmd(id, input, at).2 is Ok ==> spec_assembly_cmd(id, input, at).1.len() >= 1,
{
    lemma_hex_number_bounds(input, at, 2);
    lemma_hex_number_bounds(input, at, 4);
    lemma_hex_number_bounds(input, at, 8);
    lemma_identifier_bounds(input, at);
    lemma_le_bytes_len(0, 0);
    let e1 = spec_hex_number(input, at, 4).0;
    lemma_hex_number_bounds(input, e1, 4);
    let e = spec_identifier(input, at).1;
    lemma_hex_number_bounds(input, e, 4);
    if let Ok(v) = spec_hex_number(input, at, 2).1 { lemma_le_bytes_len(v, 1); }
    if let Ok(v) = spec_hex_number(input, at, 4).1 { lemma_le_bytes_len(v, 2); }
    if let Ok(v) = spec_hex_number(input, at, 8).1 { lemma_le_bytes_len(v, 4); }
    if let Ok(v) = spec_hex_number(input, e1, 4).1 { lemma_le_bytes_len(v, 2); }
    if let Ok(v) = spec_hex_number(input, e, 4).1 { lemma_le_bytes_len(v, 2); }
}

/// Assembles one statement; see [`spec_statement`]. Returns whether to go
/// on.
#[verifier::rlimit(100)]
#[verifier::spinoff_prover]
fn assemble_statement(
    input: &[u8],
    at: &mut usize,
    env: &mut Env,
    cursor_pos: &mut CursorPos,
    state: &mut AssemblerState,
    output_pos: &mut OutputCursorPos,
    Ghost(pre): Ghost<Map<u32, FuncInfo>>,
) -> (res: Result<bool, AsmError>)
    requires
        *old(at) <= input@.len(),
        old(cursor_pos).wf(),
        room(*old(cursor_pos), input@.len() - *old(at)),
        old(output_pos).pos <= 9 * *old(at) + 1,
        9 * input@.len() + 17 <= u64::MAX,
        table_matches(func_table_entries(old(env).funcs), pre, old(state).registered@),
    ensures
        final(state).view_at(*final(at) as int, final(output_pos).pos as nat)
            == spec_statement(input@, old(state).view_at(*old(at) as int, old(output_pos).pos as nat), pre.dom()).0,
        match spec_statement(input@, old(state).view_at(*old(at) as int, old(output_pos).pos as nat), pre.dom()).1 {
            None => res == Ok::<bool, AsmError>(true),
            Some(Ok(())) => res == Ok::<bool, AsmError>(false),
            Some(Err(k)) => res matches Err(e) && fault_at(e, k, *final(cursor_pos)),
        },
        *old(at) <= *final(at) <= input@.len(),
        *final(cursor_pos) == push_all(*old(cursor_pos), input@.subrange(*old(at) as int, *final(at) as int)),
        final(cursor_pos).wf(),
        room(*final(cursor_pos), input@.len() - *final(at)),
        table_matches(func_table_entries(final(env).funcs), pre, final(state).registered@),
        final(env).vars == old(env).vars,
        final(env).parent == old(env).parent,
        res == Ok::<bool, AsmError>(true) ==> *old(at) < *final(at) && final(output_pos).pos <= 9 * *final(at) + 1,
{
    let ghost at0 = *at as int;
    let ghost c0 = *cursor_pos;
    let ghost next = spec_statement(input@, state.view_at(at0, output_pos.pos as nat), pre.dom()).0;
    let _ = skip_whitespace_and_comments(input, at, cursor_pos);
    let ghost s0 = *at as int;
    proof {
        lemma_skip_end_bounds(input@, at0);
        lemma_push_all(c0, input@.subrange(at0, s0), input@.len() - s0);
    }
    let id_res = read_identifier(input, at, cursor_pos);
    let ghost e = *at as int;
    proof {
        lemma_identifier_bounds(input@, s0);
        lemma_push_all_join(c0, input@, at0, s0, e);
    }
    let id = match id_res {
        Ok(Some(id)) => id,
        _ => {
            if state.func_opt.is_none() {
                return Ok(false);
            }
            return Err(AsmError::new(Error::EOFError(String::from_str("Unexpected EOF when reading cmd identifier")), cursor_pos));
        },
    };
    if bytes_eq(id.as_slice(), &[0x66u8, 0x75u8, 0x6eu8, 0x63u8]) {
        let v_res = hex_to_u32(input, at, cursor_pos);
        proof {
            lemma_hex_number_bounds(input@, e, 8);
            lemma_push_all_join(c0, input@, at0, e, *at as int);
        }
        let v = v_res?;
        state.start_func(FuncPtr(v), cursor_pos)?;
        proof {
            assert(state.view_at(0, 0).labels =~= Map::<Seq<u8>, u64>::empty());
        }
        assert(state.view_at(*at as int, output_pos.pos as nat) == next);
        Ok(true)
    } else if bytes_eq(id.as_slice(), &[0x65u8, 0x6eu8, 0x64u8, 0x66u8, 0x75u8, 0x6eu8, 0x63u8]) {
        state.end_func(env, cursor_pos, Ghost(pre))?;
        assert(state.view_at(*at as int, output_pos.pos as nat) == next);
        Ok(true)
    } else if bytes_eq(id.as_slice(), &[0x6cu8, 0x61u8, 0x62u8, 0x65u8, 0x6cu8]) {
        let name_res = read_identifier(input, at, cursor_pos);
        proof {
            lemma_identifier_bounds(input@, e);
            lemma_push_all_join(c0, input@, at0, e, *at as int);
        }
        let name = match name_res {
            Ok(Some(name)) => name,
            _ => {
                return Err(AsmError::new(Error::EOFError(String::from_str("Unexpected EOF when reading label id")), cursor_pos));
            },
        };
        state.define_label(name, output_pos)?;
        assert(state.view_at(*at as int, output_pos.pos as nat) == next);
        Ok(true)
    } else if bytes_eq(id.as_slice(), &[0x6au8, 0x6du8, 0x70u8]) {
        let name_res = read_identifier(input, at, cursor_pos);
        proof {
            lemma_identifier_bounds(input@, e);
            lemma_push_all_join(c0, input@, at0, e, *at as int);
        }
        let name = match name_res {
            Ok(Some(name)) => name,
            _ => {
                return Err(AsmError::new(Error::EOFError(String::from_str("Missing label after jmp")), cursor_pos));
            },
        };
        let label_pos = state.get_label_pos(name.as_slice(), cursor_pos)?;
        match state.func_opt.take() {
            None => Err(AsmError::new(Error::SyntaxError(String::from_str("jmp outside function")), cursor_pos)),
            Some((k, code)) => {
                let mut code = code;
                let ghost code0 = code@;
                let mut operand: Vec<u8> = Vec::new();
                push_le(&mut operand, label_pos, 8);
                let opcode: [u8; 1] = [cmd_u8::JMP];
                proof {
                    assert(opcode@ =~= seq![13u8]);
                    assert(operand@ =~= le_bytes(label_pos as nat, 8));
                }
                output_pos.write_all(&mut code, &opcode, cursor_pos)?;
                output_pos.write_all(&mut code, operand.as_slice(), cursor_pos)?;
                proof {
                    assert(code@ =~= code0 + seq![13u8] + le_bytes(label_pos as nat, 8));
                }
                state.func_opt = Some((k, code));
                assert(state.view_at(*at as int, output_pos.pos as nat) == next);
                Ok(true)
            },
        }
    } else if bytes_eq(id.as_slice(), &[0x63u8, 0x70u8]) {
        let r = read_constant_pool(input, at, cursor_pos, &mut state.constants);
        proof {
            lemma_cp_bounds(input@, e, old(state).constants@);
            lemma_push_all_join(c0, input@, at0, e, *at as int);
        }
        r?;
        assert(state.view_at(*at as int, output_pos.pos as nat) == next);
        Ok(true)
    } else if bytes_eq(id.as_slice(), &[0x65u8, 0x6eu8, 0x64u8, 0x63u8, 0x70u8]) {
        Err(AsmError::new(Error::SyntaxError(String::from_str("endcp is invalid outside constant pools")), cursor_pos))
    } else {
        match state.func_opt.take() {
            None => {
                let m = String::from_str("Statement ").concat(lossy_text(id.as_slice()).as_str()).concat(" must be in a function");
                Err(AsmError::new(Error::SyntaxError(m), cursor_pos))
            },
            Some((k, code)) => {
                let mut code = code;
                let r = compile_assembly_cmd(id.as_slice(), input, at, &mut code, cursor_pos, output_pos);
                proof {
                    lemma_assembly_cmd_bounds(id@, input@, e);
                    lemma_push_all_join(c0, input@, at0, e, *at as int);
                }
                state.func_opt = Some((k, code));
                r?;
                assert(state.view_at(*at as int, output_pos.pos as nat) == next);
                Ok(true)
            },
        }
    }
}

/// Assembles the statements of `input` from `*at` to the end or the first
/// error, registering each function in `env`; see [`spec_assemble`]. The
/// functions registered come on top of those `env` already had; the label
/// positions of each are listed in an order left open.
#[verifier::rlimit(40)]
#[verifier::spinoff_prover]
pub fn compile_assembly(input: &[u8], at: &mut usize, env: &mut Env, cursor_pos: &mut CursorPos) -> (res: Result<(), AsmError>)
    requires
        *old(at) <= input@.len(),
        old(cursor_pos).wf(),
        room(*old(cursor_pos), input@.len() - *old(at)),
        9 * input@.len() + 17 <= u64::MAX,
    ensures
        *final(at) == spec_assemble(input@, asm_start(*old(at) as int), func_table_entries(old(env).funcs).dom()).0.at,
        *final(cursor_pos) == push_all(*old(cursor_pos), input@.subrange(*old(at) as int, *final(at) as int)),
        final(cursor_pos).wf(),
        table_matches(
            func_table_entries(final(env).funcs),
            func_table_entries(old(env).funcs),
            spec_assemble(input@, asm_start(*old(at) as int), func_table_entries(old(env).funcs).dom()).0.registered,
        ),
        final(env).vars == old(env).vars,
        final(env).parent == old(env).parent,
        match spec_assemble(input@, asm_start(*old(at) as int), func_table_entries(old(env).funcs).dom()).1 {
            Ok(()) => res is Ok,
            Err(k) => res matches Err(e) && fault_at(e, k, *final(cursor_pos)),
        },
{
    let ghost pre = func_table_entries(env.funcs);
    let ghost at0 = *at as int;
    let ghost c0 = *cursor_pos;
    let mut state = AssemblerState::new();
    let mut output_pos = OutputCursorPos::new();
    proof {
        assert(state.view_at(at0, 1) == asm_start(at0));
        assert(input@.subrange(at0, at0) =~= Seq::<u8>::empty());
        assert forall|k: u32| #[trigger] pre.contains_key(k) implies func_table_entries(env.funcs)[k] == pre[k]
            && !state.registered@.contains_key(k) by {}
    }
    loop
        invariant
            at0 == *old(at) as int,
            c0 == *old(cursor_pos),
            pre == func_table_entries(old(env).funcs),
            at0 <= *at <= input@.len(),
            9 * input@.len() + 17 <= u64::MAX,
            output_pos.pos <= 9 * *at + 1,
            spec_assemble(input@, state.view_at(*at as int, output_pos.pos as nat), pre.dom())
                == spec_assemble(input@, asm_start(at0), pre.dom()),
            *cursor_pos == push_all(c0, input@.subrange(at0, *at as int)),
            cursor_pos.wf(),
            room(*cursor_pos, input@.len() - *at),
            table_matches(func_table_entries(env.funcs), pre, state.registered@),
            env.vars == old(env).vars,
            env.parent == old(env).parent,
        decreases input@.len() - *at,
    {
        let ghost at1 = *at as int;
        let ghost c1 = *cursor_pos;
        let r = assemble_statement(input, at, env, cursor_pos, &mut state, &mut output_pos, Ghost(pre));
        proof {
            lemma_push_all_concat(c0, input@.subrange(at0, at1), input@.subrange(at1, *at as int));
            assert(input@.subrange(at0, at1) + input@.subrange(at1, *at as int) =~= input@.subrange(at0, *at as int));
        }
        match r {
            Ok(true) => {},
            Ok(false) => {
                return Ok(());
            },
            Err(e) => {
                return Err(e);
            },
        }
    }
}

} // verus!
