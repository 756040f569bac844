//! The instructions of the interpreter. Each reads its operands from the
//! bytecode at `*at` and acts on the operand stack, the current environment
//! and the memory pool; errors carry the cursor where they happened.
use vstd::prelude::*;
use vstd::string::*;
use crate::env::{Env, Pos, spec_get_var, spec_set_var_value, spec_insert_slot, spec_slot_at, spec_drop_var};
use crate::exceptions::{Error, ErrorCode, spec_error_kind, spec_message};
use crate::memory::{MemoryPool, PoolView, spec_alloc, spec_set, spec_dealloc};
use crate::parser::exec::{CursorPos, ExecError, ok_or_err};
use crate::text::numbered_then;
use crate::parser::utils::{short_read_text, le_value, read_bin_to_u8, read_bin_to_u16, read_bin_to_u32, read_bin_to_u64};
use crate::value::{int_of, type_of_var, debug_text, debug_type_text, Var, ValueType, VarId, TypedPtr, ValueSlot, get_type_from_bin, bin_type_supported,
    spec_type_from_bin, spec_type_bin_end, lemma_type_bin_end_bounds};

verus! {

/// The binary operators of the instruction set.
#[derive(Debug, Clone, Copy, PartialEq, Eq)]
pub enum BinOp {
    Add,
    Sub,
    Mul,
    Div,
    Mod,
    Shl,
    Shr,
    BitOr,
    BitAnd,
    BitXor,
}

/// Whether floating-point operands take the operator: the four arithmetic
/// ones do.
pub open spec fn takes_floats(op: BinOp) -> bool {
    op is Add || op is Sub || op is Mul || op is Div
}

/// `x op y` on `u8` as Rust computes it with overflow checks; `None` where
/// it overflows, divides by zero or shifts by `8` bits or more.
pub open spec fn spec_op_u8(op: BinOp, x: u8, y: u8) -> Option<u8> {
    match op {
        BinOp::Add => x.checked_add(y),
        BinOp::Sub => x.checked_sub(y),
        BinOp::Mul => x.checked_mul(y),
        BinOp::Div => x.checked_div(y),
        BinOp::Mod => x.checked_rem(y),
        BinOp::Shl => if y < 8 { Some(x.wrapping_shl(y as u32)) } else { None },
        BinOp::Shr => if y < 8 { Some(x.wrapping_shr(y as u32)) } else { None },
        BinOp::BitOr => Some(x | y),
        BinOp::BitAnd => Some(x & y),
        BinOp::BitXor => Some(x ^ y),
    }
}

fn op_u8(op: BinOp, x: u8, y: u8) -> (res: Option<u8>)
    ensures
        res == spec_op_u8(op, x, y),
{
    match op {
        BinOp::Add => x.checked_add(y),
        BinOp::Sub => x.checked_sub(y),
        BinOp::Mul => x.checked_mul(y),
        BinOp::Div => x.checked_div(y),
        BinOp::Mod => x.checked_rem(y),
        BinOp::Shl => if y < 8 { Some(x.wrapping_shl(y as u32)) } else { None },
        BinOp::Shr => if y < 8 { Some(x.wrapping_shr(y as u32)) } else { None },
        BinOp::BitOr => Some(x | y),
        BinOp::BitAnd => Some(x & y),
        BinOp::BitXor => Some(x ^ y),
    }
}

/// `x op y` on `u16` as Rust computes it with overflow checks; `None` where
/// it overflows, divides by zero or shifts by `16` bits or more.
pub open spec fn spec_op_u16(op: BinOp, x: u16, y: u16) -> Option<u16> {
    match op {
        BinOp::Add => x.checked_add(y),
        BinOp::Sub => x.checked_sub(y),
        BinOp::Mul => x.checked_mul(y),
        BinOp::Div => x.checked_div(y),
        BinOp::Mod => x.checked_rem(y),
        BinOp::Shl => if y < 16 { Some(x.wrapping_shl(y as u32)) } else { None },
        BinOp::Shr => if y < 16 { Some(x.wrapping_shr(y as u32)) } else { None },
        BinOp::BitOr => Some(x | y),
        BinOp::BitAnd => Some(x & y),
        BinOp::BitXor => Some(x ^ y),
    }
}

fn op_u16(op: BinOp, x: u16, y: u16) -> (res: Option<u16>)
    ensures
        res == spec_op_u16(op, x, y),
{
    match op {
        BinOp::Add => x.checked_add(y),
        BinOp::Sub => x.checked_sub(y),
        BinOp::Mul => x.checked_mul(y),
        BinOp::Div => x.checked_div(y),
        BinOp::Mod => x.checked_rem(y),
        BinOp::Shl => if y < 16 { Some(x.wrapping_shl(y as u32)) } else { None },
        BinOp::Shr => if y < 16 { Some(x.wrapping_shr(y as u32)) } else { None },
        BinOp::BitOr => Some(x | y),
        BinOp::BitAnd => Some(x & y),
        BinOp::BitXor => Some(x ^ y),
    }
}

/// `x op y` on `u32` as Rust computes it with overflow checks; `None` where
/// it overflows, divides by zero or shifts by `32` bits or more.
pub open spec fn spec_op_u32(op: BinOp, x: u32, y: u32) -> Option<u32> {
    match op {
        BinOp::Add => x.checked_add(y),
        BinOp::Sub => x.checked_sub(y),
        BinOp::Mul => x.checked_mul(y),
        BinOp::Div => x.checked_div(y),
        BinOp::Mod => x.checked_rem(y),
        BinOp::Shl => if y < 32 { Some(x.wrapping_shl(y as u32)) } else { None },
        BinOp::Shr => if y < 32 { Some(x.wrapping_shr(y as u32)) } else { None },
        BinOp::BitOr => Some(x | y),
        BinOp::BitAnd => Some(x & y),
        BinOp::BitXor => Some(x ^ y),
    }
}

fn op_u32(op: BinOp, x: u32, y: u32) -> (res: Option<u32>)
    ensures
        res == spec_op_u32(op, x, y),
{
    match op {
        BinOp::Add => x.checked_add(y),
        BinOp::Sub => x.checked_sub(y),
        BinOp::Mul => x.checked_mul(y),
        BinOp::Div => x.checked_div(y),
        BinOp::Mod => x.checked_rem(y),
        BinOp::Shl => if y < 32 { Some(x.wrapping_shl(y as u32)) } else { None },
        BinOp::Shr => if y < 32 { Some(x.wrapping_shr(y as u32)) } else { None },
        BinOp::BitOr => Some(x | y),
        BinOp::BitAnd => Some(x & y),
        BinOp::BitXor => Some(x ^ y),
    }
}

/// `x op y` on `u64` as Rust computes it with overflow checks; `None` where
/// it overflows, divides by zero or shifts by `64` bits or more.
pub open spec fn spec_op_u64(op: BinOp, x: u64, y: u64) -> Option<u64> {
    match op {
        BinOp::Add => x.checked_add(y),
        BinOp::Sub => x.checked_sub(y),
        BinOp::Mul => x.checked_mul(y),
        BinOp::Div => x.checked_div(y),
        BinOp::Mod => x.checked_rem(y),
        BinOp::Shl => if y < 64 { Some(x.wrapping_shl(y as u32)) } else { None },
        BinOp::Shr => if y < 64 { Some(x.wrapping_shr(y as u32)) } else { None },
        BinOp::BitOr => Some(x | y),
        BinOp::BitAnd => Some(x & y),
        BinOp::BitXor => Some(x ^ y),
    }
}

fn op_u64(op: BinOp, x: u64, y: u64) -> (res: Option<u64>)
    ensures
        res == spec_op_u64(op, x, y),
{
    match op {
        BinOp::Add => x.checked_add(y),
        BinOp::Sub => x.checked_sub(y),
        BinOp::Mul => x.checked_mul(y),
        BinOp::Div => x.checked_div(y),
        BinOp::Mod => x.checked_rem(y),
        BinOp::Shl => if y < 64 { Some(x.wrapping_shl(y as u32)) } else { None },
        BinOp::Shr => if y < 64 { Some(x.wrapping_shr(y as u32)) } else { None },
        BinOp::BitOr => Some(x | y),
        BinOp::BitAnd => Some(x & y),
        BinOp::BitXor => Some(x ^ y),
    }
}

/// `x op y` on `i8` as Rust computes it with overflow checks; `None` where
/// it overflows, divides by zero or shifts by `8` bits or more.
pub open spec fn spec_op_i8(op: BinOp, x: i8, y: i8) -> Option<i8> {
    match op {
        BinOp::Add => x.checked_add(y),
        BinOp::Sub => x.checked_sub(y),
        BinOp::Mul => x.checked_mul(y),
        BinOp::Div => x.checked_div(y),
        BinOp::Mod => x.checked_rem(y),
        BinOp::Shl => if 0 <= y < 8 { Some(x.wrapping_shl(y as u32)) } else { None },
        BinOp::Shr => if 0 <= y < 8 { Some(x.wrapping_shr(y as u32)) } else { None },
        BinOp::BitOr => Some(x | y),
        BinOp::BitAnd => Some(x & y),
        BinOp::BitXor => Some(x ^ y),
    }
}

fn op_i8(op: BinOp, x: i8, y: i8) -> (res: Option<i8>)
    ensures
        res == spec_op_i8(op, x, y),
{
    match op {
        BinOp::Add => x.checked_add(y),
        BinOp::Sub => x.checked_sub(y),
        BinOp::Mul => x.checked_mul(y),
        BinOp::Div => x.checked_div(y),
        BinOp::Mod => x.checked_rem(y),
        BinOp::Shl => if 0 <= y && y < 8 { Some(x.wrapping_shl(y as u32)) } else { None },
        BinOp::Shr => if 0 <= y && y < 8 { Some(x.wrapping_shr(y as u32)) } else { None },
        BinOp::BitOr => Some(x | y),
        BinOp::BitAnd => Some(x & y),
        BinOp::BitXor => Some(x ^ y),
    }
}

/// `x op y` on `i16` as Rust computes it with overflow checks; `None` where
/// it overflows, divides by zero or shifts by `16` bits or more.
pub open spec fn spec_op_i16(op: BinOp, x: i16, y: i16) -> Option<i16> {
    match op {
        BinOp::Add => x.checked_add(y),
        BinOp::Sub => x.checked_sub(y),
        BinOp::Mul => x.checked_mul(y),
        BinOp::Div => x.checked_div(y),
        BinOp::Mod => x.checked_rem(y),
        BinOp::Shl => if 0 <= y < 16 { Some(x.wrapping_shl(y as u32)) } else { None },
        BinOp::Shr => if 0 <= y < 16 { Some(x.wrapping_shr(y as u32)) } else { None },
        BinOp::BitOr => Some(x | y),
        BinOp::BitAnd => Some(x & y),
        BinOp::BitXor => Some(x ^ y),
    }
}

fn op_i16(op: BinOp, x: i16, y: i16) -> (res: Option<i16>)
    ensures
        res == spec_op_i16(op, x, y),
{
    match op {
        BinOp::Add => x.checked_add(y),
        BinOp::Sub => x.checked_sub(y),
        BinOp::Mul => x.checked_mul(y),
        BinOp::Div => x.checked_div(y),
        BinOp::Mod => x.checked_rem(y),
        BinOp::Shl => if 0 <= y && y < 16 { Some(x.wrapping_shl(y as u32)) } else { None },
        BinOp::Shr => if 0 <= y && y < 16 { Some(x.wrapping_shr(y as u32)) } else { None },
        BinOp::BitOr => Some(x | y),
        BinOp::BitAnd => Some(x & y),
        BinOp::BitXor => Some(x ^ y),
    }
}

/// `x op y` on `i32` as Rust computes it with overflow checks; `None` where
/// it overflows, divides by zero or shifts by `32` bits or more.
pub open spec fn spec_op_i32(op: BinOp, x: i32, y: i32) -> Option<i32> {
    match op {
        BinOp::Add => x.checked_add(y),
        BinOp::Sub => x.checked_sub(y),
        BinOp::Mul => x.checked_mul(y),
        BinOp::Div => x.checked_div(y),
        BinOp::Mod => x.checked_rem(y),
        BinOp::Shl => if 0 <= y < 32 { Some(x.wrapping_shl(y as u32)) } else { None },
        BinOp::Shr => if 0 <= y < 32 { Some(x.wrapping_shr(y as u32)) } else { None },
        BinOp::BitOr => Some(x | y),
        BinOp::BitAnd => Some(x & y),
        BinOp::BitXor => Some(x ^ y),
    }
}

fn op_i32(op: BinOp, x: i32, y: i32) -> (res: Option<i32>)
    ensures
        res == spec_op_i32(op, x, y),
{
    match op {
        BinOp::Add => x.checked_add(y),
        BinOp::Sub => x.checked_sub(y),
        BinOp::Mul => x.checked_mul(y),
        BinOp::Div => x.checked_div(y),
        BinOp::Mod => x.checked_rem(y),
        BinOp::Shl => if 0 <= y && y < 32 { Some(x.wrapping_shl(y as u32)) } else { None },
        BinOp::Shr => if 0 <= y && y < 32 { Some(x.wrapping_shr(y as u32)) } else { None },
        BinOp::BitOr => Some(x | y),
        BinOp::BitAnd => Some(x & y),
        BinOp::BitXor => Some(x ^ y),
    }
}

/// `x op y` on `i64` as Rust computes it with overflow checks; `None` where
/// it overflows, divides by zero or shifts by `64` bits or more.
pub open spec fn spec_op_i64(op: BinOp, x: i64, y: i64) -> Option<i64> {
    match op {
        BinOp::Add => x.checked_add(y),
        BinOp::Sub => x.checked_sub(y),
        BinOp::Mul => x.checked_mul(y),
        BinOp::Div => x.checked_div(y),
        BinOp::Mod => x.checked_rem(y),
        BinOp::Shl => if 0 <= y < 64 { Some(x.wrapping_shl(y as u32)) } else { None },
        BinOp::Shr => if 0 <= y < 64 { Some(x.wrapping_shr(y as u32)) } else { None },
        BinOp::BitOr => Some(x | y),
        BinOp::BitAnd => Some(x & y),
        BinOp::BitXor => Some(x ^ y),
    }
}

fn op_i64(op: BinOp, x: i64, y: i64) -> (res: Option<i64>)
    ensures
        res == spec_op_i64(op, x, y),
{
    match op {
        BinOp::Add => x.checked_add(y),
        BinOp::Sub => x.checked_sub(y),
        BinOp::Mul => x.checked_mul(y),
        BinOp::Div => x.checked_div(y),
        BinOp::Mod => x.checked_rem(y),
        BinOp::Shl => if 0 <= y && y < 64 { Some(x.wrapping_shl(y as u32)) } else { None },
        BinOp::Shr => if 0 <= y && y < 64 { Some(x.wrapping_shr(y as u32)) } else { None },
        BinOp::BitOr => Some(x | y),
        BinOp::BitAnd => Some(x & y),
        BinOp::BitXor => Some(x ^ y),
    }
}

/// What a binary operator makes of its two operands.
pub enum BinOutcome {
    /// The result.
    Value(Var),
    /// Two floating-point operands of the same width: the arithmetic is done
    /// outside the library.
    Float,
    /// Integer operands of the same type whose operation overflows: Rust's
    /// checked arithmetic panics here.
    Overflow,
    /// Operands of different types, or of a type the operator does not take.
    Mismatch,
}

pub open spec fn int_outcome<T>(r: Option<T>, wrap: spec_fn(T) -> Var) -> BinOutcome {
    match r {
        Some(v) => BinOutcome::Value(wrap(v)),
        None => BinOutcome::Overflow,
    }
}

/// `src1 op src2`, where `src1` was the top of the operand stack.
pub open spec fn spec_binary(op: BinOp, src1: Var, src2: Var) -> BinOutcome {
    match (src1, src2) {
        (Var::U8(x), Var::U8(y)) => int_outcome(spec_op_u8(op, x, y), |v: u8| Var::U8(v)),
        (Var::U16(x), Var::U16(y)) => int_outcome(spec_op_u16(op, x, y), |v: u16| Var::U16(v)),
        (Var::U32(x), Var::U32(y)) => int_outcome(spec_op_u32(op, x, y), |v: u32| Var::U32(v)),
        (Var::U64(x), Var::U64(y)) => int_outcome(spec_op_u64(op, x, y), |v: u64| Var::U64(v)),
        (Var::I8(x), Var::I8(y)) => int_outcome(spec_op_i8(op, x, y), |v: i8| Var::I8(v)),
        (Var::I16(x), Var::I16(y)) => int_outcome(spec_op_i16(op, x, y), |v: i16| Var::I16(v)),
        (Var::I32(x), Var::I32(y)) => int_outcome(spec_op_i32(op, x, y), |v: i32| Var::I32(v)),
        (Var::I64(x), Var::I64(y)) => int_outcome(spec_op_i64(op, x, y), |v: i64| Var::I64(v)),
        (Var::F32(_), Var::F32(_)) => if takes_floats(op) { BinOutcome::Float } else { BinOutcome::Mismatch },
        (Var::F64(_), Var::F64(_)) => if takes_floats(op) { BinOutcome::Float } else { BinOutcome::Mismatch },
        _ => BinOutcome::Mismatch,
    }
}

/// Computes `src1 op src2` on integers; `None` for floating-point operands
/// and for operands the operator does not take.
pub(crate) fn int_binary(op: BinOp, src1: &Var, src2: &Var) -> (res: Option<Option<Var>>)
    ensures
        match spec_binary(op, *src1, *src2) {
            BinOutcome::Value(v) => res == Some(Some(v)),
            BinOutcome::Overflow => res == Some(None::<Var>),
            _ => res is None,
        },
{
    match (src1, src2) {
        (Var::U8(x), Var::U8(y)) => Some(match op_u8(op, *x, *y) { Some(v) => Some(Var::U8(v)), None => None }),
        (Var::U16(x), Var::U16(y)) => Some(match op_u16(op, *x, *y) { Some(v) => Some(Var::U16(v)), None => None }),
        (Var::U32(x), Var::U32(y)) => Some(match op_u32(op, *x, *y) { Some(v) => Some(Var::U32(v)), None => None }),
        (Var::U64(x), Var::U64(y)) => Some(match op_u64(op, *x, *y) { Some(v) => Some(Var::U64(v)), None => None }),
        (Var::I8(x), Var::I8(y)) => Some(match op_i8(op, *x, *y) { Some(v) => Some(Var::I8(v)), None => None }),
        (Var::I16(x), Var::I16(y)) => Some(match op_i16(op, *x, *y) { Some(v) => Some(Var::I16(v)), None => None }),
        (Var::I32(x), Var::I32(y)) => Some(match op_i32(op, *x, *y) { Some(v) => Some(Var::I32(v)), None => None }),
        (Var::I64(x), Var::I64(y)) => Some(match op_i64(op, *x, *y) { Some(v) => Some(Var::I64(v)), None => None }),
        _ => None,
    }
}

/// A floating-point operation left to the caller: `lhs op rhs` on two values
/// of the same width, each held as its bit pattern.
#[derive(Debug)]
pub struct FloatRequest {
    pub op: BinOp,
    pub lhs: Var,
    pub rhs: Var,
}

/// How an instruction that did not fail goes on.
pub enum Flow {
    /// With the next instruction.
    Next,
    /// The caller computes a floating-point result and pushes it.
    Float(FloatRequest),
    /// The function returns this value.
    Return(Var),
    /// The function with this number is called.
    Call(u32),
}

/// The kind of a result of an instruction: how it goes on, or the kind of
/// its error.
pub open spec fn flow_of(r: Result<(), ExecError>) -> Result<Flow, ErrorCode> {
    match r {
        Ok(()) => Ok(Flow::Next),
        Err(e) => Err(spec_error_kind(e.error)),
    }
}

/// An error result carries the cursor `c`.
pub open spec fn err_at<T>(r: Result<T, ExecError>, c: CursorPos) -> bool {
    r matches Err(e) ==> e.pos == c
}

/// A result of the memory pool or the environment as an instruction's
/// outcome.
pub open spec fn lift(r: Result<(), ErrorCode>) -> Result<Flow, ErrorCode> {
    match r {
        Ok(()) => Ok(Flow::Next),
        Err(k) => Err(k),
    }
}

/// The cursor moved on by `n` bytes.
pub open spec fn advance(c: CursorPos, n: int) -> CursorPos {
    CursorPos { pos: (c.pos + n) as usize, func: c.func }
}

/// Room for the cursor to count every byte left, twice: positions cannot
/// overflow while the code is read.
pub open spec fn cursor_room(len: int, at: int, pos: int) -> bool {
    at < len ==> pos + 2 * (len - at) <= usize::MAX
}

/// Reading an operand of `n` bytes at `at`: the position and cursor after
/// it and its little-endian value, or the end of the code, the cursor as it
/// was, and `None` when it does not fit.
pub open spec fn read_at(code: Seq<u8>, at: int, c: CursorPos, n: int) -> (int, CursorPos, Option<nat>) {
    if at + n <= code.len() {
        (at + n, advance(c, n), Some(le_value(code.subrange(at, at + n))))
    } else {
        (code.len() as int, c, None)
    }
}

/// A binary instruction on the operand stack: `src1` is popped, then
/// `src2`, and `src1 op src2` is pushed; too few operands are `OutOfIndex`,
/// operands the operator does not take `InvalidType`.
pub open spec fn spec_binary_instr(op: BinOp, stack: Seq<Var>) -> (Seq<Var>, Result<Flow, ErrorCode>) {
    let n = stack.len();
    if n == 0 {
        (stack, Err(ErrorCode::OutOfIndex))
    } else if n == 1 {
        (Seq::empty(), Err(ErrorCode::OutOfIndex))
    } else {
        let src1 = stack[n - 1];
        let src2 = stack[n - 2];
        let rest = stack.subrange(0, n - 2);
        match spec_binary(op, src1, src2) {
            BinOutcome::Value(v) => (rest.push(v), Ok(Flow::Next)),
            BinOutcome::Float => (rest, Ok(Flow::Float(FloatRequest { op, lhs: src1, rhs: src2 }))),
            _ => (rest, Err(ErrorCode::InvalidType)),
        }
    }
}

/// Whether a binary instruction overflows, where Rust's checked arithmetic
/// panics.
pub open spec fn binary_overflows(op: BinOp, stack: Seq<Var>) -> bool {
    stack.len() >= 2 && spec_binary(op, stack[stack.len() - 1], stack[stack.len() - 2]) is Overflow
}

/// The kind of a binary instruction's result.
pub open spec fn binary_flow(r: Result<Option<FloatRequest>, ExecError>) -> Result<Flow, ErrorCode> {
    match r {
        Ok(None) => Ok(Flow::Next),
        Ok(Some(req)) => Ok(Flow::Float(req)),
        Err(e) => Err(spec_error_kind(e.error)),
    }
}

/// The name of an operator in messages.
pub open spec fn spec_op_name(op: BinOp) -> Seq<char> {
    match op {
        BinOp::Add => "ADD"@,
        BinOp::Sub => "SUB"@,
        BinOp::Mul => "MUL"@,
        BinOp::Div => "DIV"@,
        BinOp::Mod => "MOD"@,
        BinOp::Shl => "SHL"@,
        BinOp::Shr => "SHR"@,
        BinOp::BitOr => "BITOR"@,
        BinOp::BitAnd => "BITAND"@,
        BinOp::BitXor => "BITXOR"@,
    }
}

fn op_name(op: BinOp) -> (res: &'static str)
    ensures
        res@ == spec_op_name(op),
{
    match op {
        BinOp::Add => "ADD",
        BinOp::Sub => "SUB",
        BinOp::Mul => "MUL",
        BinOp::Div => "DIV",
        BinOp::Mod => "MOD",
        BinOp::Shl => "SHL",
        BinOp::Shr => "SHR",
        BinOp::BitOr => "BITOR",
        BinOp::BitAnd => "BITAND",
        BinOp::BitXor => "BITXOR",
    }
}

/// The message of a failed binary instruction: which operand was missing,
/// or, for operands the operator does not take, a sentence that quotes
/// both (in their `Debug` rendering, which is not stated here).
pub open spec fn binary_error_text(op: BinOp, stack: Seq<Var>, text: Seq<char>) -> bool {
    if stack.len() == 0 {
        text == "("@ + spec_op_name(op) + " src1) operand stack underflow"@
    } else if stack.len() == 1 {
        text == "("@ + spec_op_name(op) + " src2) operand stack underflow"@
    } else {
        exists|a: Seq<char>, b: Seq<char>| #![trigger a + b]
            text == "("@ + spec_op_name(op) + ") Type '"@ + a + "' and type '"@ + b + "' doesn't support this operator"@
    }
}

/// Runs a binary instruction; see [`spec_binary_instr`]. Floating-point
/// operands are popped and handed back as a request.
pub fn binary(op: BinOp, operand_stack: &mut Vec<Var>, cursor: &mut CursorPos) -> (res: Result<Option<FloatRequest>, ExecError>)
    requires
        !binary_overflows(op, old(operand_stack)@),
    ensures
        (final(operand_stack)@, binary_flow(res)) == spec_binary_instr(op, old(operand_stack)@),
        err_at(res, *old(cursor)),
        res matches Err(e) ==> binary_error_text(op, old(operand_stack)@, spec_message(e.error)@),
        *final(cursor) == *old(cursor),
{
    let ghost s = operand_stack@;
    let src1 = match operand_stack.pop() {
        Some(v) => v,
        None => {
            let message = String::from_str("(").concat(op_name(op)).concat(" src1) operand stack underflow");
            return Err(ExecError::new(Error::OutOfIndex(message), *cursor));
        },
    };
    let src2 = match operand_stack.pop() {
        Some(v) => v,
        None => {
            proof { assert(operand_stack@ =~= Seq::<Var>::empty()); }
            let message = String::from_str("(").concat(op_name(op)).concat(" src2) operand stack underflow");
            return Err(ExecError::new(Error::OutOfIndex(message), *cursor));
        },
    };
    proof {
        assert(operand_stack@ =~= s.subrange(0, s.len() - 2));
    }
    match int_binary(op, &src1, &src2) {
        Some(Some(v)) => {
            operand_stack.push(v);
            Ok(None)
        },
        Some(None) => {
            // Excluded by the precondition: Rust's arithmetic panics here.
            proof { assert(false); }
            Err(ExecError::new(Error::InvalidType("integer overflow".to_string()), *cursor))
        },
        None => {
            let float_pair = match (&src1, &src2) {
                (Var::F32(_), Var::F32(_)) => true,
                (Var::F64(_), Var::F64(_)) => true,
                _ => false,
            };
            let arithmetic = match op {
                BinOp::Add => true,
                BinOp::Sub => true,
                BinOp::Mul => true,
                BinOp::Div => true,
                _ => false,
            };
            if float_pair && arithmetic {
                Ok(Some(FloatRequest { op, lhs: src1, rhs: src2 }))
            } else {
                let a = debug_text(&src1);
                let b = debug_text(&src2);
                let message = String::from_str("(").concat(op_name(op)).concat(") Type '")
                    .concat(a.as_str()).concat("' and type '")
                    .concat(b.as_str()).concat("' doesn't support this operator");
                proof {
                    assert(message@ =~= "("@ + spec_op_name(op) + ") Type '"@ + a@ + "' and type '"@ + b@
                        + "' doesn't support this operator"@);
                    // The quoted texts witness the `exists` of the message.
                    let quoted = a@ + b@;
                }
                Err(ExecError::new(Error::InvalidType(message), *cursor))
            }
        },
    }
}

/// Pops `src1` and `src2` and pushes `src1 + src2`; see [`spec_binary_instr`].
pub fn add(operand_stack: &mut Vec<Var>, cursor: &mut CursorPos) -> (res: Result<Option<FloatRequest>, ExecError>)
    requires
        !binary_overflows(BinOp::Add, old(operand_stack)@),
    ensures
        (final(operand_stack)@, binary_flow(res)) == spec_binary_instr(BinOp::Add, old(operand_stack)@),
        err_at(res, *old(cursor)),
        res matches Err(e) ==> binary_error_text(BinOp::Add, old(operand_stack)@, spec_message(e.error)@),
        *final(cursor) == *old(cursor),
{
    binary(BinOp::Add, operand_stack, cursor)
}

/// Pops `src1` and `src2` and pushes `src1 - src2`; see [`spec_binary_instr`].
pub fn sub(operand_stack: &mut Vec<Var>, cursor: &mut CursorPos) -> (res: Result<Option<FloatRequest>, ExecError>)
    requires
        !binary_overflows(BinOp::Sub, old(operand_stack)@),
    ensures
        (final(operand_stack)@, binary_flow(res)) == spec_binary_instr(BinOp::Sub, old(operand_stack)@),
        err_at(res, *old(cursor)),
        res matches Err(e) ==> binary_error_text(BinOp::Sub, old(operand_stack)@, spec_message(e.error)@),
        *final(cursor) == *old(cursor),
{
    binary(BinOp::Sub, operand_stack, cursor)
}

/// Pops `src1` and `src2` and pushes `src1 * src2`; see [`spec_binary_instr`].
pub fn mul(operand_stack: &mut Vec<Var>, cursor: &mut CursorPos) -> (res: Result<Option<FloatRequest>, ExecError>)
    requires
        !binary_overflows(BinOp::Mul, old(operand_stack)@),
    ensures
        (final(operand_stack)@, binary_flow(res)) == spec_binary_instr(BinOp::Mul, old(operand_stack)@),
        err_at(res, *old(cursor)),
        res matches Err(e) ==> binary_error_text(BinOp::Mul, old(operand_stack)@, spec_message(e.error)@),
        *final(cursor) == *old(cursor),
{
    binary(BinOp::Mul, operand_stack, cursor)
}

/// Pops `src1` and `src2` and pushes `src1 / src2`; see [`spec_binary_instr`].
pub fn div(operand_stack: &mut Vec<Var>, cursor: &mut CursorPos) -> (res: Result<Option<FloatRequest>, ExecError>)
    requires
        !binary_overflows(BinOp::Div, old(operand_stack)@),
    ensures
        (final(operand_stack)@, binary_flow(res)) == spec_binary_instr(BinOp::Div, old(operand_stack)@),
        err_at(res, *old(cursor)),
        res matches Err(e) ==> binary_error_text(BinOp::Div, old(operand_stack)@, spec_message(e.error)@),
        *final(cursor) == *old(cursor),
{
    binary(BinOp::Div, operand_stack, cursor)
}

/// Pops `src1` and `src2` and pushes `src1 % src2`; see [`spec_binary_instr`].
pub fn mod_(operand_stack: &mut Vec<Var>, cursor: &mut CursorPos) -> (res: Result<Option<FloatRequest>, ExecError>)
    requires
        !binary_overflows(BinOp::Mod, old(operand_stack)@),
    ensures
        (final(operand_stack)@, binary_flow(res)) == spec_binary_instr(BinOp::Mod, old(operand_stack)@),
        err_at(res, *old(cursor)),
        res matches Err(e) ==> binary_error_text(BinOp::Mod, old(operand_stack)@, spec_message(e.error)@),
        *final(cursor) == *old(cursor),
{
    binary(BinOp::Mod, operand_stack, cursor)
}

/// Pops `src1` and `src2` and pushes `src1 << src2`; see [`spec_binary_instr`].
pub fn shl(operand_stack: &mut Vec<Var>, cursor: &mut CursorPos) -> (res: Result<Option<FloatRequest>, ExecError>)
    requires
        !binary_overflows(BinOp::Shl, old(operand_stack)@),
    ensures
        (final(operand_stack)@, binary_flow(res)) == spec_binary_instr(BinOp::Shl, old(operand_stack)@),
        err_at(res, *old(cursor)),
        res matches Err(e) ==> binary_error_text(BinOp::Shl, old(operand_stack)@, spec_message(e.error)@),
        *final(cursor) == *old(cursor),
{
    binary(BinOp::Shl, operand_stack, cursor)
}

/// Pops `src1` and `src2` and pushes `src1 >> src2`; see [`spec_binary_instr`].
pub fn shr(operand_stack: &mut Vec<Var>, cursor: &mut CursorPos) -> (res: Result<Option<FloatRequest>, ExecError>)
    requires
        !binary_overflows(BinOp::Shr, old(operand_stack)@),
    ensures
        (final(operand_stack)@, binary_flow(res)) == spec_binary_instr(BinOp::Shr, old(operand_stack)@),
        err_at(res, *old(cursor)),
        res matches Err(e) ==> binary_error_text(BinOp::Shr, old(operand_stack)@, spec_message(e.error)@),
        *final(cursor) == *old(cursor),
{
    binary(BinOp::Shr, operand_stack, cursor)
}

/// Pops `src1` and `src2` and pushes `src1 | src2`; see [`spec_binary_instr`].
pub fn bit_or(operand_stack: &mut Vec<Var>, cursor: &mut CursorPos) -> (res: Result<Option<FloatRequest>, ExecError>)
    requires
        !binary_overflows(BinOp::BitOr, old(operand_stack)@),
    ensures
        (final(operand_stack)@, binary_flow(res)) == spec_binary_instr(BinOp::BitOr, old(operand_stack)@),
        err_at(res, *old(cursor)),
        res matches Err(e) ==> binary_error_text(BinOp::BitOr, old(operand_stack)@, spec_message(e.error)@),
        *final(cursor) == *old(cursor),
{
    binary(BinOp::BitOr, operand_stack, cursor)
}

/// Pops `src1` and `src2` and pushes `src1 & src2`; see [`spec_binary_instr`].
pub fn bit_and(operand_stack: &mut Vec<Var>, cursor: &mut CursorPos) -> (res: Result<Option<FloatRequest>, ExecError>)
    requires
        !binary_overflows(BinOp::BitAnd, old(operand_stack)@),
    ensures
        (final(operand_stack)@, binary_flow(res)) == spec_binary_instr(BinOp::BitAnd, old(operand_stack)@),
        err_at(res, *old(cursor)),
        res matches Err(e) ==> binary_error_text(BinOp::BitAnd, old(operand_stack)@, spec_message(e.error)@),
        *final(cursor) == *old(cursor),
{
    binary(BinOp::BitAnd, operand_stack, cursor)
}

/// Pops `src1` and `src2` and pushes `src1 ^ src2`; see [`spec_binary_instr`].
pub fn bit_xor(operand_stack: &mut Vec<Var>, cursor: &mut CursorPos) -> (res: Result<Option<FloatRequest>, ExecError>)
    requires
        !binary_overflows(BinOp::BitXor, old(operand_stack)@),
    ensures
        (final(operand_stack)@, binary_flow(res)) == spec_binary_instr(BinOp::BitXor, old(operand_stack)@),
        err_at(res, *old(cursor)),
        res matches Err(e) ==> binary_error_text(BinOp::BitXor, old(operand_stack)@, spec_message(e.error)@),
        *final(cursor) == *old(cursor),
{
    binary(BinOp::BitXor, operand_stack, cursor)
}

/// The place a jump to `p` lands on: positions number the bytes of the code
/// from 1, as the assembler numbers its output, so `p` is the byte at index
/// `p - 1`; `0`, which numbers no byte, is taken as the first byte.
pub open spec fn jump_target(p: nat) -> nat {
    if p == 0 { 1 } else { p }
}

/// `JMP pos`: moves to the byte numbered `pos` (see [`jump_target`]), or to
/// the end of the code when it lies beyond, and puts the cursor at that
/// number.
pub open spec fn spec_jmp(code: Seq<u8>, at: int, c: CursorPos) -> (int, CursorPos, Result<Flow, ErrorCode>) {
    let (a1, c1, p) = read_at(code, at, c, 8);
    match p {
        None => (a1, c1, Err(ErrorCode::EOFError)),
        Some(p) => (
            if jump_target(p) - 1 < code.len() { jump_target(p) - 1 } else { code.len() as int },
            CursorPos { pos: jump_target(p) as u64 as usize, func: c.func },
            Ok(Flow::Next),
        ),
    }
}

/// Runs `JMP`; see [`spec_jmp`]. The jump target is read from the code; the
/// label table is not consulted.
pub fn jmp(input: &[u8], at: &mut usize, labels: &Vec<u64>, cursor: &mut CursorPos) -> (res: Result<(), ExecError>)
    requires
        *old(at) <= input@.len(),
        cursor_room(input@.len() as int, *old(at) as int, old(cursor).pos as int),
        2 * input@.len() <= usize::MAX,
    ensures
        (*final(at) as int, *final(cursor), flow_of(res)) == spec_jmp(input@, *old(at) as int, *old(cursor)),
        err_at(res, *final(cursor)),
        *old(at) + 8 > input@.len() ==> (res matches Err(e)
            && short_read_text("pos of jmp"@, input@.len() - *old(at), spec_message(e.error)@)),
        *final(at) <= input@.len(),
        cursor_room(input@.len() as int, *final(at) as int, final(cursor).pos as int),
{
    let pos = read_bin_to_u64(input, at, "pos of jmp", cursor)?;
    let target: u64 = if pos == 0 { 1 } else { pos };
    let _ = cursor.seek(input, at, target - 1);
    cursor.pos = target as usize;
    Ok(())
}

/// `MOVC val_index dest`: writes constant `val_index` into variable `dest`
/// of the current environment; a constant out of range is `OutOfIndex`.
pub open spec fn spec_movc(code: Seq<u8>, at: int, c: CursorPos, constants: Seq<Var>,
    vars: Seq<Option<ValueSlot>>, pool: PoolView) -> (int, CursorPos, Seq<Option<ValueSlot>>, PoolView, Result<Flow, ErrorCode>)
{
    let (a1, c1, i) = read_at(code, at, c, 2);
    match i {
        None => (a1, c1, vars, pool, Err(ErrorCode::EOFError)),
        Some(i) => {
            let (a2, c2, d) = read_at(code, a1, c1, 2);
            match d {
                None => (a2, c2, vars, pool, Err(ErrorCode::EOFError)),
                Some(d) => if i < constants.len() {
                    let (v2, p2, r) = spec_set_var_value(vars, pool, d as u32, constants[i as int]);
                    (a2, c2, v2, p2, lift(r))
                } else {
                    (a2, c2, vars, pool, Err(ErrorCode::OutOfIndex))
                },
            }
        },
    }
}

/// Runs `MOVC`; see [`spec_movc`].
pub fn movc(input: &[u8], at: &mut usize, env: &mut Env, pool: &mut MemoryPool, constants: &[Var], cursor: &mut CursorPos)
    -> (res: Result<(), ExecError>)
    requires
        *old(at) <= input@.len(),
        cursor_room(input@.len() as int, *old(at) as int, old(cursor).pos as int),
    ensures
        (*final(at) as int, *final(cursor), final(env).vars@, final(pool)@, flow_of(res))
            == spec_movc(input@, *old(at) as int, *old(cursor), constants@, old(env).vars@, old(pool)@),
        err_at(res, *final(cursor)),
        *old(at) + 2 > input@.len() ==> (res matches Err(e)
            && short_read_text("val_index of movc"@, input@.len() - *old(at), spec_message(e.error)@)),
        *old(at) + 2 <= input@.len() < *old(at) + 4 ==> (res matches Err(e)
            && short_read_text("dest_var_id of movc"@, input@.len() - *old(at) - 2, spec_message(e.error)@)),
        *old(at) + 4 <= input@.len() && le_value(input@.subrange(*old(at) as int, *old(at) + 2)) >= constants@.len()
            ==> (res matches Err(e) && numbered_then("(MOVC val_index) "@,
                le_value(input@.subrange(*old(at) as int, *old(at) + 2)) as u64, " out of index"@, spec_message(e.error)@)),
        final(env).parent == old(env).parent,
        final(env).funcs == old(env).funcs,        *final(at) <= input@.len(),
        cursor_room(input@.len() as int, *final(at) as int, final(cursor).pos as int),
        pool_ok(old(pool)@) ==> pool_ok(final(pool)@),
{
    let val_index = read_bin_to_u16(input, at, "val_index of movc", cursor)?;
    let dest_var_id = read_bin_to_u16(input, at, "dest_var_id of movc", cursor)?;
    if (val_index as usize) < constants.len() {
        let val = constants[val_index as usize].clone();
        ok_or_err(env.set_var_value(pool, VarId(dest_var_id as u32), val), cursor)
    } else {
        let message = crate::text::message_with_number_then("(MOVC val_index) ", val_index as u64, " out of index");
        Err(ExecError::new(Error::OutOfIndex(message), *cursor))
    }
}

/// The value a new variable of a basic type starts with: zero, or `false`;
/// strings and pointers have none, they live in the pool.
pub open spec fn zero_value(t: ValueType) -> Option<Var> {
    match t {
        ValueType::U8 => Some(Var::U8(0)),
        ValueType::U16 => Some(Var::U16(0)),
        ValueType::U32 => Some(Var::U32(0)),
        ValueType::U64 => Some(Var::U64(0)),
        ValueType::I8 => Some(Var::I8(0)),
        ValueType::I16 => Some(Var::I16(0)),
        ValueType::I32 => Some(Var::I32(0)),
        ValueType::I64 => Some(Var::I64(0)),
        ValueType::F32 => Some(Var::F32(0)),
        ValueType::F64 => Some(Var::F64(0)),
        ValueType::Bool => Some(Var::Bool(false)),
        _ => None,
    }
}

/// Declaring variable `id` of type `t`: a basic type gets an inline slot
/// holding its zero; a string or a pointer gets a freshly allocated pool
/// block, holding `text` or `Null`, and a reference slot to it; the null
/// type is refused with `InvalidType`.
pub open spec fn spec_new_var(t: ValueType, id: nat, vars: Seq<Option<ValueSlot>>, pool: PoolView, text: String)
    -> (Seq<Option<ValueSlot>>, PoolView, Result<Flow, ErrorCode>)
{
    match zero_value(t) {
        Some(v) => (spec_insert_slot(vars, id as int, ValueSlot::Primitive(v)), pool, Ok(Flow::Next)),
        None => if t is String || t is Ptr {
            let (p1, r) = spec_alloc(pool);
            match r {
                Err(k) => (vars, p1, Err(k)),
                Ok(p) => {
                    let init = if t is String { Var::String(text) } else { Var::Null };
                    (spec_insert_slot(vars, id as int, ValueSlot::Reference(TypedPtr { pos: Pos(p), ty: t })),
                        spec_set(p1, p, init).0, Ok(Flow::Next))
                },
            }
        } else {
            (vars, pool, Err(ErrorCode::InvalidType))
        },
    }
}

/// `NEWV type id`: declares variable `id` of the type written in the code;
/// see [`spec_new_var`]. `text` is the empty string a new string variable
/// holds.
pub open spec fn spec_newv(code: Seq<u8>, at: int, c: CursorPos, vars: Seq<Option<ValueSlot>>, pool: PoolView, text: String)
    -> (int, CursorPos, Seq<Option<ValueSlot>>, PoolView, Result<Flow, ErrorCode>)
{
    let a1 = spec_type_bin_end(code, at);
    let c1 = advance(c, a1 - at);
    match spec_type_from_bin(code, at) {
        None => (a1, c1, vars, pool, Err(ErrorCode::EOFError)),
        Some(t) => {
            let (a2, c2, id) = read_at(code, a1, c1, 2);
            match id {
                None => (a2, c2, vars, pool, Err(ErrorCode::EOFError)),
                Some(id) => {
                    let (v2, p2, r) = spec_new_var(t, id, vars, pool, text);
                    (a2, c2, v2, p2, r)
                },
            }
        },
    }
}

/// The message of a failed `NEWV` whose operands start at `at`: the type
/// cut off by the end of the code, the variable number cut off, a variable
/// of type `Null`, or (for a string or a pointer) a pool that has no block
/// left.
pub open spec fn newv_error_text(code: Seq<u8>, at: int, text: Seq<char>) -> bool {
    match spec_type_from_bin(code, at) {
        None => text == "failed to fill whole buffer"@,
        Some(t) => {
            let a1 = spec_type_bin_end(code, at);
            if a1 + 2 > code.len() {
                short_read_text("var_id of newv"@, code.len() - a1, text)
            } else if t is Null {
                text == "Cannot declare variable of type Null"@
            } else {
                text == "free_list has been exhausted before allocating"@
            }
        },
    }
}

/// The pool invariant the instructions keep, with its size within the
/// maximum capacity.
pub open spec fn pool_ok(v: PoolView) -> bool {
    v.wf() && v.blocks.len() <= v.max_capacity
}

/// Runs `NEWV`; see [`spec_newv`]. The type must use only codes the reader
/// knows.
pub fn newv(input: &[u8], at: &mut usize, env: &mut Env, pool: &mut MemoryPool, cursor: &mut CursorPos)
    -> (res: Result<(), ExecError>)
    requires
        *old(at) <= input@.len(),
        cursor_room(input@.len() as int, *old(at) as int, old(cursor).pos as int),
        bin_type_supported(input@, *old(at) as int),
        pool_ok(old(pool)@),
    ensures
        exists|text: String| text@ == Seq::<char>::empty()
            && (*final(at) as int, *final(cursor), final(env).vars@, final(pool)@, flow_of(res))
                == #[trigger] spec_newv(input@, *old(at) as int, *old(cursor), old(env).vars@, old(pool)@, text),
        err_at(res, *final(cursor)),
        res matches Err(e) ==> newv_error_text(input@, *old(at) as int, spec_message(e.error)@),
        final(env).parent == old(env).parent,
        final(env).funcs == old(env).funcs,
        pool_ok(final(pool)@),
        *final(at) <= input@.len(),
        cursor_room(input@.len() as int, *final(at) as int, final(cursor).pos as int),
{
    let text = String::new();
    let ghost g = text;
    proof {
        lemma_type_bin_end_bounds(input@, *at as int);
        crate::memory::lemma_alloc_keeps_wf(pool@);
    }
    let ghost a0 = *at as int;
    let ghost c0 = *cursor;
    let ghost v0 = env.vars@;
    let ghost q0 = pool@;
    let type_ = match get_type_from_bin(input, at, cursor) {
        Ok(t) => t,
        Err(e) => {
            assert(spec_newv(input@, a0, c0, v0, q0, g).0 == *at as int);
            return Err(e);
        },
    };
    let var_id = match read_bin_to_u16(input, at, "var_id of newv", cursor) {
        Ok(v) => v,
        Err(e) => {
            assert(spec_newv(input@, a0, c0, v0, q0, g).0 == *at as int);
            return Err(e);
        },
    };
    let id = VarId(var_id as u32);
    let ghost p0 = pool@;
    match type_ {
        ValueType::U8 => { env.insert_primitive(id, Var::U8(0u8)); },
        ValueType::U16 => { env.insert_primitive(id, Var::U16(0u16)); },
        ValueType::U32 => { env.insert_primitive(id, Var::U32(0u32)); },
        ValueType::U64 => { env.insert_primitive(id, Var::U64(0u64)); },
        ValueType::I8 => { env.insert_primitive(id, Var::I8(0i8)); },
        ValueType::I16 => { env.insert_primitive(id, Var::I16(0i16)); },
        ValueType::I32 => { env.insert_primitive(id, Var::I32(0i32)); },
        ValueType::I64 => { env.insert_primitive(id, Var::I64(0i64)); },
        ValueType::F32 => { env.insert_primitive(id, Var::F32(0u32)); },
        ValueType::F64 => { env.insert_primitive(id, Var::F64(0u64)); },
        ValueType::Bool => { env.insert_primitive(id, Var::Bool(false)); },
        ValueType::String => {
            let pos = match ok_or_err(pool.allocate(), cursor) {
                Ok(p) => p,
                Err(e) => {
                    assert(spec_newv(input@, a0, c0, v0, q0, g).0 == *at as int);
                    return Err(e);
                },
            };
            let ghost p1 = pool@;
            proof { crate::memory::lemma_set_keeps_wf(p1, pos.0, Var::String(text)); }
            let _ = pool.set(pos, Var::String(text));
            env.insert_var(id, TypedPtr { pos, ty: ValueType::String });
        },
        ValueType::Ptr(inner) => {
            let pos = match ok_or_err(pool.allocate(), cursor) {
                Ok(p) => p,
                Err(e) => {
                    assert(spec_newv(input@, a0, c0, v0, q0, g).0 == *at as int);
                    return Err(e);
                },
            };
            let ghost p1 = pool@;
            proof { crate::memory::lemma_set_keeps_wf(p1, pos.0, Var::Null); }
            let _ = pool.set(pos, Var::Null);
            env.insert_var(id, TypedPtr { pos, ty: ValueType::Ptr(inner) });
        },
        ValueType::Null => {
            assert(spec_newv(input@, a0, c0, v0, q0, g).0 == *at as int);
            return Err(ExecError::new(Error::InvalidType(String::from_str("Cannot declare variable of type Null")), *cursor));
        },
    }
    assert(spec_newv(input@, a0, c0, v0, q0, g).0 == *at as int);
    Ok(())
}

/// `DELP pos`: frees pool block `pos`; see [`spec_dealloc`].
pub open spec fn spec_delp(code: Seq<u8>, at: int, c: CursorPos, pool: PoolView)
    -> (int, CursorPos, PoolView, Result<Flow, ErrorCode>)
{
    let (a1, c1, p) = read_at(code, at, c, 4);
    match p {
        None => (a1, c1, pool, Err(ErrorCode::EOFError)),
        Some(p) => {
            let (p2, r) = spec_dealloc(pool, p as usize);
            (a1, c1, p2, lift(r))
        },
    }
}

/// Runs `DELP`; see [`spec_delp`].
pub fn delp(input: &[u8], at: &mut usize, pool: &mut MemoryPool, cursor: &mut CursorPos) -> (res: Result<(), ExecError>)
    requires
        *old(at) <= input@.len(),
        cursor_room(input@.len() as int, *old(at) as int, old(cursor).pos as int),
    ensures
        (*final(at) as int, *final(cursor), final(pool)@, flow_of(res)) == spec_delp(input@, *old(at) as int, *old(cursor), old(pool)@),
        err_at(res, *final(cursor)),
        *old(at) + 4 > input@.len() ==> (res matches Err(e)
            && short_read_text("ptr_var_id of delp"@, input@.len() - *old(at), spec_message(e.error)@)),
        *final(at) <= input@.len(),
        cursor_room(input@.len() as int, *final(at) as int, final(cursor).pos as int),
        pool_ok(old(pool)@) ==> pool_ok(final(pool)@),
{
    let pos = Pos(read_bin_to_u32(input, at, "ptr_var_id of delp", cursor)? as usize);
    proof { if pool@.wf() { crate::memory::lemma_dealloc_keeps_wf(pool@, pos.0); } }
    ok_or_err(pool.dealloc(pos), cursor)
}

/// `DELV id`: empties variable `id` of the current environment; see
/// [`spec_drop_var`].
pub open spec fn spec_delv(code: Seq<u8>, at: int, c: CursorPos, vars: Seq<Option<ValueSlot>>, pool: PoolView)
    -> (int, CursorPos, Seq<Option<ValueSlot>>, PoolView, Result<Flow, ErrorCode>)
{
    let (a1, c1, id) = read_at(code, at, c, 2);
    match id {
        None => (a1, c1, vars, pool, Err(ErrorCode::EOFError)),
        Some(id) => {
            let (v2, p2, r) = spec_drop_var(vars, pool, id as u32);
            (a1, c1, v2, p2, lift(r))
        },
    }
}

/// Runs `DELV`; see [`spec_delv`].
pub fn delv(input: &[u8], at: &mut usize, env: &mut Env, pool: &mut MemoryPool, cursor: &mut CursorPos) -> (res: Result<(), ExecError>)
    requires
        *old(at) <= input@.len(),
        cursor_room(input@.len() as int, *old(at) as int, old(cursor).pos as int),
    ensures
        (*final(at) as int, *final(cursor), final(env).vars@, final(pool)@, flow_of(res))
            == spec_delv(input@, *old(at) as int, *old(cursor), old(env).vars@, old(pool)@),
        err_at(res, *final(cursor)),
        *old(at) + 2 > input@.len() ==> (res matches Err(e)
            && short_read_text("var_id of delv"@, input@.len() - *old(at), spec_message(e.error)@)),
        final(env).parent == old(env).parent,
        final(env).funcs == old(env).funcs,        *final(at) <= input@.len(),
        cursor_room(input@.len() as int, *final(at) as int, final(cursor).pos as int),
        pool_ok(old(pool)@) ==> pool_ok(final(pool)@),
{
    let var_id = VarId(read_bin_to_u16(input, at, "var_id of delv", cursor)? as u32);
    proof {
        if let Some(ValueSlot::Reference(p)) = spec_slot_at(env.vars@, var_id.0 as int) {
            if pool@.wf() {
                crate::memory::lemma_dealloc_keeps_wf(pool@, p.pos.0);
            }
        }
    }
    ok_or_err(env.drop_var(pool, var_id), cursor)
}

/// `PUSHVAR id`: pushes the value of variable `id`, looked up through the
/// enclosing environments; see [`spec_get_var`].
pub open spec fn spec_pushvar(code: Seq<u8>, at: int, c: CursorPos, env: Env, pool: PoolView, stack: Seq<Var>)
    -> (int, CursorPos, Seq<Var>, Result<Flow, ErrorCode>)
{
    let (a1, c1, id) = read_at(code, at, c, 2);
    match id {
        None => (a1, c1, stack, Err(ErrorCode::EOFError)),
        Some(id) => match spec_get_var(env, pool, id as u32) {
            Ok(v) => (a1, c1, stack.push(v), Ok(Flow::Next)),
            Err(k) => (a1, c1, stack, Err(k)),
        },
    }
}

/// Runs `PUSHVAR`; see [`spec_pushvar`].
pub fn pushvar(input: &[u8], at: &mut usize, env: &Env, pool: &MemoryPool, operand_stack: &mut Vec<Var>, cursor: &mut CursorPos)
    -> (res: Result<(), ExecError>)
    requires
        *old(at) <= input@.len(),
        cursor_room(input@.len() as int, *old(at) as int, old(cursor).pos as int),
    ensures
        (*final(at) as int, *final(cursor), final(operand_stack)@, flow_of(res))
            == spec_pushvar(input@, *old(at) as int, *old(cursor), *env, pool@, old(operand_stack)@),
        err_at(res, *final(cursor)),
        *old(at) + 2 > input@.len() ==> (res matches Err(e)
            && short_read_text("var_id of loadvar"@, input@.len() - *old(at), spec_message(e.error)@)),
        *final(at) <= input@.len(),
        cursor_room(input@.len() as int, *final(at) as int, final(cursor).pos as int),
{
    let var_id = read_bin_to_u16(input, at, "var_id of loadvar", cursor)?;
    let value = ok_or_err(env.get_var(pool, &VarId(var_id as u32)), cursor)?;
    operand_stack.push(value);
    Ok(())
}

/// `POPVAR id`: pops the top of the operand stack into variable `id` of the
/// current environment; an empty stack is `NotFound`. The value is popped
/// even when the write fails.
pub open spec fn spec_popvar(code: Seq<u8>, at: int, c: CursorPos, stack: Seq<Var>, vars: Seq<Option<ValueSlot>>, pool: PoolView)
    -> (int, CursorPos, Seq<Var>, Seq<Option<ValueSlot>>, PoolView, Result<Flow, ErrorCode>)
{
    let (a1, c1, id) = read_at(code, at, c, 2);
    match id {
        None => (a1, c1, stack, vars, pool, Err(ErrorCode::EOFError)),
        Some(id) => if stack.len() == 0 {
            (a1, c1, stack, vars, pool, Err(ErrorCode::NotFound))
        } else {
            let (v2, p2, r) = spec_set_var_value(vars, pool, id as u32, stack.last());
            (a1, c1, stack.drop_last(), v2, p2, lift(r))
        },
    }
}

/// Runs `POPVAR`; see [`spec_popvar`].
pub fn popvar(input: &[u8], at: &mut usize, env: &mut Env, pool: &mut MemoryPool, operand_stack: &mut Vec<Var>, cursor: &mut CursorPos)
    -> (res: Result<(), ExecError>)
    requires
        *old(at) <= input@.len(),
        cursor_room(input@.len() as int, *old(at) as int, old(cursor).pos as int),
    ensures
        (*final(at) as int, *final(cursor), final(operand_stack)@, final(env).vars@, final(pool)@, flow_of(res))
            == spec_popvar(input@, *old(at) as int, *old(cursor), old(operand_stack)@, old(env).vars@, old(pool)@),
        err_at(res, *final(cursor)),
        *old(at) + 2 > input@.len() ==> (res matches Err(e)
            && short_read_text("var_id of popvar"@, input@.len() - *old(at), spec_message(e.error)@)),
        *old(at) + 2 <= input@.len() && old(operand_stack)@.len() == 0 ==> (res matches Err(e)
            && spec_message(e.error)@ == "(POPVAR) Operand stack is empty"@),
        final(env).parent == old(env).parent,
        final(env).funcs == old(env).funcs,        *final(at) <= input@.len(),
        cursor_room(input@.len() as int, *final(at) as int, final(cursor).pos as int),
        pool_ok(old(pool)@) ==> pool_ok(final(pool)@),
{
    let var_id = read_bin_to_u16(input, at, "var_id of popvar", cursor)?;
    match operand_stack.pop() {
        Some(var) => ok_or_err(env.set_var_value(pool, VarId(var_id as u32), var), cursor),
        None => Err(ExecError::new(Error::NotFound(String::from_str("(POPVAR) Operand stack is empty")), *cursor)),
    }
}

/// `STOREVAR id`: writes the top of the operand stack into variable `id` of
/// the current environment and leaves it on the stack; an empty stack is
/// `NotFound`.
pub open spec fn spec_storevar(code: Seq<u8>, at: int, c: CursorPos, stack: Seq<Var>, vars: Seq<Option<ValueSlot>>, pool: PoolView)
    -> (int, CursorPos, Seq<Option<ValueSlot>>, PoolView, Result<Flow, ErrorCode>)
{
    let (a1, c1, id) = read_at(code, at, c, 2);
    match id {
        None => (a1, c1, vars, pool, Err(ErrorCode::EOFError)),
        Some(id) => if stack.len() == 0 {
            (a1, c1, vars, pool, Err(ErrorCode::NotFound))
        } else {
            let (v2, p2, r) = spec_set_var_value(vars, pool, id as u32, stack.last());
            (a1, c1, v2, p2, lift(r))
        },
    }
}

/// Runs `STOREVAR`; see [`spec_storevar`].
pub fn storevar(input: &[u8], at: &mut usize, env: &mut Env, pool: &mut MemoryPool, operand_stack: &Vec<Var>, cursor: &mut CursorPos)
    -> (res: Result<(), ExecError>)
    requires
        *old(at) <= input@.len(),
        cursor_room(input@.len() as int, *old(at) as int, old(cursor).pos as int),
    ensures
        (*final(at) as int, *final(cursor), final(env).vars@, final(pool)@, flow_of(res))
            == spec_storevar(input@, *old(at) as int, *old(cursor), operand_stack@, old(env).vars@, old(pool)@),
        err_at(res, *final(cursor)),
        *old(at) + 2 > input@.len() ==> (res matches Err(e)
            && short_read_text("var_id of storevar"@, input@.len() - *old(at), spec_message(e.error)@)),
        *old(at) + 2 <= input@.len() && operand_stack@.len() == 0 ==> (res matches Err(e)
            && spec_message(e.error)@ == "(STOREVAR) Operand stack is empty"@),
        final(env).parent == old(env).parent,
        final(env).funcs == old(env).funcs,        *final(at) <= input@.len(),
        cursor_room(input@.len() as int, *final(at) as int, final(cursor).pos as int),
        pool_ok(old(pool)@) ==> pool_ok(final(pool)@),
{
    let var_id = read_bin_to_u16(input, at, "var_id of storevar", cursor)?;
    if operand_stack.len() > 0 {
        let var = operand_stack[operand_stack.len() - 1].clone();
        ok_or_err(env.set_var_value(pool, VarId(var_id as u32), var), cursor)
    } else {
        Err(ExecError::new(Error::NotFound(String::from_str("(STOREVAR) Operand stack is empty")), *cursor))
    }
}

/// `DUP`: pushes a copy of the top of the operand stack; an empty stack is
/// `NotFound`.
pub open spec fn spec_dup(stack: Seq<Var>) -> (Seq<Var>, Result<Flow, ErrorCode>) {
    if stack.len() == 0 { (stack, Err(ErrorCode::NotFound)) } else { (stack.push(stack.last()), Ok(Flow::Next)) }
}

/// Runs `DUP`; see [`spec_dup`].
pub fn dup(operand_stack: &mut Vec<Var>, cursor: &mut CursorPos) -> (res: Result<(), ExecError>)
    ensures
        (final(operand_stack)@, flow_of(res)) == spec_dup(old(operand_stack)@),
        err_at(res, *old(cursor)),
        res matches Err(e) ==> spec_message(e.error)@ == "(DUP) Operand stack is empty"@,
        *final(cursor) == *old(cursor),
{
    if operand_stack.len() > 0 {
        let var = operand_stack[operand_stack.len() - 1].clone();
        operand_stack.push(var);
        Ok(())
    } else {
        Err(ExecError::new(Error::NotFound(String::from_str("(DUP) Operand stack is empty")), *cursor))
    }
}

/// `LDC id`: pushes constant `id`.
pub open spec fn spec_ldc(code: Seq<u8>, at: int, c: CursorPos, constants: Seq<Var>, stack: Seq<Var>)
    -> (int, CursorPos, Seq<Var>, Result<Flow, ErrorCode>)
{
    let (a1, c1, id) = read_at(code, at, c, 1);
    match id {
        None => (a1, c1, stack, Err(ErrorCode::EOFError)),
        Some(id) => (a1, c1, stack.push(constants[id as int]), Ok(Flow::Next)),
    }
}

/// Whether the constant that `LDC` names at `at` exists; indexing past the
/// constant pool panics.
pub open spec fn ldc_in_range(code: Seq<u8>, at: int, constants: Seq<Var>) -> bool {
    0 <= at < code.len() ==> code[at] < constants.len()
}

/// Runs `LDC`; see [`spec_ldc`].
pub fn ldc(input: &[u8], at: &mut usize, constants: &[Var], operand_stack: &mut Vec<Var>, cursor: &mut CursorPos)
    -> (res: Result<(), ExecError>)
    requires
        *old(at) <= input@.len(),
        cursor_room(input@.len() as int, *old(at) as int, old(cursor).pos as int),
        ldc_in_range(input@, *old(at) as int, constants@),
    ensures
        (*final(at) as int, *final(cursor), final(operand_stack)@, flow_of(res))
            == spec_ldc(input@, *old(at) as int, *old(cursor), constants@, old(operand_stack)@),
        err_at(res, *final(cursor)),
        *old(at) + 1 > input@.len() ==> (res matches Err(e)
            && short_read_text("val_id of ldc"@, input@.len() - *old(at), spec_message(e.error)@)),
        *final(at) <= input@.len(),
        cursor_room(input@.len() as int, *final(at) as int, final(cursor).pos as int),
{
    let ghost a0 = *at as int;
    let val_id = read_bin_to_u8(input, at, "val_id of ldc", cursor)? as usize;
    proof {
        let s = input@.subrange(a0, a0 + 1);
        assert(s.drop_first() =~= Seq::<u8>::empty());
        assert(crate::parser::utils::le_value(s.drop_first()) == 0);
        assert(s[0] == input@[a0]);
    }
    operand_stack.push(constants[val_id].clone());
    Ok(())
}

/// `POP`: drops the top of the operand stack; an empty stack is
/// `OutOfIndex`.
pub open spec fn spec_pop(stack: Seq<Var>) -> (Seq<Var>, Result<Flow, ErrorCode>) {
    if stack.len() == 0 { (stack, Err(ErrorCode::OutOfIndex)) } else { (stack.drop_last(), Ok(Flow::Next)) }
}

/// Runs `POP`; see [`spec_pop`].
pub fn pop(operand_stack: &mut Vec<Var>, cursor: &mut CursorPos) -> (res: Result<(), ExecError>)
    ensures
        (final(operand_stack)@, flow_of(res)) == spec_pop(old(operand_stack)@),
        err_at(res, *old(cursor)),
        res matches Err(e) ==> spec_message(e.error)@ == "(POP) Operand stack underflow"@,
        *final(cursor) == *old(cursor),
{
    match operand_stack.pop() {
        Some(_) => Ok(()),
        None => Err(ExecError::new(Error::OutOfIndex(String::from_str("(POP) Operand stack underflow")), *cursor)),
    }
}

/// Converting a value to `target`: to `u16` from `u8` or `u16`, to `u32`
/// from `u8`, `u16` or `u32`; nothing else converts.
pub open spec fn spec_conv(target: ValueType, v: Var) -> Option<Var> {
    match target {
        ValueType::U16 => match v {
            Var::U8(x) => Some(Var::U16(x as u16)),
            Var::U16(x) => Some(Var::U16(x)),
            _ => None,
        },
        ValueType::U32 => match v {
            Var::U8(x) => Some(Var::U32(x as u32)),
            Var::U16(x) => Some(Var::U32(x as u32)),
            Var::U32(x) => Some(Var::U32(x)),
            _ => None,
        },
        _ => None,
    }
}

/// `CONV_TOP type`: converts the top of the operand stack to the type
/// written in the code; see [`spec_conv`]. An empty stack is `NotFound`, a
/// conversion that does not exist `InvalidType`.
pub open spec fn spec_conv_top(code: Seq<u8>, at: int, c: CursorPos, stack: Seq<Var>)
    -> (int, CursorPos, Seq<Var>, Result<Flow, ErrorCode>)
{
    let a1 = spec_type_bin_end(code, at);
    let c1 = advance(c, a1 - at);
    match spec_type_from_bin(code, at) {
        None => (a1, c1, stack, Err(ErrorCode::EOFError)),
        Some(t) => if stack.len() == 0 {
            (a1, c1, stack, Err(ErrorCode::NotFound))
        } else {
            match spec_conv(t, stack.last()) {
                Some(v) => (a1, c1, stack.update(stack.len() - 1, v), Ok(Flow::Next)),
                None => (a1, c1, stack, Err(ErrorCode::InvalidType)),
            }
        },
    }
}

fn conv(target: &ValueType, v: &Var) -> (res: Option<Var>)
    ensures
        res == spec_conv(*target, *v),
{
    match target {
        ValueType::U16 => match v {
            Var::U8(x) => Some(Var::U16(*x as u16)),
            Var::U16(x) => Some(Var::U16(*x)),
            _ => None,
        },
        ValueType::U32 => match v {
            Var::U8(x) => Some(Var::U32(*x as u32)),
            Var::U16(x) => Some(Var::U32(*x as u32)),
            Var::U32(x) => Some(Var::U32(*x)),
            _ => None,
        },
        _ => None,
    }
}

/// The message of a failed `CONV_TOP` to `t`: an empty stack, a
/// conversion to `Null`, or a value that does not convert, quoted in its
/// `Debug` rendering (not stated here) with the types it could have had
/// (for `u16` and `u32`) or with the target type.
pub open spec fn conv_top_error_text(t: ValueType, stack: Seq<Var>, text: Seq<char>) -> bool {
    if stack.len() == 0 {
        text == "(CONV_TOP) Operand stack is empty"@
    } else {
        match t {
            ValueType::Null => text == "Cannot convert any types to Null"@,
            ValueType::U16 => exists|a: Seq<char>| #![trigger a.len()] text == "(CONV_TOP!) Cannot convert "@ + a + " to [U8, U16]"@,
            ValueType::U32 => exists|a: Seq<char>| #![trigger a.len()] text == "(CONV_TOP!) Cannot convert "@ + a + " to [U8, U16, U32]"@,
            _ => exists|a: Seq<char>, b: Seq<char>| #![trigger a + b] text == "(CONV_TOP) Cannot convert "@ + a + " to "@ + b,
        }
    }
}

/// Runs `CONV_TOP`; see [`spec_conv_top`]. The type must use only codes the
/// reader knows.
pub fn conv_top(input: &[u8], at: &mut usize, operand_stack: &mut Vec<Var>, cursor: &mut CursorPos)
    -> (res: Result<(), ExecError>)
    requires
        *old(at) <= input@.len(),
        cursor_room(input@.len() as int, *old(at) as int, old(cursor).pos as int),
        bin_type_supported(input@, *old(at) as int),
    ensures
        (*final(at) as int, *final(cursor), final(operand_stack)@, flow_of(res))
            == spec_conv_top(input@, *old(at) as int, *old(cursor), old(operand_stack)@),
        err_at(res, *final(cursor)),
        spec_type_from_bin(input@, *old(at) as int) matches Some(t) ==> (res matches Err(e)
            ==> conv_top_error_text(t, old(operand_stack)@, spec_message(e.error)@)),
        *final(at) <= input@.len(),
        cursor_room(input@.len() as int, *final(at) as int, final(cursor).pos as int),
{
    proof {
        lemma_type_bin_end_bounds(input@, *at as int);
    }
    let target_type = get_type_from_bin(input, at, cursor)?;
    let n = operand_stack.len();
    if n == 0 {
        return Err(ExecError::new(Error::NotFound(String::from_str("(CONV_TOP) Operand stack is empty")), *cursor));
    }
    match conv(&target_type, &operand_stack[n - 1]) {
        Some(v) => {
            operand_stack.set(n - 1, v);
            Ok(())
        },
        None => {
            let a = debug_text(&operand_stack[n - 1]);
            let message = match target_type {
                ValueType::Null => String::from_str("Cannot convert any types to Null"),
                ValueType::U16 => {
                    let m = String::from_str("(CONV_TOP!) Cannot convert ").concat(a.as_str()).concat(" to [U8, U16]");
                    // The quoted text witnesses the `exists` of the message.
                    proof { let quoted_len = a@.len(); }
                    m
                },
                ValueType::U32 => {
                    let m = String::from_str("(CONV_TOP!) Cannot convert ").concat(a.as_str()).concat(" to [U8, U16, U32]");
                    // The quoted text witnesses the `exists` of the message.
                    proof { let quoted_len = a@.len(); }
                    m
                },
                _ => {
                    let b = debug_type_text(&target_type);
                    let m = String::from_str("(CONV_TOP) Cannot convert ").concat(a.as_str()).concat(" to ").concat(b.as_str());
                    // The quoted texts witness the `exists` of the message.
                    proof { let quoted = a@ + b@; }
                    m
                },
            };
            Err(ExecError::new(Error::InvalidType(message), *cursor))
        },
    }
}

/// Division of integers rounding toward zero, as Rust divides; 0 when
/// dividing by zero.
pub open spec fn trunc_quot(a: int, b: int) -> int {
    if b == 0 {
        0
    } else if a >= 0 && b > 0 {
        a / b
    } else if a < 0 && b < 0 {
        (-a) / (-b)
    } else if a < 0 {
        -((-a) / b)
    } else {
        -(a / (-b))
    }
}

/// The remainder that goes with [`trunc_quot`]: `a = b * q + r`.
pub open spec fn trunc_rem(a: int, b: int) -> int {
    a - b * trunc_quot(a, b)
}

/// Within the range `lo..=hi` of a Rust integer type (unsigned when `lo` is
/// 0, two's complement otherwise), the quotient rounded toward zero lies in
/// the range except for the one overflow `lo / -1`, and the remainder
/// always does.
pub proof fn lemma_trunc_bounds(x: int, d: int, lo: int, hi: int)
    requires
        d != 0,
        lo <= x <= hi,
        lo <= d <= hi,
        0 <= hi,
        lo == 0 || lo == -hi - 1,
    ensures
        (lo <= trunc_quot(x, d) <= hi) <==> !(x == lo && d == -1 && lo < 0),
        lo <= trunc_rem(x, d) <= hi,
{
    lemma_trunc_rem_cases(x, d);
    let a = if x >= 0 { x } else { -x };
    let b = if d > 0 { d } else { -d };
    vstd::arithmetic::div_mod::lemma_div_pos_is_pos(a, b);
    vstd::arithmetic::div_mod::lemma_div_basics(a);
    vstd::arithmetic::div_mod::lemma_div_is_ordered_by_denominator(a, 1, b);
    vstd::arithmetic::div_mod::lemma_mod_pos_bound(a, b);
    if a > 0 && b > 1 {
        vstd::arithmetic::div_mod::lemma_div_decreases(a, b);
    }
    assert(a / b <= a);
    if x == 0 {
    } else if x > 0 && d > 0 {
        assert(trunc_quot(x, d) == a / b);
    } else if x < 0 && d < 0 {
        assert(trunc_quot(x, d) == a / b);
        assert(trunc_rem(x, d) == -(a % b));
    } else if x < 0 {
        assert(trunc_quot(x, d) == -(a / b));
        assert(trunc_rem(x, d) == -(a % b));
    } else {
        assert(trunc_quot(x, d) == -(a / b));
        assert(trunc_rem(x, d) == a % b);
    }
}

/// The number an outcome of a binary operator stands for, if it is a value
/// of an integer type.
pub open spec fn outcome_int(o: BinOutcome) -> Option<int> {
    match o {
        BinOutcome::Value(v) => int_of(v),
        _ => None,
    }
}

/// What the arithmetic operators mean on integers `x` (the top of the
/// stack) and `y` of a type ranging over `lo..=hi`: the sum, difference,
/// product, quotient rounded toward zero and its remainder, each as a value
/// when it lies in the range and the divisor is not zero, and an overflow
/// (where Rust's checked arithmetic panics) otherwise.
pub open spec fn arith_law(op: BinOp, x: int, y: int, o: BinOutcome, lo: int, hi: int) -> bool {
    match op {
        BinOp::Add => if lo <= x + y <= hi { outcome_int(o) == Some(x + y) } else { o is Overflow },
        BinOp::Sub => if lo <= x - y <= hi { outcome_int(o) == Some(x - y) } else { o is Overflow },
        BinOp::Mul => if lo <= x * y <= hi { outcome_int(o) == Some(x * y) } else { o is Overflow },
        BinOp::Div => if y != 0 && lo <= trunc_quot(x, y) <= hi { outcome_int(o) == Some(trunc_quot(x, y)) } else { o is Overflow },
        BinOp::Mod => if y != 0 && lo <= trunc_quot(x, y) <= hi { outcome_int(o) == Some(trunc_rem(x, y)) } else { o is Overflow },
        _ => true,
    }
}

/// The remainder that goes with division rounded toward zero, by the signs
/// of its operands.
pub proof fn lemma_trunc_rem_cases(x: int, d: int)
    requires
        d != 0,
    ensures
        trunc_rem(x, d) == if x == 0 {
            0
        } else if x > 0 && d > 0 {
            x % d
        } else if x < 0 && d < 0 {
            ((x * -1) % (d * -1)) * -1
        } else if x < 0 {
            ((x * -1) % d) * -1
        } else {
            x % (d * -1)
        },
        trunc_quot(x, d) == if x == 0 {
            0
        } else if x > 0 && d > 0 {
            x / d
        } else if x < 0 && d < 0 {
            (x * -1) / (d * -1)
        } else if x < 0 {
            ((x * -1) / d) * -1
        } else {
            (x / (d * -1)) * -1
        },
{
    let q = trunc_quot(x, d);
    if x == 0 {
        if d > 0 {
            assert(0int / d == 0) by (nonlinear_arith) requires d > 0;
        } else {
            assert(0int / (-d) == 0) by (nonlinear_arith) requires -d > 0;
        }
        assert(d * q == 0) by (nonlinear_arith) requires q == 0;
    } else if x > 0 && d > 0 {
        vstd::arithmetic::div_mod::lemma_fundamental_div_mod(x, d);
    } else if x < 0 && d < 0 {
        vstd::arithmetic::div_mod::lemma_fundamental_div_mod(-x, -d);
        assert(d * q == -((-d) * q)) by (nonlinear_arith);
    } else if x < 0 {
        vstd::arithmetic::div_mod::lemma_fundamental_div_mod(-x, d);
        assert(d * q == -(d * ((-x) / d))) by (nonlinear_arith) requires q == -((-x) / d);
    } else {
        vstd::arithmetic::div_mod::lemma_fundamental_div_mod(x, -d);
        assert(d * q == (-d) * (x / (-d))) by (nonlinear_arith) requires q == -(x / (-d));
    }
}

/// The binary instructions on two `u8` values `x` (the top of the stack)
/// and `y`: the arithmetic ones mean what [`arith_law`] says, the bitwise
/// ones are the bitwise and, or and exclusive or, and the shifts move `x` by
/// `y` bits, an overflow for a shift by a negative amount or by 8 or more.
/// Every result is a `u8`.
pub proof fn lemma_binary_u8(op: BinOp, x: u8, y: u8)
    ensures
        arith_law(op, x as int, y as int, spec_binary(op, Var::U8(x), Var::U8(y)), u8::MIN as int, u8::MAX as int),
        spec_binary(op, Var::U8(x), Var::U8(y)) matches BinOutcome::Value(w) ==> w is U8,
        spec_binary(op, Var::U8(x), Var::U8(y)) is Value || spec_binary(op, Var::U8(x), Var::U8(y)) is Overflow,
        op is BitAnd ==> spec_binary(op, Var::U8(x), Var::U8(y)) == BinOutcome::Value(Var::U8(x & y)),
        op is BitOr ==> spec_binary(op, Var::U8(x), Var::U8(y)) == BinOutcome::Value(Var::U8(x | y)),
        op is BitXor ==> spec_binary(op, Var::U8(x), Var::U8(y)) == BinOutcome::Value(Var::U8(x ^ y)),
        op is Shl ==> spec_binary(op, Var::U8(x), Var::U8(y))
            == if y < 8 { BinOutcome::Value(Var::U8(x << (y as u32))) } else { BinOutcome::Overflow },
        op is Shr ==> spec_binary(op, Var::U8(x), Var::U8(y))
            == if y < 8 { BinOutcome::Value(Var::U8(x >> (y as u32))) } else { BinOutcome::Overflow },
{
    if y != 0 {
        lemma_trunc_rem_cases(x as int, y as int);
        lemma_trunc_bounds(x as int, y as int, u8::MIN as int, u8::MAX as int);
    }
    if y < 8 {
        assert((y as u32) % 8u32 == y as u32);
    }
    let o = spec_binary(op, Var::U8(x), Var::U8(y));
    match op {
        BinOp::Add => assert(arith_law(op, x as int, y as int, o, u8::MIN as int, u8::MAX as int)),
        BinOp::Sub => assert(arith_law(op, x as int, y as int, o, u8::MIN as int, u8::MAX as int)),
        BinOp::Mul => assert(arith_law(op, x as int, y as int, o, u8::MIN as int, u8::MAX as int)),
        BinOp::Div => assert(arith_law(op, x as int, y as int, o, u8::MIN as int, u8::MAX as int)),
        BinOp::Mod => {
            if y != 0 {
                assert(0int % (y as int) == 0) by (nonlinear_arith) requires y > 0;
                assert(trunc_rem(x as int, y as int) == (x as int) % (y as int));
            }
            assert(arith_law(op, x as int, y as int, o, u8::MIN as int, u8::MAX as int));
        },
        _ => {},
    }
}

/// The binary instructions on two `u16` values `x` (the top of the stack)
/// and `y`: the arithmetic ones mean what [`arith_law`] says, the bitwise
/// ones are the bitwise and, or and exclusive or, and the shifts move `x` by
/// `y` bits, an overflow for a shift by a negative amount or by 16 or more.
/// Every result is a `u16`.
pub proof fn lemma_binary_u16(op: BinOp, x: u16, y: u16)
    ensures
        arith_law(op, x as int, y as int, spec_binary(op, Var::U16(x), Var::U16(y)), u16::MIN as int, u16::MAX as int),
        spec_binary(op, Var::U16(x), Var::U16(y)) matches BinOutcome::Value(w) ==> w is U16,
        spec_binary(op, Var::U16(x), Var::U16(y)) is Value || spec_binary(op, Var::U16(x), Var::U16(y)) is Overflow,
        op is BitAnd ==> spec_binary(op, Var::U16(x), Var::U16(y)) == BinOutcome::Value(Var::U16(x & y)),
        op is BitOr ==> spec_binary(op, Var::U16(x), Var::U16(y)) == BinOutcome::Value(Var::U16(x | y)),
        op is BitXor ==> spec_binary(op, Var::U16(x), Var::U16(y)) == BinOutcome::Value(Var::U16(x ^ y)),
        op is Shl ==> spec_binary(op, Var::U16(x), Var::U16(y))
            == if y < 16 { BinOutcome::Value(Var::U16(x << (y as u32))) } else { BinOutcome::Overflow },
        op is Shr ==> spec_binary(op, Var::U16(x), Var::U16(y))
            == if y < 16 { BinOutcome::Value(Var::U16(x >> (y as u32))) } else { BinOutcome::Overflow },
{
    if y != 0 {
        lemma_trunc_rem_cases(x as int, y as int);
        lemma_trunc_bounds(x as int, y as int, u16::MIN as int, u16::MAX as int);
    }
    if y < 16 {
        assert((y as u32) % 16u32 == y as u32);
    }
    let o = spec_binary(op, Var::U16(x), Var::U16(y));
    match op {
        BinOp::Add => assert(arith_law(op, x as int, y as int, o, u16::MIN as int, u16::MAX as int)),
        BinOp::Sub => assert(arith_law(op, x as int, y as int, o, u16::MIN as int, u16::MAX as int)),
        BinOp::Mul => assert(arith_law(op, x as int, y as int, o, u16::MIN as int, u16::MAX as int)),
        BinOp::Div => assert(arith_law(op, x as int, y as int, o, u16::MIN as int, u16::MAX as int)),
        BinOp::Mod => {
            if y != 0 {
                assert(0int % (y as int) == 0) by (nonlinear_arith) requires y > 0;
                assert(trunc_rem(x as int, y as int) == (x as int) % (y as int));
            }
            assert(arith_law(op, x as int, y as int, o, u16::MIN as int, u16::MAX as int));
        },
        _ => {},
    }
}

/// The binary instructions on two `u32` values `x` (the top of the stack)
/// and `y`: the arithmetic ones mean what [`arith_law`] says, the bitwise
/// ones are the bitwise and, or and exclusive or, and the shifts move `x` by
/// `y` bits, an overflow for a shift by a negative amount or by 32 or more.
/// Every result is a `u32`.
pub proof fn lemma_binary_u32(op: BinOp, x: u32, y: u32)
    ensures
        arith_law(op, x as int, y as int, spec_binary(op, Var::U32(x), Var::U32(y)), u32::MIN as int, u32::MAX as int),
        spec_binary(op, Var::U32(x), Var::U32(y)) matches BinOutcome::Value(w) ==> w is U32,
        spec_binary(op, Var::U32(x), Var::U32(y)) is Value || spec_binary(op, Var::U32(x), Var::U32(y)) is Overflow,
        op is BitAnd ==> spec_binary(op, Var::U32(x), Var::U32(y)) == BinOutcome::Value(Var::U32(x & y)),
        op is BitOr ==> spec_binary(op, Var::U32(x), Var::U32(y)) == BinOutcome::Value(Var::U32(x | y)),
        op is BitXor ==> spec_binary(op, Var::U32(x), Var::U32(y)) == BinOutcome::Value(Var::U32(x ^ y)),
        op is Shl ==> spec_binary(op, Var::U32(x), Var::U32(y))
            == if y < 32 { BinOutcome::Value(Var::U32(x << (y as u32))) } else { BinOutcome::Overflow },
        op is Shr ==> spec_binary(op, Var::U32(x), Var::U32(y))
            == if y < 32 { BinOutcome::Value(Var::U32(x >> (y as u32))) } else { BinOutcome::Overflow },
{
    if y != 0 {
        lemma_trunc_rem_cases(x as int, y as int);
        lemma_trunc_bounds(x as int, y as int, u32::MIN as int, u32::MAX as int);
    }
    if y < 32 {
        assert((y as u32) % 32u32 == y as u32);
    }
    let o = spec_binary(op, Var::U32(x), Var::U32(y));
    match op {
        BinOp::Add => assert(arith_law(op, x as int, y as int, o, u32::MIN as int, u32::MAX as int)),
        BinOp::Sub => assert(arith_law(op, x as int, y as int, o, u32::MIN as int, u32::MAX as int)),
        BinOp::Mul => assert(arith_law(op, x as int, y as int, o, u32::MIN as int, u32::MAX as int)),
        BinOp::Div => assert(arith_law(op, x as int, y as int, o, u32::MIN as int, u32::MAX as int)),
        BinOp::Mod => {
            if y != 0 {
                assert(0int % (y as int) == 0) by (nonlinear_arith) requires y > 0;
                assert(trunc_rem(x as int, y as int) == (x as int) % (y as int));
            }
            assert(arith_law(op, x as int, y as int, o, u32::MIN as int, u32::MAX as int));
        },
        _ => {},
    }
}

/// The binary instructions on two `u64` values `x` (the top of the stack)
/// and `y`: the arithmetic ones mean what [`arith_law`] says, the bitwise
/// ones are the bitwise and, or and exclusive or, and the shifts move `x` by
/// `y` bits, an overflow for a shift by a negative amount or by 64 or more.
/// Every result is a `u64`.
pub proof fn lemma_binary_u64(op: BinOp, x: u64, y: u64)
    ensures
        arith_law(op, x as int, y as int, spec_binary(op, Var::U64(x), Var::U64(y)), u64::MIN as int, u64::MAX as int),
        spec_binary(op, Var::U64(x), Var::U64(y)) matches BinOutcome::Value(w) ==> w is U64,
        spec_binary(op, Var::U64(x), Var::U64(y)) is Value || spec_binary(op, Var::U64(x), Var::U64(y)) is Overflow,
        op is BitAnd ==> spec_binary(op, Var::U64(x), Var::U64(y)) == BinOutcome::Value(Var::U64(x & y)),
        op is BitOr ==> spec_binary(op, Var::U64(x), Var::U64(y)) == BinOutcome::Value(Var::U64(x | y)),
        op is BitXor ==> spec_binary(op, Var::U64(x), Var::U64(y)) == BinOutcome::Value(Var::U64(x ^ y)),
        op is Shl ==> spec_binary(op, Var::U64(x), Var::U64(y))
            == if y < 64 { BinOutcome::Value(Var::U64(x << (y as u32))) } else { BinOutcome::Overflow },
        op is Shr ==> spec_binary(op, Var::U64(x), Var::U64(y))
            == if y < 64 { BinOutcome::Value(Var::U64(x >> (y as u32))) } else { BinOutcome::Overflow },
{
    if y != 0 {
        lemma_trunc_rem_cases(x as int, y as int);
        lemma_trunc_bounds(x as int, y as int, u64::MIN as int, u64::MAX as int);
    }
    if y < 64 {
        assert((y as u32) % 64u32 == y as u32);
    }
    let o = spec_binary(op, Var::U64(x), Var::U64(y));
    match op {
        BinOp::Add => assert(arith_law(op, x as int, y as int, o, u64::MIN as int, u64::MAX as int)),
        BinOp::Sub => assert(arith_law(op, x as int, y as int, o, u64::MIN as int, u64::MAX as int)),
        BinOp::Mul => assert(arith_law(op, x as int, y as int, o, u64::MIN as int, u64::MAX as int)),
        BinOp::Div => assert(arith_law(op, x as int, y as int, o, u64::MIN as int, u64::MAX as int)),
        BinOp::Mod => {
            if y != 0 {
                assert(0int % (y as int) == 0) by (nonlinear_arith) requires y > 0;
                assert(trunc_rem(x as int, y as int) == (x as int) % (y as int));
            }
            assert(arith_law(op, x as int, y as int, o, u64::MIN as int, u64::MAX as int));
        },
        _ => {},
    }
}

/// The binary instructions on two `i8` values `x` (the top of the stack)
/// and `y`: the arithmetic ones mean what [`arith_law`] says, the bitwise
/// ones are the bitwise and, or and exclusive or, and the shifts move `x` by
/// `y` bits, an overflow for a shift by a negative amount or by 8 or more.
/// Every result is a `i8`.
pub proof fn lemma_binary_i8(op: BinOp, x: i8, y: i8)
    ensures
        arith_law(op, x as int, y as int, spec_binary(op, Var::I8(x), Var::I8(y)), i8::MIN as int, i8::MAX as int),
        spec_binary(op, Var::I8(x), Var::I8(y)) matches BinOutcome::Value(w) ==> w is I8,
        spec_binary(op, Var::I8(x), Var::I8(y)) is Value || spec_binary(op, Var::I8(x), Var::I8(y)) is Overflow,
        op is BitAnd ==> spec_binary(op, Var::I8(x), Var::I8(y)) == BinOutcome::Value(Var::I8(x & y)),
        op is BitOr ==> spec_binary(op, Var::I8(x), Var::I8(y)) == BinOutcome::Value(Var::I8(x | y)),
        op is BitXor ==> spec_binary(op, Var::I8(x), Var::I8(y)) == BinOutcome::Value(Var::I8(x ^ y)),
        op is Shl ==> spec_binary(op, Var::I8(x), Var::I8(y))
            == if 0 <= y < 8 { BinOutcome::Value(Var::I8(x << (y as u32))) } else { BinOutcome::Overflow },
        op is Shr ==> spec_binary(op, Var::I8(x), Var::I8(y))
            == if 0 <= y < 8 { BinOutcome::Value(Var::I8(x >> (y as u32))) } else { BinOutcome::Overflow },
{
    if y != 0 {
        lemma_trunc_rem_cases(x as int, y as int);
        lemma_trunc_bounds(x as int, y as int, i8::MIN as int, i8::MAX as int);
    }
    if 0 <= y < 8 {
        assert((y as u32) % 8u32 == y as u32);
    }
    let o = spec_binary(op, Var::I8(x), Var::I8(y));
    match op {
        BinOp::Add => assert(arith_law(op, x as int, y as int, o, i8::MIN as int, i8::MAX as int)),
        BinOp::Sub => assert(arith_law(op, x as int, y as int, o, i8::MIN as int, i8::MAX as int)),
        BinOp::Mul => assert(arith_law(op, x as int, y as int, o, i8::MIN as int, i8::MAX as int)),
        BinOp::Div => assert(arith_law(op, x as int, y as int, o, i8::MIN as int, i8::MAX as int)),
        BinOp::Mod => assert(arith_law(op, x as int, y as int, o, i8::MIN as int, i8::MAX as int)),
        _ => {},
    }
}

/// The binary instructions on two `i16` values `x` (the top of the stack)
/// and `y`: the arithmetic ones mean what [`arith_law`] says, the bitwise
/// ones are the bitwise and, or and exclusive or, and the shifts move `x` by
/// `y` bits, an overflow for a shift by a negative amount or by 16 or more.
/// Every result is a `i16`.
pub proof fn lemma_binary_i16(op: BinOp, x: i16, y: i16)
    ensures
        arith_law(op, x as int, y as int, spec_binary(op, Var::I16(x), Var::I16(y)), i16::MIN as int, i16::MAX as int),
        spec_binary(op, Var::I16(x), Var::I16(y)) matches BinOutcome::Value(w) ==> w is I16,
        spec_binary(op, Var::I16(x), Var::I16(y)) is Value || spec_binary(op, Var::I16(x), Var::I16(y)) is Overflow,
        op is BitAnd ==> spec_binary(op, Var::I16(x), Var::I16(y)) == BinOutcome::Value(Var::I16(x & y)),
        op is BitOr ==> spec_binary(op, Var::I16(x), Var::I16(y)) == BinOutcome::Value(Var::I16(x | y)),
        op is BitXor ==> spec_binary(op, Var::I16(x), Var::I16(y)) == BinOutcome::Value(Var::I16(x ^ y)),
        op is Shl ==> spec_binary(op, Var::I16(x), Var::I16(y))
            == if 0 <= y < 16 { BinOutcome::Value(Var::I16(x << (y as u32))) } else { BinOutcome::Overflow },
        op is Shr ==> spec_binary(op, Var::I16(x), Var::I16(y))
            == if 0 <= y < 16 { BinOutcome::Value(Var::I16(x >> (y as u32))) } else { BinOutcome::Overflow },
{
    if y != 0 {
        lemma_trunc_rem_cases(x as int, y as int);
        lemma_trunc_bounds(x as int, y as int, i16::MIN as int, i16::MAX as int);
    }
    if 0 <= y < 16 {
        assert((y as u32) % 16u32 == y as u32);
    }
    let o = spec_binary(op, Var::I16(x), Var::I16(y));
    match op {
        BinOp::Add => assert(arith_law(op, x as int, y as int, o, i16::MIN as int, i16::MAX as int)),
        BinOp::Sub => assert(arith_law(op, x as int, y as int, o, i16::MIN as int, i16::MAX as int)),
        BinOp::Mul => assert(arith_law(op, x as int, y as int, o, i16::MIN as int, i16::MAX as int)),
        BinOp::Div => assert(arith_law(op, x as int, y as int, o, i16::MIN as int, i16::MAX as int)),
        BinOp::Mod => assert(arith_law(op, x as int, y as int, o, i16::MIN as int, i16::MAX as int)),
        _ => {},
    }
}

/// The binary instructions on two `i32` values `x` (the top of the stack)
/// and `y`: the arithmetic ones mean what [`arith_law`] says, the bitwise
/// ones are the bitwise and, or and exclusive or, and the shifts move `x` by
/// `y` bits, an overflow for a shift by a negative amount or by 32 or more.
/// Every result is a `i32`.
pub proof fn lemma_binary_i32(op: BinOp, x: i32, y: i32)
    ensures
        arith_law(op, x as int, y as int, spec_binary(op, Var::I32(x), Var::I32(y)), i32::MIN as int, i32::MAX as int),
        spec_binary(op, Var::I32(x), Var::I32(y)) matches BinOutcome::Value(w) ==> w is I32,
        spec_binary(op, Var::I32(x), Var::I32(y)) is Value || spec_binary(op, Var::I32(x), Var::I32(y)) is Overflow,
        op is BitAnd ==> spec_binary(op, Var::I32(x), Var::I32(y)) == BinOutcome::Value(Var::I32(x & y)),
        op is BitOr ==> spec_binary(op, Var::I32(x), Var::I32(y)) == BinOutcome::Value(Var::I32(x | y)),
        op is BitXor ==> spec_binary(op, Var::I32(x), Var::I32(y)) == BinOutcome::Value(Var::I32(x ^ y)),
        op is Shl ==> spec_binary(op, Var::I32(x), Var::I32(y))
            == if 0 <= y < 32 { BinOutcome::Value(Var::I32(x << (y as u32))) } else { BinOutcome::Overflow },
        op is Shr ==> spec_binary(op, Var::I32(x), Var::I32(y))
            == if 0 <= y < 32 { BinOutcome::Value(Var::I32(x >> (y as u32))) } else { BinOutcome::Overflow },
{
    if y != 0 {
        lemma_trunc_rem_cases(x as int, y as int);
        lemma_trunc_bounds(x as int, y as int, i32::MIN as int, i32::MAX as int);
    }
    if 0 <= y < 32 {
        assert((y as u32) % 32u32 == y as u32);
    }
    let o = spec_binary(op, Var::I32(x), Var::I32(y));
    match op {
        BinOp::Add => assert(arith_law(op, x as int, y as int, o, i32::MIN as int, i32::MAX as int)),
        BinOp::Sub => assert(arith_law(op, x as int, y as int, o, i32::MIN as int, i32::MAX as int)),
        BinOp::Mul => assert(arith_law(op, x as int, y as int, o, i32::MIN as int, i32::MAX as int)),
        BinOp::Div => assert(arith_law(op, x as int, y as int, o, i32::MIN as int, i32::MAX as int)),
        BinOp::Mod => assert(arith_law(op, x as int, y as int, o, i32::MIN as int, i32::MAX as int)),
        _ => {},
    }
}

/// The binary instructions on two `i64` values `x` (the top of the stack)
/// and `y`: the arithmetic ones mean what [`arith_law`] says, the bitwise
/// ones are the bitwise and, or and exclusive or, and the shifts move `x` by
/// `y` bits, an overflow for a shift by a negative amount or by 64 or more.
/// Every result is a `i64`.
pub proof fn lemma_binary_i64(op: BinOp, x: i64, y: i64)
    ensures
        arith_law(op, x as int, y as int, spec_binary(op, Var::I64(x), Var::I64(y)), i64::MIN as int, i64::MAX as int),
        spec_binary(op, Var::I64(x), Var::I64(y)) matches BinOutcome::Value(w) ==> w is I64,
        spec_binary(op, Var::I64(x), Var::I64(y)) is Value || spec_binary(op, Var::I64(x), Var::I64(y)) is Overflow,
        op is BitAnd ==> spec_binary(op, Var::I64(x), Var::I64(y)) == BinOutcome::Value(Var::I64(x & y)),
        op is BitOr ==> spec_binary(op, Var::I64(x), Var::I64(y)) == BinOutcome::Value(Var::I64(x | y)),
        op is BitXor ==> spec_binary(op, Var::I64(x), Var::I64(y)) == BinOutcome::Value(Var::I64(x ^ y)),
        op is Shl ==> spec_binary(op, Var::I64(x), Var::I64(y))
            == if 0 <= y < 64 { BinOutcome::Value(Var::I64(x << (y as u32))) } else { BinOutcome::Overflow },
        op is Shr ==> spec_binary(op, Var::I64(x), Var::I64(y))
            == if 0 <= y < 64 { BinOutcome::Value(Var::I64(x >> (y as u32))) } else { BinOutcome::Overflow },
{
    if y != 0 {
        lemma_trunc_rem_cases(x as int, y as int);
        lemma_trunc_bounds(x as int, y as int, i64::MIN as int, i64::MAX as int);
    }
    if 0 <= y < 64 {
        assert((y as u32) % 64u32 == y as u32);
    }
    let o = spec_binary(op, Var::I64(x), Var::I64(y));
    match op {
        BinOp::Add => assert(arith_law(op, x as int, y as int, o, i64::MIN as int, i64::MAX as int)),
        BinOp::Sub => assert(arith_law(op, x as int, y as int, o, i64::MIN as int, i64::MAX as int)),
        BinOp::Mul => assert(arith_law(op, x as int, y as int, o, i64::MIN as int, i64::MAX as int)),
        BinOp::Div => assert(arith_law(op, x as int, y as int, o, i64::MIN as int, i64::MAX as int)),
        BinOp::Mod => assert(arith_law(op, x as int, y as int, o, i64::MIN as int, i64::MAX as int)),
        _ => {},
    }
}

/// A binary instruction takes the top of the operand stack as its left
/// operand and the value below it as its right one, and replaces the two by
/// the result.
pub proof fn lemma_binary_instr_operands(op: BinOp, rest: Seq<Var>, left: Var, right: Var)
    ensures
        spec_binary(op, left, right) matches BinOutcome::Value(v)
            ==> spec_binary_instr(op, rest.push(right).push(left)) == (rest.push(v), Ok::<Flow, ErrorCode>(Flow::Next)),
        spec_binary(op, left, right) is Float ==> spec_binary_instr(op, rest.push(right).push(left))
            == (rest, Ok::<Flow, ErrorCode>(Flow::Float(FloatRequest { op, lhs: left, rhs: right }))),
{
    let st = rest.push(right).push(left);
    assert(st.subrange(0, st.len() - 2) =~= rest);
}

/// Converting widens without changing the number: a conversion that
/// exists gives a value of the target type that stands for the same number
/// as the value converted; every unsigned value of at most 32 bits converts
/// to `u32`, and every one of at most 16 bits to `u16`.
pub proof fn lemma_conv_keeps_value(t: ValueType, v: Var)
    ensures
        spec_conv(t, v) matches Some(w) ==> type_of_var(w) == Some(t) && int_of(v) is Some && int_of(w) == int_of(v),
        (t is U32 && (v is U8 || v is U16 || v is U32)) || (t is U16 && (v is U8 || v is U16)) ==> spec_conv(t, v) is Some,
{
}

/// A variable declared with `NEWV` of a basic type holds the zero of that
/// type: the number 0 for an integer type, the bit pattern of +0.0 for a
/// floating-point type, `false` for `bool`. The declaration succeeds, the
/// slot at `id` holds that value inline, and the pool is untouched.
pub proof fn lemma_new_var_is_zero(t: ValueType, id: nat, vars: Seq<Option<ValueSlot>>, pool: PoolView, text: String)
    requires
        t is U8 || t is U16 || t is U32 || t is U64 || t is I8 || t is I16 || t is I32 || t is I64
            || t is F32 || t is F64 || t is Bool,
    ensures
        spec_new_var(t, id, vars, pool, text).2 is Ok,
        spec_new_var(t, id, vars, pool, text).1 == pool,
        spec_slot_at(spec_new_var(t, id, vars, pool, text).0, id as int) matches Some(ValueSlot::Primitive(v))
            && type_of_var(v) == Some(t)
            && (v is F32 || v is F64 || v is Bool || int_of(v) == Some(0int))
            && (v matches Var::F32(b) ==> b == 0)
            && (v matches Var::F64(b) ==> b == 0)
            && (v matches Var::Bool(b) ==> !b),
{
}

/// `DUP` followed by `POP` leaves a non-empty operand stack as it was.
pub proof fn lemma_dup_then_pop(stack: Seq<Var>)
    requires
        stack.len() > 0,
    ensures
        spec_dup(stack).1 is Ok,
        spec_pop(spec_dup(stack).0) == (stack, Ok::<Flow, ErrorCode>(Flow::Next)),
{
    assert(stack.push(stack.last()).drop_last() =~= stack);
}

/// An operand written as the little-endian bytes of `v` is read back as
/// `v`: the interpreter decodes what the assembler encodes.
pub proof fn lemma_read_back(code: Seq<u8>, at: int, v: nat, n: nat, c: CursorPos)
    requires
        0 <= at,
        at + n <= code.len(),
        v < crate::parser::utils::pow256(n),
        code.subrange(at, at + n) == crate::parser::assembly::le_bytes(v, n),
    ensures
        read_at(code, at, c, n as int) == (at + n, advance(c, n as int), Some(v)),
{
    crate::parser::utils::lemma_le_value_of_le_bytes(v, n);
}

} // verus!
