//! The bytecode interpreter: reading bytecode, errors with their position,
//! and the machine that runs functions.
use vstd::prelude::*;
use vstd::string::*;
use vstd::slice::SliceAdditionalExecFns;
use std::sync::Arc;
use crate::env::{Env, FuncInfo, FuncPtr, spec_find_func};
use crate::tables::{func_table_entries, no_funcs};
use crate::exceptions::{Error, ErrorCode, Fault, spec_error_kind};
use crate::parser::assembly::spec_assembly_cmd;
use crate::memory::{MemoryPool, PoolView};
use crate::env::spec_get_var;
use crate::parser::cmd::cmd_u8;
use crate::parser::exec_cmd::{self, BinOp, Flow, FloatRequest, read_at, advance, cursor_room, spec_binary_instr,
    spec_jmp, spec_movc, spec_newv, spec_delv, spec_delp, spec_pushvar, spec_popvar, spec_storevar,
    spec_dup, spec_ldc, spec_pop, spec_conv_top, binary_overflows, ldc_in_range, pool_ok};
use crate::parser::utils::{read_bin_to_u8, read_bin_to_u16, read_bin_to_u32};
use crate::value::{Var, ValueSlot, VarId, bin_type_supported, type_from_bin_supported};

verus! {

/// A position in a function's bytecode, counted from 1, and the function.
#[derive(Debug, Copy, Clone, Hash, PartialEq, Eq)]
pub struct CursorPos {
    pub pos: usize,
    pub func: FuncPtr,
}

/// An error of the interpreter: what went wrong and where.
#[derive(Debug, Clone, PartialEq, Eq)]
pub struct ExecError {
    pub error: Error,
    pub pos: CursorPos,
}

impl ExecError {
    pub fn new(error: Error, pos: CursorPos) -> (res: Self)
        ensures
            res.error == error,
            res.pos == pos,
    {
        Self { error, pos }
    }
}

/// Attaches a position to the error of a result.
pub fn ok_or_err<T>(result: Result<T, Error>, pos: &CursorPos) -> (res: Result<T, ExecError>)
    ensures
        match result {
            Ok(v) => res == Ok::<T, ExecError>(v),
            Err(e) => res == Err::<T, ExecError>(ExecError { error: e, pos: *pos }),
        },
{
    match result {
        Ok(value) => Ok(value),
        Err(error) => Err(ExecError::new(error, *pos)),
    }
}

impl CursorPos {
    /// The start of function `func`: position 1.
    pub fn new(func: FuncPtr) -> (res: Self)
        ensures
            res.pos == 1,
            res.func == func,
    {
        Self { pos: 1, func }
    }

    pub fn with_pos(pos: usize, func: FuncPtr) -> (res: Self)
        ensures
            res.pos == pos,
            res.func == func,
    {
        Self { pos, func }
    }

    /// Counts one byte.
    pub fn push_u8(&mut self, byte: u8)
        requires
            old(self).pos < usize::MAX,
        ensures
            final(self).pos == old(self).pos + 1,
            final(self).func == old(self).func,
    {
        self.pos = self.pos + 1;
    }

    /// Counts the bytes of `bytes`.
    pub fn push_bytes(&mut self, bytes: &[u8])
        requires
            old(self).pos + bytes@.len() <= usize::MAX,
        ensures
            final(self).pos == old(self).pos + bytes@.len(),
            final(self).func == old(self).func,
    {
        self.pos = self.pos + bytes.len();
    }

    /// Reads as many bytes of `input` from `*at` into `buf` as fit and
    /// remain, and returns how many; the cursor does not count them.
    pub fn read(&mut self, input: &[u8], at: &mut usize, buf: &mut [u8]) -> (res: Result<usize, ExecError>)
        requires
            *old(at) <= input@.len(),
        ensures
            *final(self) == *old(self),
            res matches Ok(n) && n == (if input@.len() - *old(at) < old(buf)@.len() { input@.len() - *old(at) } else { old(buf)@.len() as int })
                && *final(at) == *old(at) + n
                && final(buf)@ == input@.subrange(*old(at) as int, *final(at) as int) + old(buf)@.subrange(n as int, old(buf)@.len() as int),
    {
        let remaining = input.len() - *at;
        let n = if remaining < buf.len() { remaining } else { buf.len() };
        let start = *at;
        let mut i: usize = 0;
        let ghost buf0 = buf@;
        while i < n
            invariant
                input@.len() == input.len(),
                start + n <= input@.len(),
                n <= buf0.len(),
                i <= n,
                buf@.len() == buf0.len(),
                forall|j: int| 0 <= j < i ==> buf@[j] == input@[start + j],
                forall|j: int| n <= j < buf0.len() ==> buf@[j] == buf0[j],
            decreases n - i,
        {
            buf.set(i, input[start + i]);
            i = i + 1;
        }
        *at = start + n;
        proof {
            assert(buf@ =~= input@.subrange(start as int, (start + n) as int) + buf0.subrange(n as int, buf0.len() as int));
        }
        Ok(n)
    }

    /// Reads exactly `buf.len()` bytes of `input` from `*at` into `buf` and
    /// counts them. With fewer bytes left the rest of the input is consumed,
    /// `buf` and the cursor are left as they were, and the result is an
    /// `EOFError` at the cursor.
    pub fn read_exact(&mut self, input: &[u8], at: &mut usize, buf: &mut [u8]) -> (res: Result<(), ExecError>)
        requires
            *old(at) <= input@.len(),
            *old(at) + old(buf)@.len() <= input@.len() ==> old(self).pos + old(buf)@.len() <= usize::MAX,
        ensures
            final(self).func == old(self).func,
            final(buf)@.len() == old(buf)@.len(),
            *old(at) + old(buf)@.len() <= input@.len() ==> res is Ok
                && *final(at) == *old(at) + old(buf)@.len()
                && final(buf)@ == input@.subrange(*old(at) as int, *final(at) as int)
                && final(self).pos == old(self).pos + old(buf)@.len(),
            *old(at) + old(buf)@.len() > input@.len() ==> (res matches Err(e) && e.error is EOFError && e.pos == *old(self)
                    && crate::exceptions::spec_message(e.error)@ == "failed to fill whole buffer"@)
                && *final(at) == input@.len()
                && final(buf)@ == old(buf)@
                && *final(self) == *old(self),
    {
        let n = buf.len();
        if input.len() - *at < n {
            *at = input.len();
            return Err(ExecError::new(Error::EOFError(String::from_str("failed to fill whole buffer")), *self));
        }
        let start = *at;
        let mut i: usize = 0;
        while i < n
            invariant
                input@.len() == input.len(),
                n == buf@.len(),
                start + n <= input@.len(),
                i <= n,
                forall|j: int| 0 <= j < i ==> buf@[j] == input@[start + j],
            decreases n - i,
        {
            buf.set(i, input[start + i]);
            i = i + 1;
        }
        *at = start + n;
        proof {
            assert(buf@ =~= input@.subrange(start as int, (start + n) as int));
        }
        self.pos = self.pos + n;
        Ok(())
    }

    /// Moves to byte `pos` of the input (which may lie past its end, where
    /// reads find nothing) and to position `pos`.
    pub fn seek(&mut self, input: &[u8], at: &mut usize, pos: u64) -> (res: Result<u64, ExecError>)
        ensures
            res == Ok::<u64, ExecError>(pos),
            *final(at) == if pos < input@.len() { pos as int } else { input@.len() as int },
            final(self).pos == pos as usize,
            final(self).func == old(self).func,
    {
        *at = if pos < input.len() as u64 { pos as usize } else { input.len() };
        self.pos = pos as usize;
        Ok(pos)
    }
}

/// The binary operator of opcodes `0` to `9`.
pub open spec fn binop_of(op: u8) -> BinOp {
    if op == 0 { BinOp::Add }
    else if op == 1 { BinOp::Sub }
    else if op == 2 { BinOp::Mul }
    else if op == 3 { BinOp::Div }
    else if op == 4 { BinOp::Mod }
    else if op == 5 { BinOp::Shl }
    else if op == 6 { BinOp::Shr }
    else if op == 7 { BinOp::BitOr }
    else if op == 8 { BinOp::BitAnd }
    else { BinOp::BitXor }
}

fn binop(op: u8) -> (res: BinOp)
    ensures
        res == binop_of(op),
{
    if op == cmd_u8::ADD { BinOp::Add }
    else if op == cmd_u8::SUB { BinOp::Sub }
    else if op == cmd_u8::MUL { BinOp::Mul }
    else if op == cmd_u8::DIV { BinOp::Div }
    else if op == cmd_u8::MOD { BinOp::Mod }
    else if op == cmd_u8::SHL { BinOp::Shl }
    else if op == cmd_u8::SHR { BinOp::Shr }
    else if op == cmd_u8::BIT_OR { BinOp::BitOr }
    else if op == cmd_u8::BIT_AND { BinOp::BitAnd }
    else { BinOp::BitXor }
}

/// What the instruction at `at` of a function's code does: the position,
/// cursor, operand stack, variable slots of the current environment and
/// pool after it, and how it goes on or the kind of its error. The opcode
/// byte counts on the cursor; `NOP` counts one more. `env` is the current
/// environment (its slots are the ones given back changed); `text` is the
/// empty string that `NEWV` gives a string variable. Opcodes without an
/// instruction here (`IFJMP`, `ELSE_JUMP`, `MOV`, `NEWP` and those past
/// `CONV_TOP`) are `InvalidOperation`; the end of the code is `EOFError`.
pub open spec fn spec_instr(code: Seq<u8>, constants: Seq<Var>, env: Env, pool: PoolView, at: int, c: CursorPos,
    stack: Seq<Var>, text: String) -> (int, CursorPos, Seq<Var>, Seq<Option<ValueSlot>>, PoolView, Result<Flow, ErrorCode>)
{
    let vars = env.vars@;
    if at < 0 || at >= code.len() {
        (code.len() as int, c, stack, vars, pool, Err(ErrorCode::EOFError))
    } else {
        let op = code[at];
        let a1 = at + 1;
        let c1 = advance(c, 1);
        if op <= 9 {
            let (st, r) = spec_binary_instr(binop_of(op), stack);
            (a1, c1, st, vars, pool, r)
        } else if op == 10 {
            let (a2, c2, id) = read_at(code, a1, c1, 1);
            match id {
                None => (a2, c2, stack, vars, pool, Err(ErrorCode::EOFError)),
                Some(id) => if id < constants.len() {
                    (a2, c2, stack, vars, pool, Ok(Flow::Return(constants[id as int])))
                } else {
                    (a2, c2, stack, vars, pool, Err(ErrorCode::OutOfIndex))
                },
            }
        } else if op == 11 {
            let (a2, c2, id) = read_at(code, a1, c1, 2);
            match id {
                None => (a2, c2, stack, vars, pool, Err(ErrorCode::EOFError)),
                Some(id) => match spec_get_var(env, pool, id as u32) {
                    Ok(v) => (a2, c2, stack, vars, pool, Ok(Flow::Return(v))),
                    Err(k) => (a2, c2, stack, vars, pool, Err(k)),
                },
            }
        } else if op == 12 {
            if stack.len() == 0 {
                (a1, c1, stack, vars, pool, Err(ErrorCode::OutOfIndex))
            } else {
                (a1, c1, stack.drop_last(), vars, pool, Ok(Flow::Return(stack.last())))
            }
        } else if op == 13 {
            let (a2, c2, r) = spec_jmp(code, a1, c1);
            (a2, c2, stack, vars, pool, r)
        } else if op == 16 {
            let (a2, c2, v2, p2, r) = spec_movc(code, a1, c1, constants, vars, pool);
            (a2, c2, stack, v2, p2, r)
        } else if op == 18 {
            let (a2, c2, v2, p2, r) = spec_newv(code, a1, c1, vars, pool, text);
            (a2, c2, stack, v2, p2, r)
        } else if op == 20 {
            let (a2, c2, v2, p2, r) = spec_delv(code, a1, c1, vars, pool);
            (a2, c2, stack, v2, p2, r)
        } else if op == 21 {
            let (a2, c2, p2, r) = spec_delp(code, a1, c1, pool);
            (a2, c2, stack, vars, p2, r)
        } else if op == 22 {
            (a1, advance(c1, 1), stack, vars, pool, Ok(Flow::Next))
        } else if op == 23 {
            let (a2, c2, f) = read_at(code, a1, c1, 4);
            match f {
                None => (a2, c2, stack, vars, pool, Err(ErrorCode::EOFError)),
                Some(f) => (a2, c2, stack, vars, pool, Ok(Flow::Call(f as u32))),
            }
        } else if op == 24 {
            let (a2, c2, st, r) = spec_pushvar(code, a1, c1, env, pool, stack);
            (a2, c2, st, vars, pool, r)
        } else if op == 25 {
            let (a2, c2, st, v2, p2, r) = spec_popvar(code, a1, c1, stack, vars, pool);
            (a2, c2, st, v2, p2, r)
        } else if op == 26 {
            let (a2, c2, v2, p2, r) = spec_storevar(code, a1, c1, stack, vars, pool);
            (a2, c2, stack, v2, p2, r)
        } else if op == 27 {
            let (st, r) = spec_dup(stack);
            (a1, c1, st, vars, pool, r)
        } else if op == 28 {
            let (a2, c2, st, r) = spec_ldc(code, a1, c1, constants, stack);
            (a2, c2, st, vars, pool, r)
        } else if op == 29 {
            let (st, r) = spec_pop(stack);
            (a1, c1, st, vars, pool, r)
        } else if op == 30 {
            let (a2, c2, st, r) = spec_conv_top(code, a1, c1, stack);
            (a2, c2, st, vars, pool, r)
        } else {
            (a1, c1, stack, vars, pool, Err(ErrorCode::InvalidOperation))
        }
    }
}

/// When the `n` bytes of the operand after the opcode at `at` are not all
/// there, the message of the short read, naming what needed the operand.
pub open spec fn short_operand(code: Seq<u8>, at: int, n: int, what: Seq<char>, text: Seq<char>) -> bool {
    at + 1 + n > code.len() ==> crate::parser::utils::short_read_text(what, code.len() - at - 1, text)
}

/// The message of an instruction at `at` that fails, for the instructions
/// whose messages are fixed by the instruction itself: an operand cut off
/// by the end of the code, the binary instructions, `RETC` with a constant
/// past the pool, `POPRET`, `NEWV`, `MOVC` with a constant past the pool, `POPVAR`
/// and `STOREVAR` on an empty stack, `DUP`, `POP`, `CONV_TOP` and an opcode
/// without an instruction (its value in upper-case hexadecimal). Failures
/// that come from the environment or the pool are not described here; the
/// functions of those state their messages.
pub open spec fn instr_error_text(code: Seq<u8>, constants: Seq<Var>, at: int, stack: Seq<Var>, text: Seq<char>) -> bool {
    let op = code[at];
    if op <= 9 {
        exec_cmd::binary_error_text(binop_of(op), stack, text)
    } else if op == 11 {
        short_operand(code, at, 2, "var_id of retv"@, text)
    } else if op == 13 {
        short_operand(code, at, 8, "pos of jmp"@, text)
    } else if op == 18 {
        exec_cmd::newv_error_text(code, at + 1, text)
    } else if op == 20 {
        short_operand(code, at, 2, "var_id of delv"@, text)
    } else if op == 21 {
        short_operand(code, at, 4, "ptr_var_id of delp"@, text)
    } else if op == 23 {
        short_operand(code, at, 4, "func_id of call"@, text)
    } else if op == 24 {
        short_operand(code, at, 2, "var_id of loadvar"@, text)
    } else if op == 28 {
        short_operand(code, at, 1, "val_id of ldc"@, text)
    } else if op == 10 {
        if at + 2 <= code.len() {
            crate::text::numbered("Constant pool, "@, code[at + 1] as u64, text)
        } else {
            crate::parser::utils::short_read_text("val_id of retc"@, code.len() - at - 1, text)
        }
    } else if op == 12 {
        text == "popret from empty constant pool"@
    } else if op == 16 {
        &&& short_operand(code, at, 2, "val_index of movc"@, text)
        &&& (at + 3 <= code.len() < at + 5 ==> crate::parser::utils::short_read_text("dest_var_id of movc"@, code.len() - at - 3, text))
        &&& at + 5 <= code.len() && crate::parser::utils::le_value(code.subrange(at + 1, at + 3)) >= constants.len() ==>
            crate::text::numbered_then("(MOVC val_index) "@, crate::parser::utils::le_value(code.subrange(at + 1, at + 3)) as u64,
                " out of index"@, text)
    } else if op == 25 {
        &&& short_operand(code, at, 2, "var_id of popvar"@, text)
        &&& at + 3 <= code.len() && stack.len() == 0 ==> text == "(POPVAR) Operand stack is empty"@
    } else if op == 26 {
        &&& short_operand(code, at, 2, "var_id of storevar"@, text)
        &&& at + 3 <= code.len() && stack.len() == 0 ==> text == "(STOREVAR) Operand stack is empty"@
    } else if op == 27 {
        text == "(DUP) Operand stack is empty"@
    } else if op == 29 {
        text == "(POP) Operand stack underflow"@
    } else if op == 30 {
        crate::value::spec_type_from_bin(code, at + 1) matches Some(t) ==> exec_cmd::conv_top_error_text(t, stack, text)
    } else if op == 14 || op == 15 || op == 17 || op == 19 || op >= 31 {
        text == "bin '0x"@ + crate::text::spec_upper_hex_text(op) + "'"@
    } else {
        true
    }
}

/// Whether the instruction at `at` panics in Rust: arithmetic that
/// overflows, a constant index past the constant pool, or a type code the
/// reader does not know.
pub open spec fn spec_instr_panics(code: Seq<u8>, constants: Seq<Var>, at: int, stack: Seq<Var>) -> bool {
    0 <= at < code.len() && {
        let op = code[at];
        ||| op <= 9 && binary_overflows(binop_of(op), stack)
        ||| op == 28 && !ldc_in_range(code, at + 1, constants)
        ||| (op == 18 || op == 30) && !bin_type_supported(code, at + 1)
    }
}

/// The kind of an instruction's result.
pub open spec fn flow_kind(r: Result<Flow, ExecError>) -> Result<Flow, ErrorCode> {
    match r {
        Ok(f) => Ok(f),
        Err(e) => Err(crate::exceptions::spec_error_kind(e.error)),
    }
}

/// Whether the instruction at `*at` panics; see [`spec_instr_panics`].
pub fn instr_panics(code: &[u8], constants: &[Var], at: usize, stack: &Vec<Var>) -> (res: bool)
    ensures
        res == spec_instr_panics(code@, constants@, at as int, stack@),
{
    if at >= code.len() {
        return false;
    }
    let op = code[at];
    if op <= 9 {
        let n = stack.len();
        if n < 2 {
            return false;
        }
        match exec_cmd::int_binary(binop(op), &stack[n - 1], &stack[n - 2]) {
            Some(None) => true,
            _ => false,
        }
    } else if op == cmd_u8::LDC {
        at + 1 < code.len() && code[at + 1] as usize >= constants.len()
    } else if op == cmd_u8::NEWV || op == cmd_u8::CONV_TOP {
        !type_from_bin_supported(code, at + 1)
    } else {
        false
    }
}

/// Runs the instruction at `*at`; see [`spec_instr`]. The instruction must
/// not be one that panics.
#[verifier::spinoff_prover]
#[verifier::rlimit(80)]
pub fn run_instr(code: &[u8], constants: &[Var], env: &mut Env, pool: &mut MemoryPool, at: &mut usize,
    cursor: &mut CursorPos, operand_stack: &mut Vec<Var>) -> (res: Result<Flow, ExecError>)
    requires
        *old(at) <= code@.len(),
        cursor_room(code@.len() as int, *old(at) as int, old(cursor).pos as int),
        !spec_instr_panics(code@, constants@, *old(at) as int, old(operand_stack)@),
        pool_ok(old(pool)@),
        2 * code@.len() + 1 <= usize::MAX,
    ensures
        exists|text: String| text@ == Seq::<char>::empty()
            && (*final(at) as int, *final(cursor), final(operand_stack)@, final(env).vars@, final(pool)@, flow_kind(res))
                == #[trigger] spec_instr(code@, constants@, *old(env), old(pool)@, *old(at) as int, *old(cursor), old(operand_stack)@, text),
        exec_cmd::err_at(res, *final(cursor)),
        *old(at) >= code@.len() ==> (res matches Err(e) && crate::text::numbered(
            "Unexpected EOF when running VM, at "@, old(cursor).pos as u64, crate::exceptions::spec_message(e.error)@)),
        *old(at) < code@.len() ==> (res matches Err(e) ==> instr_error_text(code@, constants@, *old(at) as int,
            old(operand_stack)@, crate::exceptions::spec_message(e.error)@)),
        final(env).parent == old(env).parent,
        final(env).funcs == old(env).funcs,
        pool_ok(final(pool)@),
        *final(at) <= code@.len(),
        cursor_room(code@.len() as int, *final(at) as int, final(cursor).pos as int),
{
    let ghost e0 = *env;
    let ghost q0 = pool@;
    let ghost a0 = *at as int;
    let ghost c0 = *cursor;
    let ghost s0 = operand_stack@;
    let text0 = String::new();
    let ghost g = text0;
    let ghost mut w = g;
    let mut buffer = [0u8; 1];
    if *at >= code.len() {
        assert(spec_instr(code@, constants@, e0, q0, a0, c0, s0, g).0 == *at as int);
        let message = crate::text::message_with_number("Unexpected EOF when running VM, at ", cursor.pos as u64);
        return Err(ExecError::new(Error::EOFError(message), *cursor));
    }
    let _ = cursor.read_exact(code, at, &mut buffer);
    let op = buffer[0];
    assert(op == code@[a0]);
    let res: Result<Flow, ExecError> = if op <= cmd_u8::XOR {
        match exec_cmd::binary(binop(op), operand_stack, cursor) {
            Ok(None) => Ok(Flow::Next),
            Ok(Some(req)) => Ok(Flow::Float(req)),
            Err(e) => Err(e),
        }
    } else if op == cmd_u8::RETC {
        match read_bin_to_u8(code, at, "val_id of retc", cursor) {
            Ok(val_id) => {
                proof { crate::parser::utils::lemma_le_value_one(code@, a0 + 1); }
                if (val_id as usize) < constants.len() {
                    Ok(Flow::Return(constants[val_id as usize].clone()))
                } else {
                    let message = crate::text::message_with_number("Constant pool, ", val_id as u64);
                    Err(ExecError::new(Error::OutOfIndex(message), *cursor))
                }
            },
            Err(e) => Err(e),
        }
    } else if op == cmd_u8::RETV {
        match read_bin_to_u16(code, at, "var_id of retv", cursor) {
            Ok(var_id) => match env.get_var(pool, &VarId(var_id as u32)) {
                Ok(v) => Ok(Flow::Return(v)),
                Err(e) => Err(ExecError::new(e, *cursor)),
            },
            Err(e) => Err(e),
        }
    } else if op == cmd_u8::POPRET {
        match operand_stack.pop() {
            Some(v) => Ok(Flow::Return(v)),
            None => Err(ExecError::new(Error::OutOfIndex(String::from_str("popret from empty constant pool")), *cursor)),
        }
    } else if op == cmd_u8::JMP {
        match exec_cmd::jmp(code, at, &Vec::new(), cursor) {
            Ok(()) => Ok(Flow::Next),
            Err(e) => Err(e),
        }
    } else if op == cmd_u8::MOVC {
        unit_flow(exec_cmd::movc(code, at, env, pool, constants, cursor))
    } else if op == cmd_u8::NEWV {
        let r = exec_cmd::newv(code, at, env, pool, cursor);
        proof {
            w = choose|t: String| t@ == Seq::<char>::empty()
                && (*at as int, *cursor, env.vars@, pool@, exec_cmd::flow_of(r))
                    == #[trigger] spec_newv(code@, a0 + 1, advance(c0, 1), e0.vars@, q0, t);
        }
        unit_flow(r)
    } else if op == cmd_u8::DELV {
        unit_flow(exec_cmd::delv(code, at, env, pool, cursor))
    } else if op == cmd_u8::DELP {
        unit_flow(exec_cmd::delp(code, at, pool, cursor))
    } else if op == cmd_u8::NOP {
        cursor.pos = cursor.pos + 1;
        Ok(Flow::Next)
    } else if op == cmd_u8::CALL {
        match read_bin_to_u32(code, at, "func_id of call", cursor) {
            Ok(func_id) => Ok(Flow::Call(func_id)),
            Err(e) => Err(e),
        }
    } else if op == cmd_u8::PUSHVAR {
        unit_flow(exec_cmd::pushvar(code, at, env, pool, operand_stack, cursor))
    } else if op == cmd_u8::POPVAR {
        unit_flow(exec_cmd::popvar(code, at, env, pool, operand_stack, cursor))
    } else if op == cmd_u8::STOREVAR {
        unit_flow(exec_cmd::storevar(code, at, env, pool, operand_stack, cursor))
    } else if op == cmd_u8::DUP {
        unit_flow(exec_cmd::dup(operand_stack, cursor))
    } else if op == cmd_u8::LDC {
        unit_flow(exec_cmd::ldc(code, at, constants, operand_stack, cursor))
    } else if op == cmd_u8::POP {
        unit_flow(exec_cmd::pop(operand_stack, cursor))
    } else if op == cmd_u8::CONV_TOP {
        unit_flow(exec_cmd::conv_top(code, at, operand_stack, cursor))
    } else {
        let message = String::from_str("bin '0x").concat(crate::text::upper_hex_text(op).as_str()).concat("'");
        Err(ExecError::new(Error::InvalidOperation(message), *cursor))
    };
    assert(spec_instr(code@, constants@, e0, q0, a0, c0, s0, w).0 == *at as int);
    res
}

/// An instruction's result that carries no value, as a flow.
fn unit_flow(r: Result<(), ExecError>) -> (res: Result<Flow, ExecError>)
    ensures
        match r {
            Ok(()) => res matches Ok(Flow::Next),
            Err(e) => res == Err::<Flow, ExecError>(e),
        },
{
    match r {
        Ok(()) => Ok(Flow::Next),
        Err(e) => Err(e),
    }
}

/// A function being run: its compiled form, the position it reads at, its
/// cursor and its operand stack.
pub struct CallFrame {
    pub info: Arc<FuncInfo>,
    pub at: usize,
    pub cursor: CursorPos,
    pub operand_stack: Vec<Var>,
}

/// The interpreter: the environment of the innermost running function,
/// enclosed by those of its callers and, below them, the environment the
/// run started from; the memory pool; and the frames of the running
/// functions, innermost last.
pub struct Machine {
    pub env: Env,
    pub pool: MemoryPool,
    pub frames: Vec<CallFrame>,
}

/// What one step of the interpreter came to.
pub enum Step {
    /// The next instruction is ready to run.
    Continue,
    /// The operands of a floating-point operation were popped: the caller
    /// computes `lhs op rhs` and hands the result to [`Machine::push_float`].
    Float(FloatRequest),
    /// The outermost function returned this value.
    Finished(Var),
    /// The run ended with this error.
    Failed(ExecError),
    /// The instruction panics in Rust (overflowing arithmetic, a constant
    /// past the constant pool, a type code the reader does not know); the
    /// message is the panic's. Nothing was changed.
    Abort(String),
}

/// The number of environments that enclose `e`.
pub open spec fn env_depth(e: Env) -> nat
    decreases e,
{
    match e.parent {
        Some(p) => 1 + env_depth(*p),
        None => 0,
    }
}

/// Whether a code length leaves the cursor room to count every byte twice.
pub open spec fn code_fits(len: int) -> bool {
    2 * len + 1 <= usize::MAX
}

/// A frame reads within its code and its cursor cannot overflow.
pub open spec fn frame_ok(f: CallFrame) -> bool {
    &&& f.at <= f.info.code@.len()
    &&& code_fits(f.info.code@.len() as int)
    &&& cursor_room(f.info.code@.len() as int, f.at as int, f.cursor.pos as int)
}

/// The frame `g` is `f` moved on to `at` and `c` with operand stack `st`.
pub open spec fn frame_moved(f: CallFrame, g: CallFrame, at: int, c: CursorPos, st: Seq<Var>) -> bool {
    &&& g.info == f.info
    &&& g.at == at
    &&& g.cursor == c
    &&& g.operand_stack@ == st
}

/// The machine `n` is `m` whose innermost frame moved on and whose current
/// environment's slots and pool became `vars` and `pool`.
pub open spec fn machine_moved(m: Machine, n: Machine, at: int, c: CursorPos, st: Seq<Var>,
    vars: Seq<Option<ValueSlot>>, pool: PoolView) -> bool
{
    let k = m.frames@.len() - 1;
    &&& n.frames@.len() == m.frames@.len()
    &&& n.frames@.subrange(0, k) == m.frames@.subrange(0, k)
    &&& frame_moved(m.frames@[k], n.frames@[k], at, c, st)
    &&& n.env.vars@ == vars
    &&& n.env.parent == m.env.parent
    &&& n.env.funcs == m.env.funcs
    &&& n.pool@ == pool
}

/// The innermost function of `m` returned `v`: its frame and environment
/// are gone and `v` is on its caller's operand stack, or, for the outermost
/// function, the run is finished.
pub open spec fn machine_returned(m: Machine, n: Machine, res: Step, v: Var) -> bool {
    let k = m.frames@.len() - 1;
    &&& n.pool@ == m.pool@
    &&& m.env.parent is Some
    &&& n.env == *m.env.parent.unwrap()
    &&& if k == 0 {
        res == Step::Finished(v) && n.frames@.len() == 0
    } else {
        &&& res is Continue
        &&& n.frames@.len() == k
        &&& n.frames@.subrange(0, k - 1) == m.frames@.subrange(0, k - 1)
        &&& frame_moved(m.frames@[k - 1], n.frames@[k - 1], m.frames@[k - 1].at as int,
            m.frames@[k - 1].cursor, m.frames@[k - 1].operand_stack@.push(v))
    }
}

/// The innermost function of `m`, moved on to `at` and `c` with operand
/// stack `st`, called function `g`: a new frame runs `g` from its start on a
/// copy of the caller's operand stack, in a new environment enclosed by the
/// caller's. A function that no environment of the chain has is `NotFound`
/// at the start of `g`.
pub open spec fn machine_called(m: Machine, n: Machine, res: Step, g: u32, at: int, c: CursorPos, st: Seq<Var>) -> bool {
    let k = m.frames@.len() - 1;
    let start = CursorPos { pos: 1, func: FuncPtr(g) };
    match spec_find_func(m.env, g) {
        None => (res matches Step::Failed(e) && e.error is NotFound && e.pos == start
                && crate::text::numbered_then("Function "@, g as u64, " not found"@, crate::exceptions::spec_message(e.error)@))
            && machine_moved(m, n, at, c, st, m.env.vars@, m.pool@),
        Some(info) => if !code_fits(info.code@.len() as int) {
            (res matches Step::Failed(e) && e.error is OutOfMemory && e.pos == start
                && crate::exceptions::spec_message(e.error)@ == "function code too large"@)
                && machine_moved(m, n, at, c, st, m.env.vars@, m.pool@)
        } else {
            &&& res is Continue
            &&& n.pool@ == m.pool@
            &&& n.frames@.len() == m.frames@.len() + 1
            &&& n.frames@.subrange(0, k) == m.frames@.subrange(0, k)
            &&& frame_moved(m.frames@[k], n.frames@[k], at, c, st)
            &&& *n.frames@[k + 1].info == info
            &&& n.frames@[k + 1].at == 0
            &&& n.frames@[k + 1].cursor == start
            &&& n.frames@[k + 1].operand_stack@ == st
            &&& n.env.vars@.len() == 0
            &&& n.env.parent matches Some(outer) && outer.vars@ == m.env.vars@ && outer.parent == m.env.parent
                && outer.funcs == m.env.funcs
            &&& func_table_entries(n.env.funcs) == no_funcs()
        },
    }
}

/// What a step of `m` that ran an instruction with effect `e` (see
/// [`spec_instr`]) left as `n` and reported as `res`.
pub open spec fn step_effect(m: Machine, n: Machine, res: Step,
    e: (int, CursorPos, Seq<Var>, Seq<Option<ValueSlot>>, PoolView, Result<Flow, ErrorCode>)) -> bool
{
    let (at, c, st, vars, pool, r) = e;
    match r {
        Ok(Flow::Next) => res is Continue && machine_moved(m, n, at, c, st, vars, pool),
        Ok(Flow::Float(req)) => res == Step::Float(req) && machine_moved(m, n, at, c, st, vars, pool),
        Err(kind) => (res matches Step::Failed(err) && spec_error_kind(err.error) == kind && err.pos == c)
            && machine_moved(m, n, at, c, st, vars, pool),
        Ok(Flow::Return(v)) => machine_returned(m, n, res, v),
        Ok(Flow::Call(g)) => machine_called(m, n, res, g, at, c, st),
    }
}

impl Machine {
    /// The machine's invariant: a well-formed pool within its capacity, an
    /// environment for every frame, and frames that read within their code.
    pub open spec fn inv(&self) -> bool {
        &&& pool_ok(self.pool@)
        &&& env_depth(self.env) >= self.frames@.len()
        &&& forall|i: int| 0 <= i < self.frames@.len() ==> #[trigger] frame_ok(self.frames@[i])
    }

    /// A machine with nothing running, over environment `env` and `pool`.
    pub fn new(env: Env, pool: MemoryPool) -> (res: Machine)
        requires
            pool_ok(pool@),
        ensures
            res.env == env,
            res.pool == pool,
            res.frames@.len() == 0,
            res.inv(),
    {
        Machine { env, pool, frames: Vec::new() }
    }

    /// Starts running function `func_id` (looked up through the
    /// environments) on operand stack `args`, in a new environment enclosed
    /// by the current one. A function that is not found is `NotFound` at
    /// the start of the function, and nothing changes.
    pub fn call(&mut self, func_id: FuncPtr, args: Vec<Var>) -> (res: Result<(), ExecError>)
        requires
            old(self).inv(),
        ensures
            final(self).inv(),
            match spec_find_func(old(self).env, func_id.0) {
                None => (res matches Err(e) && e.error is NotFound && e.pos == CursorPos { pos: 1, func: func_id }
                        && crate::text::numbered_then("Function "@, func_id.0 as u64, " not found"@,
                            crate::exceptions::spec_message(e.error)@))
                    && *final(self) == *old(self),
                Some(info) => if !code_fits(info.code@.len() as int) {
                    (res matches Err(e) && e.error is OutOfMemory && e.pos == CursorPos { pos: 1, func: func_id }
                        && crate::exceptions::spec_message(e.error)@ == "function code too large"@)
                        && *final(self) == *old(self)
                } else {
                    &&& res is Ok
                    &&& final(self).pool == old(self).pool
                    &&& final(self).frames@.len() == old(self).frames@.len() + 1
                    &&& final(self).frames@.subrange(0, old(self).frames@.len() as int) == old(self).frames@
                    &&& *final(self).frames@.last().info == info
                    &&& final(self).frames@.last().at == 0
                    &&& final(self).frames@.last().cursor == CursorPos { pos: 1, func: func_id }
                    &&& final(self).frames@.last().operand_stack@ == args@
                    &&& final(self).env.vars@.len() == 0
                    &&& final(self).env.parent == Some(Box::new(old(self).env))
                    &&& func_table_entries(final(self).env.funcs) == no_funcs()
                },
            },
    {
        let start = CursorPos::new(func_id);
        let callee = match self.env.get_func(&func_id) {
            Ok(info) => info,
            Err(e) => {
                return Err(ExecError::new(e, start));
            },
        };
        if callee.code.len() > (usize::MAX - 1) / 2 {
            return Err(ExecError::new(Error::OutOfMemory(String::from_str("function code too large")), start));
        }
        let mut outer = Env::new(None);
        std::mem::swap(&mut outer, &mut self.env);
        self.env = Env::new(Some(Box::new(outer)));
        let ghost before = self.frames@;
        self.frames.push(CallFrame { info: callee, at: 0, cursor: start, operand_stack: args });
        proof {
            assert(self.frames@.subrange(0, before.len() as int) =~= before);
            assert forall|i: int| 0 <= i < self.frames@.len() implies #[trigger] frame_ok(self.frames@[i]) by {
                if i < before.len() {
                    assert(self.frames@[i] == before[i]);
                }
            }
        }
        Ok(())
    }

    /// Pushes the result of a floating-point operation on the operand stack
    /// of the innermost frame.
    pub fn push_float(&mut self, value: Var)
        requires
            old(self).inv(),
            old(self).frames@.len() > 0,
        ensures
            final(self).inv(),
            final(self).env == old(self).env,
            final(self).pool == old(self).pool,
            final(self).frames@.len() == old(self).frames@.len(),
            final(self).frames@.drop_last() == old(self).frames@.drop_last(),
            frame_moved(old(self).frames@.last(), final(self).frames@.last(), old(self).frames@.last().at as int,
                old(self).frames@.last().cursor, old(self).frames@.last().operand_stack@.push(value)),
    {
        let ghost before = self.frames@;
        let mut frame = self.frames.pop().unwrap();
        frame.operand_stack.push(value);
        self.frames.push(frame);
        proof {
            assert(self.frames@.drop_last() =~= before.drop_last());
            assert forall|i: int| 0 <= i < self.frames@.len() implies #[trigger] frame_ok(self.frames@[i]) by {
                if i < before.len() - 1 {
                    assert(self.frames@[i] == before[i]);
                } else {
                    assert(frame_ok(before[i]));
                }
            }
        }
    }
}

/// What a step left: see [`Machine::step`].
pub open spec fn step_post(m: Machine, n: Machine, res: Step) -> bool {
    let f = m.frames@.last();
    if spec_instr_panics(f.info.code@, f.info.constants@, f.at as int, f.operand_stack@) {
        res is Abort && n == m
    } else {
        exists|text: String| text@ == Seq::<char>::empty()
            && step_effect(m, n, res, #[trigger] spec_instr(f.info.code@, f.info.constants@, m.env, m.pool@,
                f.at as int, f.cursor, f.operand_stack@, text))
    }
}

/// A copy of an operand stack.
fn clone_stack(stack: &Vec<Var>) -> (res: Vec<Var>)
    ensures
        res@ == stack@,
{
    let mut res: Vec<Var> = Vec::new();
    let mut i: usize = 0;
    while i < stack.len()
        invariant
            i <= stack@.len(),
            res@ == stack@.subrange(0, i as int),
        decreases stack@.len() - i,
    {
        res.push(stack[i].clone());
        proof {
            assert(stack@.subrange(0, i + 1) =~= stack@.subrange(0, i as int).push(stack@[i as int]));
        }
        i = i + 1;
    }
    proof {
        assert(stack@.subrange(0, stack@.len() as int) =~= stack@);
    }
    res
}

/// Whether a value is an integer zero.
pub open spec fn spec_is_zero(v: Var) -> bool {
    match v {
        Var::U8(x) => x == 0,
        Var::U16(x) => x == 0,
        Var::U32(x) => x == 0,
        Var::U64(x) => x == 0,
        Var::I8(x) => x == 0,
        Var::I16(x) => x == 0,
        Var::I32(x) => x == 0,
        Var::I64(x) => x == 0,
        _ => false,
    }
}

/// Whether a value is an integer zero.
fn is_zero(v: &Var) -> (res: bool)
    ensures
        res == spec_is_zero(*v),
{
    match v {
        Var::U8(x) => *x == 0,
        Var::U16(x) => *x == 0,
        Var::U32(x) => *x == 0,
        Var::U64(x) => *x == 0,
        Var::I8(x) => *x == 0,
        Var::I16(x) => *x == 0,
        Var::I32(x) => *x == 0,
        Var::I64(x) => *x == 0,
        _ => false,
    }
}

/// The constant index that `LDC` at `at` names, or 0 when the code ends.
pub open spec fn ldc_index(code: Seq<u8>, at: int) -> u64 {
    if at + 1 < code.len() { code[at + 1] as u64 } else { 0 }
}

/// The message Rust panics with at an instruction with opcode `op` other
/// than `LDC`; `divisor_zero` tells whether the second operand on the
/// stack is zero.
pub open spec fn fixed_panic_message(op: u8, divisor_zero: bool) -> Seq<char> {
    if op == 18 || op == 30 { "not yet implemented"@ }
    else if op == 0 { "attempt to add with overflow"@ }
    else if op == 1 { "attempt to subtract with overflow"@ }
    else if op == 2 { "attempt to multiply with overflow"@ }
    else if op == 3 && divisor_zero { "attempt to divide by zero"@ }
    else if op == 3 { "attempt to divide with overflow"@ }
    else if op == 4 && divisor_zero { "attempt to calculate the remainder with a divisor of zero"@ }
    else if op == 4 { "attempt to calculate the remainder with overflow"@ }
    else if op == 5 { "attempt to shift left with overflow"@ }
    else { "attempt to shift right with overflow"@ }
}

/// The message Rust panics with at the instruction at `at`: for `LDC` the
/// length of the constant pool and the index, in decimal; else see
/// [`fixed_panic_message`].
fn panic_message(code: &[u8], constants: &[Var], at: usize, stack: &Vec<Var>) -> (res: String)
    requires
        at < code@.len(),
    ensures
        code@[at as int] == cmd_u8::LDC ==> exists|d1: Seq<char>, d2: Seq<char>|
            #![trigger crate::text::shows(constants@.len() as u64, d1), crate::text::shows(ldc_index(code@, at as int), d2)]
            crate::text::shows(constants@.len() as u64, d1) && crate::text::shows(ldc_index(code@, at as int), d2)
                && res@ == "index out of bounds: the len is "@ + d1 + " but the index is "@ + d2,
        code@[at as int] != cmd_u8::LDC ==> res@ == fixed_panic_message(code@[at as int],
            stack@.len() >= 2 && spec_is_zero(stack@[stack@.len() - 2])),
{
    let op = code[at];
    if op == cmd_u8::LDC {
        let index: u64 = if at + 1 < code.len() { code[at + 1] as u64 } else { 0 };
        let count = constants.len() as u64;
        let first = crate::text::message_with_number("index out of bounds: the len is ", count);
        let second = crate::text::message_with_number(" but the index is ", index);
        let res = first.concat(second.as_str());
        proof {
            let d1 = choose|d: Seq<char>| crate::text::shows(count, d) && first@ == "index out of bounds: the len is "@ + d;
            let d2 = choose|d: Seq<char>| crate::text::shows(index, d) && second@ == " but the index is "@ + d;
            assert(res@ =~= "index out of bounds: the len is "@ + d1 + " but the index is "@ + d2);
            assert(index == ldc_index(code@, at as int));
            assert(count == constants@.len() as u64);
            assert(crate::text::shows(constants@.len() as u64, d1));
            assert(crate::text::shows(ldc_index(code@, at as int), d2));
        }
        return res;
    }
    if op == cmd_u8::NEWV || op == cmd_u8::CONV_TOP {
        return String::from_str("not yet implemented");
    }
    let divisor_zero = stack.len() >= 2 && is_zero(&stack[stack.len() - 2]);
    if op == cmd_u8::ADD {
        String::from_str("attempt to add with overflow")
    } else if op == cmd_u8::SUB {
        String::from_str("attempt to subtract with overflow")
    } else if op == cmd_u8::MUL {
        String::from_str("attempt to multiply with overflow")
    } else if op == cmd_u8::DIV && divisor_zero {
        String::from_str("attempt to divide by zero")
    } else if op == cmd_u8::DIV {
        String::from_str("attempt to divide with overflow")
    } else if op == cmd_u8::MOD && divisor_zero {
        String::from_str("attempt to calculate the remainder with a divisor of zero")
    } else if op == cmd_u8::MOD {
        String::from_str("attempt to calculate the remainder with overflow")
    } else if op == cmd_u8::SHL {
        String::from_str("attempt to shift left with overflow")
    } else {
        String::from_str("attempt to shift right with overflow")
    }
}

impl Machine {
    /// Runs the instruction at the position of the innermost frame; see
    /// [`step_post`], [`spec_instr`] and [`step_effect`]. An instruction that
    /// panics in Rust is not run: the step reports `Abort`.
    #[verifier::spinoff_prover]
    #[verifier::rlimit(60)]
    pub fn step(&mut self) -> (res: Step)
        requires
            old(self).inv(),
            old(self).frames@.len() > 0,
        ensures
            final(self).inv(),
            step_post(*old(self), *final(self), res),
            old(self).frames@.last().at >= old(self).frames@.last().info.code@.len() ==> (res matches Step::Failed(e)
                && crate::text::numbered("Unexpected EOF when running VM, at "@, old(self).frames@.last().cursor.pos as u64,
                    crate::exceptions::spec_message(e.error)@)),
            old(self).frames@.last().at < old(self).frames@.last().info.code@.len() ==> (res matches Step::Failed(e)
                ==> instr_error_text(old(self).frames@.last().info.code@, old(self).frames@.last().info.constants@,
                    old(self).frames@.last().at as int, old(self).frames@.last().operand_stack@,
                    crate::exceptions::spec_message(e.error)@)),
    {
        let k = self.frames.len() - 1;
        let ghost m = *self;
        {
            let f = &self.frames[k];
            if instr_panics(f.info.code.as_slice(), f.info.constants.as_slice(), f.at, &f.operand_stack) {
                return Step::Abort(panic_message(f.info.code.as_slice(), f.info.constants.as_slice(), f.at, &f.operand_stack));
            }
        }
        let frame = self.frames.pop().unwrap();
        proof {
            assert(self.frames@ =~= m.frames@.subrange(0, k as int));
            assert(frame == m.frames@[k as int]);
            assert(frame_ok(m.frames@[k as int]));
        }
        let CallFrame { info, mut at, mut cursor, mut operand_stack } = frame;
        let r = run_instr(info.code.as_slice(), info.constants.as_slice(), &mut self.env, &mut self.pool,
            &mut at, &mut cursor, &mut operand_stack);
        let ghost text = choose|t: String| t@ == Seq::<char>::empty()
            && (at as int, cursor, operand_stack@, self.env.vars@, self.pool@, flow_kind(r))
                == #[trigger] spec_instr(info.code@, info.constants@, m.env, m.pool@, m.frames@[k as int].at as int,
                    m.frames@[k as int].cursor, m.frames@[k as int].operand_stack@, t);
        let ghost effect = spec_instr(info.code@, info.constants@, m.env, m.pool@, m.frames@[k as int].at as int,
            m.frames@[k as int].cursor, m.frames@[k as int].operand_stack@, text);
        match r {
            Ok(Flow::Next) => {
                self.frames.push(CallFrame { info, at, cursor, operand_stack });
                proof { self.lemma_frame_put_back(m, k as int); }
                assert(step_effect(m, *self, Step::Continue, effect));
                Step::Continue
            },
            Ok(Flow::Float(req)) => {
                self.frames.push(CallFrame { info, at, cursor, operand_stack });
                proof { self.lemma_frame_put_back(m, k as int); }
                let res = Step::Float(req);
                assert(step_effect(m, *self, res, effect));
                res
            },
            Err(e) => {
                self.frames.push(CallFrame { info, at, cursor, operand_stack });
                proof { self.lemma_frame_put_back(m, k as int); }
                let res = Step::Failed(e);
                assert(step_effect(m, *self, res, effect));
                res
            },
            Ok(Flow::Return(v)) => {
                let mut current = Env::new(None);
                std::mem::swap(&mut current, &mut self.env);
                match current.parent {
                    Some(outer) => {
                        self.env = *outer;
                        assert(env_depth(m.env) == 1 + env_depth(self.env));
                    },
                    None => {
                        proof { assert(false); }
                    },
                }
                if k == 0 {
                    let res = Step::Finished(v);
                    assert(step_effect(m, *self, res, effect));
                    res
                } else {
                    let ghost callers = self.frames@;
                    let mut caller = self.frames.pop().unwrap();
                    caller.operand_stack.push(v);
                    self.frames.push(caller);
                    proof {
                        assert(self.frames@.subrange(0, k - 1) =~= m.frames@.subrange(0, k - 1));
                        assert forall|i: int| 0 <= i < self.frames@.len() implies #[trigger] frame_ok(self.frames@[i]) by {
                            assert(frame_ok(m.frames@[i]));
                            if i < k - 1 {
                                assert(self.frames@[i] == m.frames@[i]);
                            }
                        }
                    }
                    let res = Step::Continue;
                    assert(step_effect(m, *self, res, effect));
                    res
                }
            },
            Ok(Flow::Call(g)) => {
                let start = CursorPos::new(FuncPtr(g));
                match self.env.get_func(&FuncPtr(g)) {
                    Err(e) => {
                        self.frames.push(CallFrame { info, at, cursor, operand_stack });
                        proof { self.lemma_frame_put_back(m, k as int); }
                        let res = Step::Failed(ExecError::new(e, start));
                        assert(step_effect(m, *self, res, effect));
                        res
                    },
                    Ok(callee) => {
                        if callee.code.len() > (usize::MAX - 1) / 2 {
                            self.frames.push(CallFrame { info, at, cursor, operand_stack });
                            proof { self.lemma_frame_put_back(m, k as int); }
                            let res = Step::Failed(ExecError::new(Error::OutOfMemory(String::from_str("function code too large")), start));
                            assert(step_effect(m, *self, res, effect));
                            return res;
                        }
                        let args = clone_stack(&operand_stack);
                        self.frames.push(CallFrame { info, at, cursor, operand_stack });
                        proof { self.lemma_frame_put_back(m, k as int); }
                        let mut outer = Env::new(None);
                        std::mem::swap(&mut outer, &mut self.env);
                        assert(env_depth(outer) == env_depth(m.env));
                        self.env = Env::new(Some(Box::new(outer)));
                        assert(env_depth(self.env) == 1 + env_depth(m.env));
                        let ghost before = self.frames@;
                        self.frames.push(CallFrame { info: callee, at: 0, cursor: start, operand_stack: args });
                        proof {
                            assert(self.frames@.subrange(0, k as int) =~= m.frames@.subrange(0, k as int));
                            assert forall|i: int| 0 <= i < self.frames@.len() implies #[trigger] frame_ok(self.frames@[i]) by {
                                if i < before.len() {
                                    assert(self.frames@[i] == before[i]);
                                }
                            }
                        }
                        let res = Step::Continue;
                        assert(step_effect(m, *self, res, effect));
                        res
                    },
                }
            },
        }
    }

    /// Once the innermost frame is put back, moved on, every frame is still
    /// well formed and the chain of environments is as deep as before.
    proof fn lemma_frame_put_back(&self, m: Machine, k: int)
        requires
            k == m.frames@.len() - 1,
            k >= 0,
            self.frames@ == m.frames@.subrange(0, k).push(self.frames@.last()),
            forall|i: int| 0 <= i < m.frames@.len() ==> #[trigger] frame_ok(m.frames@[i]),
            frame_ok(self.frames@.last()),
            self.env.parent == m.env.parent,
        ensures
            self.frames@.subrange(0, k) == m.frames@.subrange(0, k),
            forall|i: int| 0 <= i < self.frames@.len() ==> #[trigger] frame_ok(self.frames@[i]),
            env_depth(self.env) == env_depth(m.env),
    {
        assert(self.frames@.subrange(0, k) =~= m.frames@.subrange(0, k));
        self.lemma_moved(m, k);
    }

    proof fn lemma_moved(&self, m: Machine, k: int)
        requires
            k == m.frames@.len() - 1,
            k >= 0,
            self.frames@.len() == m.frames@.len(),
            self.frames@.subrange(0, k) == m.frames@.subrange(0, k),
            forall|i: int| 0 <= i < m.frames@.len() ==> #[trigger] frame_ok(m.frames@[i]),
            frame_ok(self.frames@[k]),
        ensures
            forall|i: int| 0 <= i < self.frames@.len() ==> #[trigger] frame_ok(self.frames@[i]),
    {
        assert forall|i: int| 0 <= i < self.frames@.len() implies #[trigger] frame_ok(self.frames@[i]) by {
            if i < k {
                assert(self.frames@[i] == self.frames@.subrange(0, k)[i]);
                assert(frame_ok(m.frames@[i]));
            }
        }
    }
}

/// The environment `n` levels out from `e` (or the outermost one when the
/// chain is shorter).
pub open spec fn spec_unwind(e: Env, n: nat) -> Env
    decreases n,
{
    if n == 0 {
        e
    } else {
        match e.parent {
            Some(p) => spec_unwind(*p, (n - 1) as nat),
            None => e,
        }
    }
}

impl Machine {
    /// Takes the machine apart: the environment the run started from (the
    /// environments of unfinished functions are dropped) and the pool.
    pub fn into_parts(self) -> (res: (Env, MemoryPool))
        ensures
            res.0 == spec_unwind(self.env, self.frames@.len()),
            res.1 == self.pool,
    {
        let Machine { env, pool, frames } = self;
        let mut env = env;
        let mut n = frames.len();
        while n > 0 && env.parent.is_some()
            invariant
                spec_unwind(env, n as nat) == spec_unwind(self.env, self.frames@.len()),
            decreases n,
        {
            let parent = env.parent.take();
            match parent {
                Some(outer) => {
                    env = *outer;
                },
                None => {},
            }
            n = n - 1;
        }
        assert(spec_unwind(env, n as nat) == env);
        (env, pool)
    }
}

/// Whether running the main function can end with this value: returning a
/// float, a `bool`, a string, a pointer or `Null` from it is not
/// implemented (the run panics).
pub open spec fn main_result_supported(v: Var) -> bool {
    v is U8 || v is U16 || v is U32 || v is U64 || v is I8 || v is I16 || v is I32 || v is I64
}

/// Whether running the main function can end with this value; see
/// [`main_result_supported`].
pub fn is_main_result_supported(v: &Var) -> (res: bool)
    ensures
        res == main_result_supported(*v),
{
    match v {
        Var::U8(_) | Var::U16(_) | Var::U32(_) | Var::U64(_) => true,
        Var::I8(_) | Var::I16(_) | Var::I32(_) | Var::I64(_) => true,
        _ => false,
    }
}

/// The message for a main function that returned `v`, not a `u32`: it
/// names the width of `v` as the unsigned type of that width, except that a
/// returned `i32` is reported as `u16`.
pub open spec fn main_result_message(v: Var) -> Seq<char> {
    match v {
        Var::U8(_) | Var::I8(_) => "main() should return u32, not u8"@,
        Var::U16(_) | Var::I16(_) | Var::I32(_) => "main() should return u32, not u16"@,
        Var::U64(_) | Var::I64(_) => "main() should return u32, not u64"@,
        _ => "main() should return u32"@,
    }
}

/// The result of a run of the main function (number 0, called with an
/// empty operand stack) from what it returned: a `u32` is the result, other
/// integers are `InvalidType` at position 0 of function 0 (see
/// [`main_result_message`]), and an error is passed on.
pub fn run(result: Result<Var, ExecError>) -> (res: Result<u32, ExecError>)
    requires
        result matches Ok(v) ==> main_result_supported(v),
    ensures
        match result {
            Ok(Var::U32(x)) => res == Ok::<u32, ExecError>(x),
            Ok(v) => res matches Err(e) && e.error matches Error::InvalidType(m) && m@ == main_result_message(v)
                && e.pos == CursorPos { pos: 0, func: FuncPtr(0) },
            Err(e) => res == Err::<u32, ExecError>(e),
        },
{
    let outcome: Result<u32, Error> = match result {
        Ok(Var::U8(_)) => Err(Error::InvalidType(String::from_str("main() should return u32, not u8"))),
        Ok(Var::U16(_)) => Err(Error::InvalidType(String::from_str("main() should return u32, not u16"))),
        Ok(Var::U32(value)) => Ok(value),
        Ok(Var::U64(_)) => Err(Error::InvalidType(String::from_str("main() should return u32, not u64"))),
        Ok(Var::I8(_)) => Err(Error::InvalidType(String::from_str("main() should return u32, not u8"))),
        Ok(Var::I16(_)) => Err(Error::InvalidType(String::from_str("main() should return u32, not u16"))),
        Ok(Var::I32(_)) => Err(Error::InvalidType(String::from_str("main() should return u32, not u16"))),
        Ok(Var::I64(_)) => Err(Error::InvalidType(String::from_str("main() should return u32, not u64"))),
        Ok(_) => Err(Error::InvalidType(String::from_str("main() should return u32"))),
        Err(e) => {
            return Err(e);
        },
    };
    ok_or_err(outcome, &CursorPos::with_pos(0, FuncPtr(0)))
}

/// A call and the return of the called function leave the environment as
/// it was before the call: `call` encloses the environment in a new one,
/// the called function's instructions keep that chain, and its return
/// drops the new environment.
pub proof fn lemma_call_then_return(before: Machine, called: Machine, last: Machine, after: Machine, res: Step, v: Var)
    requires
        called.env.parent == Some(Box::new(before.env)),
        last.env.parent == called.env.parent,
        last.frames@.len() > 0,
        machine_returned(last, after, res, v),
    ensures
        after.env == before.env,
{
}

/// The bytes the assembler writes for `ldc v` (the opcode, then `v` in one
/// little-endian byte) push constant `v` when they are run.
pub proof fn lemma_assembled_ldc_pushes_constant(code: Seq<u8>, constants: Seq<Var>, env: Env, pool: PoolView,
    at: int, c: CursorPos, stack: Seq<Var>, text: String, v: u8)
    requires
        0 <= at,
        at + 2 <= code.len(),
        code.subrange(at, at + 2) == seq![cmd_u8::LDC] + crate::parser::assembly::le_bytes(v as nat, 1),
        v < constants.len(),
    ensures
        !spec_instr_panics(code, constants, at, stack),
        spec_instr(code, constants, env, pool, at, c, stack, text)
            == (at + 2, advance(advance(c, 1), 1), stack.push(constants[v as int]), env.vars@, pool, Ok::<Flow, ErrorCode>(Flow::Next)),
{
    assert(code[at] == code.subrange(at, at + 2)[0]);
    crate::parser::assembly::lemma_le_bytes_len(v as nat, 1);
    assert(code.subrange(at + 1, at + 2) =~= code.subrange(at, at + 2).subrange(1, 2));
    assert(code.subrange(at + 1, at + 2) =~= crate::parser::assembly::le_bytes(v as nat, 1));
    crate::parser::utils::lemma_pow256_values();
    exec_cmd::lemma_read_back(code, at + 1, v as nat, 1, advance(c, 1));
    crate::parser::utils::lemma_le_value_one(code, at + 1);
}

/// The bytes the assembler writes for a jump to a label at output position
/// `p` (the opcode, then `p` in eight little-endian bytes; output positions
/// number bytes from 1) move the reader to the byte numbered `p`, at index
/// `p - 1` of the code, or to its end when that lies beyond, and put the
/// cursor at position `p`.
pub proof fn lemma_assembled_jmp_lands_on_label(code: Seq<u8>, constants: Seq<Var>, env: Env, pool: PoolView,
    at: int, c: CursorPos, stack: Seq<Var>, text: String, p: u64)
    requires
        0 <= at,
        at + 9 <= code.len(),
        code.subrange(at, at + 9) == seq![cmd_u8::JMP] + crate::parser::assembly::le_bytes(p as nat, 8),
        p >= 1,
    ensures
        !spec_instr_panics(code, constants, at, stack),
        spec_instr(code, constants, env, pool, at, c, stack, text) == (
            if p - 1 < code.len() { p - 1 } else { code.len() as int },
            CursorPos { pos: p as usize, func: c.func },
            stack, env.vars@, pool, Ok::<Flow, ErrorCode>(Flow::Next)),
{
    assert(code[at] == code.subrange(at, at + 9)[0]);
    crate::parser::assembly::lemma_le_bytes_len(p as nat, 8);
    assert(code.subrange(at + 1, at + 9) =~= code.subrange(at, at + 9).subrange(1, 9));
    assert(code.subrange(at + 1, at + 9) =~= crate::parser::assembly::le_bytes(p as nat, 8));
    crate::parser::utils::lemma_pow256_values();
    exec_cmd::lemma_read_back(code, at + 1, p as nat, 8, advance(c, 1));
}

/// The mnemonic of a binary operator in assembly text; the shifts have
/// none.
pub open spec fn binary_mnemonic(op: BinOp) -> Seq<char> {
    match op {
        BinOp::Add => "add"@,
        BinOp::Sub => "sub"@,
        BinOp::Mul => "mul"@,
        BinOp::Div => "div"@,
        BinOp::Mod => "mod"@,
        BinOp::BitAnd => "bitand"@,
        BinOp::BitOr => "bitor"@,
        BinOp::BitXor => "xor"@,
        _ => Seq::empty(),
    }
}

/// The assembler writes for each mnemonic the instruction of the same
/// name: a mnemonic without operands becomes that one opcode byte, and one
/// with operands begins with its opcode byte (and writes it whenever it is
/// assembled without error).
pub proof fn lemma_mnemonic_opcodes(input: Seq<u8>, at: int)
    ensures
        spec_assembly_cmd(crate::value::ascii("add"@), input, at) == (at, seq![cmd_u8::ADD], Ok::<(), Fault>(())),
        spec_assembly_cmd(crate::value::ascii("sub"@), input, at) == (at, seq![cmd_u8::SUB], Ok::<(), Fault>(())),
        spec_assembly_cmd(crate::value::ascii("mul"@), input, at) == (at, seq![cmd_u8::MUL], Ok::<(), Fault>(())),
        spec_assembly_cmd(crate::value::ascii("div"@), input, at) == (at, seq![cmd_u8::DIV], Ok::<(), Fault>(())),
        spec_assembly_cmd(crate::value::ascii("mod"@), input, at) == (at, seq![cmd_u8::MOD], Ok::<(), Fault>(())),
        spec_assembly_cmd(crate::value::ascii("bitand"@), input, at) == (at, seq![cmd_u8::BIT_AND], Ok::<(), Fault>(())),
        spec_assembly_cmd(crate::value::ascii("bitor"@), input, at) == (at, seq![cmd_u8::BIT_OR], Ok::<(), Fault>(())),
        spec_assembly_cmd(crate::value::ascii("xor"@), input, at) == (at, seq![cmd_u8::XOR], Ok::<(), Fault>(())),
        spec_assembly_cmd(crate::value::ascii("popret"@), input, at) == (at, seq![cmd_u8::POPRET], Ok::<(), Fault>(())),
        spec_assembly_cmd(crate::value::ascii("dup"@), input, at) == (at, seq![cmd_u8::DUP], Ok::<(), Fault>(())),
        spec_assembly_cmd(crate::value::ascii("pop"@), input, at) == (at, seq![cmd_u8::POP], Ok::<(), Fault>(())),
        spec_assembly_cmd(crate::value::ascii("nop"@), input, at) == (at, seq![cmd_u8::NOP], Ok::<(), Fault>(())),
        spec_assembly_cmd(crate::value::ascii("retc"@), input, at).1.len() > 0 ==> spec_assembly_cmd(crate::value::ascii("retc"@), input, at).1[0] == cmd_u8::RETC,
        spec_assembly_cmd(crate::value::ascii("retc"@), input, at).2 is Ok ==> spec_assembly_cmd(crate::value::ascii("retc"@), input, at).1.len() > 0,
        spec_assembly_cmd(crate::value::ascii("retv"@), input, at).1.len() > 0 ==> spec_assembly_cmd(crate::value::ascii("retv"@), input, at).1[0] == cmd_u8::RETV,
        spec_assembly_cmd(crate::value::ascii("retv"@), input, at).2 is Ok ==> spec_assembly_cmd(crate::value::ascii("retv"@), input, at).1.len() > 0,
        spec_assembly_cmd(crate::value::ascii("delv"@), input, at).1.len() > 0 ==> spec_assembly_cmd(crate::value::ascii("delv"@), input, at).1[0] == cmd_u8::DELV,
        spec_assembly_cmd(crate::value::ascii("delv"@), input, at).2 is Ok ==> spec_assembly_cmd(crate::value::ascii("delv"@), input, at).1.len() > 0,
        spec_assembly_cmd(crate::value::ascii("delp"@), input, at).1.len() > 0 ==> spec_assembly_cmd(crate::value::ascii("delp"@), input, at).1[0] == cmd_u8::DELP,
        spec_assembly_cmd(crate::value::ascii("delp"@), input, at).2 is Ok ==> spec_assembly_cmd(crate::value::ascii("delp"@), input, at).1.len() > 0,
        spec_assembly_cmd(crate::value::ascii("pushvar"@), input, at).1.len() > 0 ==> spec_assembly_cmd(crate::value::ascii("pushvar"@), input, at).1[0] == cmd_u8::PUSHVAR,
        spec_assembly_cmd(crate::value::ascii("pushvar"@), input, at).2 is Ok ==> spec_assembly_cmd(crate::value::ascii("pushvar"@), input, at).1.len() > 0,
        spec_assembly_cmd(crate::value::ascii("popvar"@), input, at).1.len() > 0 ==> spec_assembly_cmd(crate::value::ascii("popvar"@), input, at).1[0] == cmd_u8::POPVAR,
        spec_assembly_cmd(crate::value::ascii("popvar"@), input, at).2 is Ok ==> spec_assembly_cmd(crate::value::ascii("popvar"@), input, at).1.len() > 0,
        spec_assembly_cmd(crate::value::ascii("storevar"@), input, at).1.len() > 0 ==> spec_assembly_cmd(crate::value::ascii("storevar"@), input, at).1[0] == cmd_u8::STOREVAR,
        spec_assembly_cmd(crate::value::ascii("storevar"@), input, at).2 is Ok ==> spec_assembly_cmd(crate::value::ascii("storevar"@), input, at).1.len() > 0,
        spec_assembly_cmd(crate::value::ascii("call"@), input, at).1.len() > 0 ==> spec_assembly_cmd(crate::value::ascii("call"@), input, at).1[0] == cmd_u8::CALL,
        spec_assembly_cmd(crate::value::ascii("call"@), input, at).2 is Ok ==> spec_assembly_cmd(crate::value::ascii("call"@), input, at).1.len() > 0,
        spec_assembly_cmd(crate::value::ascii("ldc"@), input, at).1.len() > 0 ==> spec_assembly_cmd(crate::value::ascii("ldc"@), input, at).1[0] == cmd_u8::LDC,
        spec_assembly_cmd(crate::value::ascii("ldc"@), input, at).2 is Ok ==> spec_assembly_cmd(crate::value::ascii("ldc"@), input, at).1.len() > 0,
        spec_assembly_cmd(crate::value::ascii("movc"@), input, at).1.len() > 0 ==> spec_assembly_cmd(crate::value::ascii("movc"@), input, at).1[0] == cmd_u8::MOVC,
        spec_assembly_cmd(crate::value::ascii("movc"@), input, at).2 is Ok ==> spec_assembly_cmd(crate::value::ascii("movc"@), input, at).1.len() > 0,
        spec_assembly_cmd(crate::value::ascii("mov"@), input, at).1.len() > 0 ==> spec_assembly_cmd(crate::value::ascii("mov"@), input, at).1[0] == cmd_u8::MOV,
        spec_assembly_cmd(crate::value::ascii("mov"@), input, at).2 is Ok ==> spec_assembly_cmd(crate::value::ascii("mov"@), input, at).1.len() > 0,
        spec_assembly_cmd(crate::value::ascii("newv"@), input, at).1.len() > 0 ==> spec_assembly_cmd(crate::value::ascii("newv"@), input, at).1[0] == cmd_u8::NEWV,
        spec_assembly_cmd(crate::value::ascii("newv"@), input, at).2 is Ok ==> spec_assembly_cmd(crate::value::ascii("newv"@), input, at).1.len() > 0,
        spec_assembly_cmd(crate::value::ascii("convtop"@), input, at).1.len() > 0 ==> spec_assembly_cmd(crate::value::ascii("convtop"@), input, at).1[0] == cmd_u8::CONV_TOP,
        spec_assembly_cmd(crate::value::ascii("convtop"@), input, at).2 is Ok ==> spec_assembly_cmd(crate::value::ascii("convtop"@), input, at).1.len() > 0,
{
    lemma_opcode_add(input, at);
    lemma_opcode_sub(input, at);
    lemma_opcode_mul(input, at);
    lemma_opcode_div(input, at);
    lemma_opcode_mod(input, at);
    lemma_opcode_bitand(input, at);
    lemma_opcode_bitor(input, at);
    lemma_opcode_xor(input, at);
    lemma_opcode_popret(input, at);
    lemma_opcode_dup(input, at);
    lemma_opcode_pop(input, at);
    lemma_opcode_nop(input, at);
    lemma_opcode_retc(input, at);
    lemma_opcode_retv(input, at);
    lemma_opcode_delv(input, at);
    lemma_opcode_delp(input, at);
    lemma_opcode_pushvar(input, at);
    lemma_opcode_popvar(input, at);
    lemma_opcode_storevar(input, at);
    lemma_opcode_call(input, at);
    lemma_opcode_ldc(input, at);
    lemma_opcode_movc(input, at);
    lemma_opcode_mov(input, at);
    lemma_opcode_newv(input, at);
    lemma_opcode_convtop(input, at);
}

proof fn lemma_opcode_add(input: Seq<u8>, at: int)
    ensures
        spec_assembly_cmd(crate::value::ascii("add"@), input, at) == (at, seq![cmd_u8::ADD], Ok::<(), Fault>(())),
{
    reveal_strlit("add");
    assert(crate::value::ascii("add"@) =~= seq![0x61u8, 0x64u8, 0x64u8]);
}

proof fn lemma_opcode_sub(input: Seq<u8>, at: int)
    ensures
        spec_assembly_cmd(crate::value::ascii("sub"@), input, at) == (at, seq![cmd_u8::SUB], Ok::<(), Fault>(())),
{
    reveal_strlit("sub");
    assert(crate::value::ascii("sub"@) =~= seq![0x73u8, 0x75u8, 0x62u8]);
}

proof fn lemma_opcode_mul(input: Seq<u8>, at: int)
    ensures
        spec_assembly_cmd(crate::value::ascii("mul"@), input, at) == (at, seq![cmd_u8::MUL], Ok::<(), Fault>(())),
{
    reveal_strlit("mul");
    assert(crate::value::ascii("mul"@) =~= seq![0x6du8, 0x75u8, 0x6cu8]);
}

proof fn lemma_opcode_div(input: Seq<u8>, at: int)
    ensures
        spec_assembly_cmd(crate::value::ascii("div"@), input, at) == (at, seq![cmd_u8::DIV], Ok::<(), Fault>(())),
{
    reveal_strlit("div");
    assert(crate::value::ascii("div"@) =~= seq![0x64u8, 0x69u8, 0x76u8]);
}

proof fn lemma_opcode_mod(input: Seq<u8>, at: int)
    ensures
        spec_assembly_cmd(crate::value::ascii("mod"@), input, at) == (at, seq![cmd_u8::MOD], Ok::<(), Fault>(())),
{
    reveal_strlit("mod");
    assert(crate::value::ascii("mod"@) =~= seq![0x6du8, 0x6fu8, 0x64u8]);
}

proof fn lemma_opcode_bitand(input: Seq<u8>, at: int)
    ensures
        spec_assembly_cmd(crate::value::ascii("bitand"@), input, at) == (at, seq![cmd_u8::BIT_AND], Ok::<(), Fault>(())),
{
    reveal_strlit("bitand");
    assert(crate::value::ascii("bitand"@) =~= seq![0x62u8, 0x69u8, 0x74u8, 0x61u8, 0x6eu8, 0x64u8]);
}

proof fn lemma_opcode_bitor(input: Seq<u8>, at: int)
    ensures
        spec_assembly_cmd(crate::value::ascii("bitor"@), input, at) == (at, seq![cmd_u8::BIT_OR], Ok::<(), Fault>(())),
{
    reveal_strlit("bitor");
    assert(crate::value::ascii("bitor"@) =~= seq![0x62u8, 0x69u8, 0x74u8, 0x6fu8, 0x72u8]);
}

proof fn lemma_opcode_xor(input: Seq<u8>, at: int)
    ensures
        spec_assembly_cmd(crate::value::ascii("xor"@), input, at) == (at, seq![cmd_u8::XOR], Ok::<(), Fault>(())),
{
    reveal_strlit("xor");
    assert(crate::value::ascii("xor"@) =~= seq![0x78u8, 0x6fu8, 0x72u8]);
}

proof fn lemma_opcode_popret(input: Seq<u8>, at: int)
    ensures
        spec_assembly_cmd(crate::value::ascii("popret"@), input, at) == (at, seq![cmd_u8::POPRET], Ok::<(), Fault>(())),
{
    reveal_strlit("popret");
    assert(crate::value::ascii("popret"@) =~= seq![0x70u8, 0x6fu8, 0x70u8, 0x72u8, 0x65u8, 0x74u8]);
}

proof fn lemma_opcode_dup(input: Seq<u8>, at: int)
    ensures
        spec_assembly_cmd(crate::value::ascii("dup"@), input, at) == (at, seq![cmd_u8::DUP], Ok::<(), Fault>(())),
{
    reveal_strlit("dup");
    assert(crate::value::ascii("dup"@) =~= seq![0x64u8, 0x75u8, 0x70u8]);
}

proof fn lemma_opcode_pop(input: Seq<u8>, at: int)
    ensures
        spec_assembly_cmd(crate::value::ascii("pop"@), input, at) == (at, seq![cmd_u8::POP], Ok::<(), Fault>(())),
{
    reveal_strlit("pop");
    assert(crate::value::ascii("pop"@) =~= seq![0x70u8, 0x6fu8, 0x70u8]);
}

proof fn lemma_opcode_nop(input: Seq<u8>, at: int)
    ensures
        spec_assembly_cmd(crate::value::ascii("nop"@), input, at) == (at, seq![cmd_u8::NOP], Ok::<(), Fault>(())),
{
    reveal_strlit("nop");
    assert(crate::value::ascii("nop"@) =~= seq![0x6eu8, 0x6fu8, 0x70u8]);
}

proof fn lemma_opcode_retc(input: Seq<u8>, at: int)
    ensures
        spec_assembly_cmd(crate::value::ascii("retc"@), input, at).1.len() > 0 ==> spec_assembly_cmd(crate::value::ascii("retc"@), input, at).1[0] == cmd_u8::RETC,
        spec_assembly_cmd(crate::value::ascii("retc"@), input, at).2 is Ok ==> spec_assembly_cmd(crate::value::ascii("retc"@), input, at).1.len() > 0,
{
    reveal_strlit("retc");
    assert(crate::value::ascii("retc"@) =~= seq![0x72u8, 0x65u8, 0x74u8, 0x63u8]);
}

proof fn lemma_opcode_retv(input: Seq<u8>, at: int)
    ensures
        spec_assembly_cmd(crate::value::ascii("retv"@), input, at).1.len() > 0 ==> spec_assembly_cmd(crate::value::ascii("retv"@), input, at).1[0] == cmd_u8::RETV,
        spec_assembly_cmd(crate::value::ascii("retv"@), input, at).2 is Ok ==> spec_assembly_cmd(crate::value::ascii("retv"@), input, at).1.len() > 0,
{
    reveal_strlit("retv");
    assert(crate::value::ascii("retv"@) =~= seq![0x72u8, 0x65u8, 0x74u8, 0x76u8]);
}

proof fn lemma_opcode_delv(input: Seq<u8>, at: int)
    ensures
        spec_assembly_cmd(crate::value::ascii("delv"@), input, at).1.len() > 0 ==> spec_assembly_cmd(crate::value::ascii("delv"@), input, at).1[0] == cmd_u8::DELV,
        spec_assembly_cmd(crate::value::ascii("delv"@), input, at).2 is Ok ==> spec_assembly_cmd(crate::value::ascii("delv"@), input, at).1.len() > 0,
{
    reveal_strlit("delv");
    assert(crate::value::ascii("delv"@) =~= seq![0x64u8, 0x65u8, 0x6cu8, 0x76u8]);
}

proof fn lemma_opcode_delp(input: Seq<u8>, at: int)
    ensures
        spec_assembly_cmd(crate::value::ascii("delp"@), input, at).1.len() > 0 ==> spec_assembly_cmd(crate::value::ascii("delp"@), input, at).1[0] == cmd_u8::DELP,
        spec_assembly_cmd(crate::value::ascii("delp"@), input, at).2 is Ok ==> spec_assembly_cmd(crate::value::ascii("delp"@), input, at).1.len() > 0,
{
    reveal_strlit("delp");
    assert(crate::value::ascii("delp"@) =~= seq![0x64u8, 0x65u8, 0x6cu8, 0x70u8]);
}

proof fn lemma_opcode_pushvar(input: Seq<u8>, at: int)
    ensures
        spec_assembly_cmd(crate::value::ascii("pushvar"@), input, at).1.len() > 0 ==> spec_assembly_cmd(crate::value::ascii("pushvar"@), input, at).1[0] == cmd_u8::PUSHVAR,
        spec_assembly_cmd(crate::value::ascii("pushvar"@), input, at).2 is Ok ==> spec_assembly_cmd(crate::value::ascii("pushvar"@), input, at).1.len() > 0,
{
    reveal_strlit("pushvar");
    assert(crate::value::ascii("pushvar"@) =~= seq![0x70u8, 0x75u8, 0x73u8, 0x68u8, 0x76u8, 0x61u8, 0x72u8]);
}

proof fn lemma_opcode_popvar(input: Seq<u8>, at: int)
    ensures
        spec_assembly_cmd(crate::value::ascii("popvar"@), input, at).1.len() > 0 ==> spec_assembly_cmd(crate::value::ascii("popvar"@), input, at).1[0] == cmd_u8::POPVAR,
        spec_assembly_cmd(crate::value::ascii("popvar"@), input, at).2 is Ok ==> spec_assembly_cmd(crate::value::ascii("popvar"@), input, at).1.len() > 0,
{
    reveal_strlit("popvar");
    assert(crate::value::ascii("popvar"@) =~= seq![0x70u8, 0x6fu8, 0x70u8, 0x76u8, 0x61u8, 0x72u8]);
}

proof fn lemma_opcode_storevar(input: Seq<u8>, at: int)
    ensures
        spec_assembly_cmd(crate::value::ascii("storevar"@), input, at).1.len() > 0 ==> spec_assembly_cmd(crate::value::ascii("storevar"@), input, at).1[0] == cmd_u8::STOREVAR,
        spec_assembly_cmd(crate::value::ascii("storevar"@), input, at).2 is Ok ==> spec_assembly_cmd(crate::value::ascii("storevar"@), input, at).1.len() > 0,
{
    reveal_strlit("storevar");
    assert(crate::value::ascii("storevar"@) =~= seq![0x73u8, 0x74u8, 0x6fu8, 0x72u8, 0x65u8, 0x76u8, 0x61u8, 0x72u8]);
}

proof fn lemma_opcode_call(input: Seq<u8>, at: int)
    ensures
        spec_assembly_cmd(crate::value::ascii("call"@), input, at).1.len() > 0 ==> spec_assembly_cmd(crate::value::ascii("call"@), input, at).1[0] == cmd_u8::CALL,
        spec_assembly_cmd(crate::value::ascii("call"@), input, at).2 is Ok ==> spec_assembly_cmd(crate::value::ascii("call"@), input, at).1.len() > 0,
{
    reveal_strlit("call");
    assert(crate::value::ascii("call"@) =~= seq![0x63u8, 0x61u8, 0x6cu8, 0x6cu8]);
}

proof fn lemma_opcode_ldc(input: Seq<u8>, at: int)
    ensures
        spec_assembly_cmd(crate::value::ascii("ldc"@), input, at).1.len() > 0 ==> spec_assembly_cmd(crate::value::ascii("ldc"@), input, at).1[0] == cmd_u8::LDC,
        spec_assembly_cmd(crate::value::ascii("ldc"@), input, at).2 is Ok ==> spec_assembly_cmd(crate::value::ascii("ldc"@), input, at).1.len() > 0,
{
    reveal_strlit("ldc");
    assert(crate::value::ascii("ldc"@) =~= seq![0x6cu8, 0x64u8, 0x63u8]);
}

proof fn lemma_opcode_movc(input: Seq<u8>, at: int)
    ensures
        spec_assembly_cmd(crate::value::ascii("movc"@), input, at).1.len() > 0 ==> spec_assembly_cmd(crate::value::ascii("movc"@), input, at).1[0] == cmd_u8::MOVC,
        spec_assembly_cmd(crate::value::ascii("movc"@), input, at).2 is Ok ==> spec_assembly_cmd(crate::value::ascii("movc"@), input, at).1.len() > 0,
{
    reveal_strlit("movc");
    assert(crate::value::ascii("movc"@) =~= seq![0x6du8, 0x6fu8, 0x76u8, 0x63u8]);
}

proof fn lemma_opcode_mov(input: Seq<u8>, at: int)
    ensures
        spec_assembly_cmd(crate::value::ascii("mov"@), input, at).1.len() > 0 ==> spec_assembly_cmd(crate::value::ascii("mov"@), input, at).1[0] == cmd_u8::MOV,
        spec_assembly_cmd(crate::value::ascii("mov"@), input, at).2 is Ok ==> spec_assembly_cmd(crate::value::ascii("mov"@), input, at).1.len() > 0,
{
    reveal_strlit("mov");
    assert(crate::value::ascii("mov"@) =~= seq![0x6du8, 0x6fu8, 0x76u8]);
}

proof fn lemma_opcode_newv(input: Seq<u8>, at: int)
    ensures
        spec_assembly_cmd(crate::value::ascii("newv"@), input, at).1.len() > 0 ==> spec_assembly_cmd(crate::value::ascii("newv"@), input, at).1[0] == cmd_u8::NEWV,
        spec_assembly_cmd(crate::value::ascii("newv"@), input, at).2 is Ok ==> spec_assembly_cmd(crate::value::ascii("newv"@), input, at).1.len() > 0,
{
    reveal_strlit("newv");
    assert(crate::value::ascii("newv"@) =~= seq![0x6eu8, 0x65u8, 0x77u8, 0x76u8]);
}

proof fn lemma_opcode_convtop(input: Seq<u8>, at: int)
    ensures
        spec_assembly_cmd(crate::value::ascii("convtop"@), input, at).1.len() > 0 ==> spec_assembly_cmd(crate::value::ascii("convtop"@), input, at).1[0] == cmd_u8::CONV_TOP,
        spec_assembly_cmd(crate::value::ascii("convtop"@), input, at).2 is Ok ==> spec_assembly_cmd(crate::value::ascii("convtop"@), input, at).1.len() > 0,
{
    reveal_strlit("convtop");
    assert(crate::value::ascii("convtop"@) =~= seq![0x63u8, 0x6fu8, 0x6eu8, 0x76u8, 0x74u8, 0x6fu8, 0x70u8]);
}

/// Assembling the mnemonic of a binary operator and running the byte it
/// writes performs that operator on the operand stack: the byte is one
/// instruction, and its effect is [`spec_binary_instr`] of the operator
/// named.
pub proof fn lemma_assembled_binary(op: BinOp, input: Seq<u8>, at: int, code: Seq<u8>, constants: Seq<Var>, env: Env,
    pool: PoolView, pc: int, c: CursorPos, stack: Seq<Var>, text: String)
    requires
        !(op is Shl || op is Shr),
        0 <= pc < code.len(),
        code[pc] == spec_assembly_cmd(crate::value::ascii(binary_mnemonic(op)), input, at).1[0],
    ensures
        spec_assembly_cmd(crate::value::ascii(binary_mnemonic(op)), input, at).0 == at,
        spec_assembly_cmd(crate::value::ascii(binary_mnemonic(op)), input, at).1.len() == 1,
        spec_assembly_cmd(crate::value::ascii(binary_mnemonic(op)), input, at).2 is Ok,
        spec_instr(code, constants, env, pool, pc, c, stack, text) == (pc + 1, advance(c, 1),
            spec_binary_instr(op, stack).0, env.vars@, pool, spec_binary_instr(op, stack).1),
{
    lemma_mnemonic_opcodes(input, at);
}

} // verus!
