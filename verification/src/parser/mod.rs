//! The assembler, the bytecode interpreter, and the readers they share.
use vstd::prelude::*;
use crate::exceptions::Error;
use crate::parser::hex::{HexFault, hex_scan, scan_hex_digits};
use crate::value::Var;
use crate::parser::utils::{ws_end, is_ascii_ws};
use vstd::string::*;

pub mod utils;
pub mod hex;
pub mod assembly;
pub mod cmd;
pub mod exec;
pub mod exec_cmd;

pub use self::hex::compile_hex;

verus! {

/// The first form of the interpreter: it reads the input to its end, one
/// byte at a time, and then fails with `EOFError`; it never returns a
/// value.
pub fn func(input: &[u8], at: &mut usize) -> (res: Result<Var, Error>)
    requires
        *old(at) <= input@.len(),
    ensures
        *final(at) == input@.len(),
        res matches Err(Error::EOFError(m)) && m@ == "Unexpected EOF when running VM"@,
{
    while *at < input.len()
        invariant
            *at <= input@.len(),
            input@.len() == input.len(),
        decreases input@.len() - *at,
    {
        *at = *at + 1;
    }
    Err(Error::EOFError(String::from_str("Unexpected EOF when running VM")))
}

/// Reads a hexadecimal `u32` at `*at` (most significant digit first):
/// leading whitespace is skipped, `'` separators are skipped, and the number
/// ends at whitespace, which is consumed, or at the end of the input. A byte
/// that is not a digit is refused with `InvalidType("invalid hex digit")`,
/// a ninth digit with `InvalidType("overflow")`; see [`hex_scan`].
pub fn hex_to_u32(input: &[u8], at: &mut usize) -> (res: Result<u32, Error>)
    requires
        *old(at) <= input@.len(),
    ensures
        *final(at) == hex_scan(input@, ws_end(input@, *old(at) as int), 0, 0, 8).0,
        match hex_scan(input@, ws_end(input@, *old(at) as int), 0, 0, 8).1 {
            Ok(v) => res == Ok::<u32, Error>(v as u32) && v < 0x1_0000_0000,
            Err(HexFault::BadDigit(_)) => res matches Err(Error::InvalidType(m)) && m@ == "invalid hex digit"@,
            Err(HexFault::TooLong(_, _)) => res matches Err(Error::InvalidType(m)) && m@ == "overflow"@,
        },
{
    proof {
        assert(crate::parser::hex::pow16(8) == 0x1_0000_0000) by {
            reveal_with_fuel(crate::parser::hex::pow16, 9);
        }
        crate::parser::utils::lemma_ws_end_bounds(input@, *at as int);
    }
    let ghost start = *at as int;
    while *at < input.len() && is_ascii_ws(input[*at])
        invariant
            input@.len() == input.len(),
            start <= *at <= input@.len(),
            ws_end(input@, *at as int) == ws_end(input@, start),
        decreases input@.len() - *at,
    {
        *at = *at + 1;
    }
    match scan_hex_digits(input, at, 8) {
        Ok(v) => Ok(v as u32),
        Err(HexFault::BadDigit(_)) => Err(Error::InvalidType(String::from_str("invalid hex digit"))),
        Err(HexFault::TooLong(_, _)) => Err(Error::InvalidType(String::from_str("overflow"))),
    }
}

} // verus!
