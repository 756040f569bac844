//! The opcodes of the bytecode.
use vstd::prelude::*;

pub mod cmd_u8;

verus! {

} // verus!
