//! A small stack-based virtual machine: an assembler that turns text into
//! bytecode, a memory pool that backs reference values, variable
//! environments, and an interpreter for the bytecode.
use vstd::prelude::*;

pub mod env;
pub mod exceptions;
pub mod memory;
pub mod parser;
pub mod tables;
pub mod value;
pub mod text;

verus! {

} // verus!
