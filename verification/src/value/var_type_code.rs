//! One-byte codes that stand for each value type in bytecode.
#![allow(non_upper_case_globals)]
use vstd::prelude::*;
use crate::value::VarTypeCodeType;

verus! {

pub const U8: VarTypeCodeType = 0;
pub const U16: VarTypeCodeType = 1;
pub const U32: VarTypeCodeType = 2;
pub const U64: VarTypeCodeType = 3;
pub const I8: VarTypeCodeType = 4;
pub const I16: VarTypeCodeType = 5;
pub const I32: VarTypeCodeType = 6;
pub const I64: VarTypeCodeType = 7;
pub const F32: VarTypeCodeType = 8;
pub const F64: VarTypeCodeType = 9;
pub const Bool: VarTypeCodeType = 10;
pub const String: VarTypeCodeType = 11;
pub const Ptr: VarTypeCodeType = 12;
pub const Null: VarTypeCodeType = 13;

} // verus!
