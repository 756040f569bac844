//! One byte per instruction, in the order of the instruction set.
use vstd::prelude::*;

verus! {

pub const ADD: u8 = 0;
pub const SUB: u8 = 1;
pub const MUL: u8 = 2;
pub const DIV: u8 = 3;
pub const MOD: u8 = 4;
pub const SHL: u8 = 5;
pub const SHR: u8 = 6;
pub const BIT_OR: u8 = 7;
pub const BIT_AND: u8 = 8;
pub const XOR: u8 = 9;
pub const RETC: u8 = 10;
pub const RETV: u8 = 11;
pub const POPRET: u8 = 12;
pub const JMP: u8 = 13;
pub const IFJMP: u8 = 14;
pub const ELSE_JUMP: u8 = 15;
pub const MOVC: u8 = 16;
pub const MOV: u8 = 17;
pub const NEWV: u8 = 18;
pub const NEWP: u8 = 19;
pub const DELV: u8 = 20;
pub const DELP: u8 = 21;
pub const NOP: u8 = 22;
pub const CALL: u8 = 23;
pub const PUSHVAR: u8 = 24;
pub const POPVAR: u8 = 25;
pub const STOREVAR: u8 = 26;
pub const DUP: u8 = 27;
pub const LDC: u8 = 28;
pub const POP: u8 = 29;
pub const CONV_TOP: u8 = 30;

} // verus!
