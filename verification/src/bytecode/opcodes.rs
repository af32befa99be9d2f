//! The byte-wide opcode space. Gaps are reserved for opcodes of language
//! features (closures, classes, jumps) that this core does not implement.

use vstd::prelude::*;

verus! {

pub const CONSTANT: u8 = 0;

pub const NIL: u8 = 1;

pub const TRUE: u8 = 2;

pub const FALSE: u8 = 3;

pub const POP: u8 = 4;

pub const GET_LOCAL: u8 = 5;

pub const SET_LOCAL: u8 = 6;

pub const GET_GLOBAL: u8 = 7;

pub const DEFINE_GLOBAL: u8 = 8;

pub const SET_GLOBAL: u8 = 9;

pub const EQUAL: u8 = 15;

pub const GREATER: u8 = 16;

pub const LESS: u8 = 17;

pub const ADD: u8 = 18;

pub const SUBTRACT: u8 = 19;

pub const MULTIPLY: u8 = 20;

pub const DIVIDE: u8 = 21;

pub const NOT: u8 = 22;

pub const NEGATE: u8 = 23;

pub const PRINT: u8 = 24;

pub const RETURN: u8 = 33;

pub const CONSTANT_LONG: u8 = 37;

} // verus!
