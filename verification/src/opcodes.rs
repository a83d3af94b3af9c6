//! The stable single-byte opcode assignment.
//!
//! Multi-byte operands embedded after an opcode are big-endian.
//! `PUSH_U32`, `PUSH_STRING`, `PUSH_CALLDATA` and `JUMP_IF_FALSE` carry a
//! 4-byte operand; `PUSH_STATUS` and `PUSH_TASK_FIELD` carry 1 byte; every
//! other opcode stands alone. `SWAP` and `JUMP_IF_FALSE` sit at the first
//! two bytes past the tabulated range, 0x18 and 0x19; the assembler and
//! the disassembler share these constants, so the two stay consistent.

use vstd::prelude::*;

verus! {

pub const PUSH_U32: u8 = 0x00;
pub const PUSH_STRING: u8 = 0x02;
pub const PUSH_STATUS: u8 = 0x03;
pub const PUSH_CALLDATA: u8 = 0x04;
pub const PUSH_TASK_FIELD: u8 = 0x05;

pub const T_CREATE: u8 = 0x06;
pub const T_GET_FIELD: u8 = 0x07;
pub const T_SET_FIELD: u8 = 0x08;
pub const T_DELETE: u8 = 0x09;

pub const S_SAVE: u8 = 0x0a;
pub const S_LOAD: u8 = 0x0b;
pub const S_LEN: u8 = 0x0c;

pub const DO: u8 = 0x0d;
pub const LOOP: u8 = 0x0e;
pub const LOOP_INDEX: u8 = 0x0f;
pub const CALL: u8 = 0x10;
pub const END_CALL: u8 = 0x11;
pub const DROP_IF: u8 = 0x12;

pub const DUP: u8 = 0x13;

pub const EQ: u8 = 0x14;
pub const NEQ: u8 = 0x15;
pub const LT: u8 = 0x16;
pub const GT: u8 = 0x17;

pub const SWAP: u8 = 0x18;
pub const JUMP_IF_FALSE: u8 = 0x19;

/// Length of the immediate operand that follows opcode `op`.
pub open spec fn spec_imm_len(op: u8) -> int {
    if op == PUSH_U32 || op == PUSH_STRING || op == PUSH_CALLDATA || op == JUMP_IF_FALSE {
        4
    } else if op == PUSH_STATUS || op == PUSH_TASK_FIELD {
        1
    } else {
        0
    }
}

} // verus!
