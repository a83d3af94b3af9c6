//! The disassembler: bytecode back to canonical mnemonic text.
//!
//! The walk reproduces one space-separated mnemonic per instruction and
//! trims the one trailing space at the end. A `PUSH_CALLDATA` operand is
//! rendered as the recursive disassembly of the referenced blob followed by
//! `] `; no leading `[` is emitted — the opening bracket is implicit in the
//! mnemonic. A calldata index is followed only when it lies below the
//! referring blob's own pool position (the assembler only ever emits
//! references to earlier blobs); any other index is rendered as an empty
//! body, which keeps the walk lenient on sparse pools. A `JUMP_IF_FALSE`
//! prints `IF` and its patch target is remembered so that `THEN` is printed
//! where the jump lands. Unknown opcode bytes are silently skipped.

use vstd::prelude::*;

use crate::errors::{VMError, VMResult};
use crate::helpers::{prepare_u32_from_be_checked, prepare_u8, spec_be32};
use crate::opcodes::{
    CALL, DO, DROP_IF, DUP, END_CALL, EQ, GT, JUMP_IF_FALSE, LOOP, LOOP_INDEX, LT, NEQ,
    PUSH_CALLDATA, PUSH_STATUS, PUSH_STRING, PUSH_TASK_FIELD, PUSH_U32, S_LEN, S_LOAD, S_SAVE,
    SWAP, T_CREATE, T_DELETE, T_GET_FIELD, T_SET_FIELD,
};
use crate::pools::{InstructionsPool, StringPool};
use crate::text::{append_u32_dec, spec_u32_dec};

verus! {

/// The rendering of a one-token mnemonic, with its trailing space; empty
/// for an unknown or operand-carrying opcode.
pub open spec fn opcode_text(op: u8) -> Seq<char> {
    if op == T_CREATE {
        "T_CREATE "@
    } else if op == T_GET_FIELD {
        "T_GET_FIELD "@
    } else if op == T_SET_FIELD {
        "T_SET_FIELD "@
    } else if op == T_DELETE {
        "T_DELETE "@
    } else if op == S_SAVE {
        "S_SAVE "@
    } else if op == S_LOAD {
        "S_LOAD "@
    } else if op == S_LEN {
        "S_LEN "@
    } else if op == DO {
        "DO "@
    } else if op == LOOP {
        "LOOP "@
    } else if op == LOOP_INDEX {
        "LOOP_INDEX "@
    } else if op == CALL {
        "CALL "@
    } else if op == END_CALL {
        "END_CALL "@
    } else if op == DROP_IF {
        "DROP_IF "@
    } else if op == DUP {
        "DUP "@
    } else if op == SWAP {
        "SWAP "@
    } else if op == EQ {
        "EQ "@
    } else if op == NEQ {
        "NEQ "@
    } else if op == LT {
        "LT "@
    } else if op == GT {
        "GT "@
    } else {
        Seq::empty()
    }
}

/// The text without its one trailing space, if any.
pub open spec fn trim_last(t: Seq<char>) -> Seq<char> {
    if t.len() > 0 {
        t.drop_last()
    } else {
        t
    }
}

/// The untrimmed disassembly of `code` from `pc` on, appended to `acc`,
/// with `pending` the stack of `THEN` positions still to land. `bound`
/// caps which pool blobs a calldata operand may reference.
pub open spec fn spec_disasm(
    spool: Seq<Seq<char>>,
    ipool: Seq<Seq<u8>>,
    code: Seq<u8>,
    pc: int,
    pending: Seq<u32>,
    acc: Seq<char>,
    bound: int,
) -> Result<Seq<char>, VMError>
    decreases bound, code.len() - pc, pending.len(),
{
    if bound < 0 {
        Ok(acc)  // unreachable from the library's calls; keeps the walk total
    } else if pending.len() > 0 && pending.last() as int == pc {
        spec_disasm(spool, ipool, code, pc, pending.drop_last(), acc + "THEN "@, bound)
    } else if pc < 0 || pc >= code.len() {
        Ok(acc)
    } else {
        let op = code[pc];
        if op == PUSH_U32 {
            if pc + 5 > code.len() {
                Err(VMError::UnexpectedEOB)
            } else {
                spec_disasm(
                    spool,
                    ipool,
                    code,
                    pc + 5,
                    pending,
                    acc + "PUSH_U32 "@ + spec_u32_dec(spec_be32(code, pc + 1)) + " "@,
                    bound,
                )
            }
        } else if op == PUSH_STRING {
            if pc + 5 > code.len() {
                Err(VMError::UnexpectedEOB)
            } else {
                let idx = spec_be32(code, pc + 1);
                if idx >= spool.len() {
                    Err(VMError::InvalidStringIndex(idx as usize))
                } else {
                    spec_disasm(
                        spool,
                        ipool,
                        code,
                        pc + 5,
                        pending,
                        acc + "PUSH_STRING "@ + spool[idx as int] + " "@,
                        bound,
                    )
                }
            }
        } else if op == PUSH_STATUS {
            if pc + 2 > code.len() {
                Err(VMError::UnexpectedEOB)
            } else {
                spec_disasm(
                    spool,
                    ipool,
                    code,
                    pc + 2,
                    pending,
                    acc + "PUSH_STATUS "@ + spec_u32_dec(code[pc + 1] as u32) + " "@,
                    bound,
                )
            }
        } else if op == PUSH_TASK_FIELD {
            if pc + 2 > code.len() {
                Err(VMError::UnexpectedEOB)
            } else {
                spec_disasm(
                    spool,
                    ipool,
                    code,
                    pc + 2,
                    pending,
                    acc + "PUSH_TASK_FIELD "@ + spec_u32_dec(code[pc + 1] as u32) + " "@,
                    bound,
                )
            }
        } else if op == PUSH_CALLDATA {
            if pc + 5 > code.len() {
                Err(VMError::UnexpectedEOB)
            } else {
                let idx = spec_be32(code, pc + 1);
                if idx < ipool.len() && idx < bound {
                    match spec_disasm(
                        spool,
                        ipool,
                        ipool[idx as int],
                        0,
                        Seq::empty(),
                        Seq::empty(),
                        idx as int,
                    ) {
                        Err(e) => Err(e),
                        Ok(inner) => spec_disasm(
                            spool,
                            ipool,
                            code,
                            pc + 5,
                            pending,
                            acc + "PUSH_CALLDATA "@ + trim_last(inner) + " ] "@,
                            bound,
                        ),
                    }
                } else {
                    spec_disasm(
                        spool,
                        ipool,
                        code,
                        pc + 5,
                        pending,
                        acc + "PUSH_CALLDATA "@ + " ] "@,
                        bound,
                    )
                }
            }
        } else if op == JUMP_IF_FALSE {
            if pc + 5 > code.len() {
                Err(VMError::UnexpectedEOB)
            } else {
                spec_disasm(
                    spool,
                    ipool,
                    code,
                    pc + 5,
                    pending.push(spec_be32(code, pc + 1)),
                    acc + "IF "@,
                    bound,
                )
            }
        } else {
            spec_disasm(spool, ipool, code, pc + 1, pending, acc + opcode_text(op), bound)
        }
    }
}

/// The disassembly of `code` against the pools: the space-separated
/// mnemonics, with one trailing space trimmed; `bound` caps which pool
/// blobs a calldata operand may reference.
pub open spec fn spec_disassemble(
    spool: Seq<Seq<char>>,
    ipool: Seq<Seq<u8>>,
    code: Seq<u8>,
    bound: int,
) -> Result<Seq<char>, VMError> {
    match spec_disasm(spool, ipool, code, 0, Seq::empty(), Seq::empty(), bound) {
        Err(e) => Err(e),
        Ok(t) => Ok(trim_last(t)),
    }
}

fn pending_top_is(pending: &Vec<u32>, pc: usize) -> (r: bool)
    ensures
        r == (pending@.len() > 0 && pending@.last() as int == pc as int),
{
    if pending.len() > 0 {
        let top = pending[pending.len() - 1];
        (top as usize) == pc
    } else {
        false
    }
}

/// Disassemble `bytecode` whose calldata references must lie below `bound`.
fn disassemble_at(
    bytecode: &[u8],
    string_pool: &StringPool,
    instructions_pool: &InstructionsPool,
    bound: usize,
) -> (r: VMResult<String>)
    ensures
        match spec_disassemble(string_pool@, instructions_pool@, bytecode@, bound as int) {
            Ok(t) => r matches Ok(s) && s@ == t,
            Err(e) => r matches Err(e2) && e2 == e,
        },
    decreases bound,
{
    let ghost spool = string_pool@;
    let ghost ipool = instructions_pool@;
    let n = bytecode.len();
    let mut result = String::new();
    let mut pending: Vec<u32> = Vec::new();
    let mut pc: usize = 0;
    while pc < n
        invariant
            n == bytecode@.len(),
            pc <= n,
            spool == string_pool@,
            ipool == instructions_pool@,
            spec_disasm(spool, ipool, bytecode@, 0, Seq::empty(), Seq::empty(), bound as int)
                == spec_disasm(
                spool,
                ipool,
                bytecode@,
                pc as int,
                pending@,
                result@,
                bound as int,
            ),
        decreases n - pc,
    {
        while pending_top_is(&pending, pc)
            invariant
                n == bytecode@.len(),
                pc <= n,
                spool == string_pool@,
                ipool == instructions_pool@,
                spec_disasm(spool, ipool, bytecode@, 0, Seq::empty(), Seq::empty(), bound as int)
                    == spec_disasm(
                    spool,
                    ipool,
                    bytecode@,
                    pc as int,
                    pending@,
                    result@,
                    bound as int,
                ),
            decreases pending@.len(),
        {
            pending.pop();
            result.append("THEN ");
        }
        let op = bytecode[pc];
        if op == PUSH_U32 {
            let v = prepare_u32_from_be_checked(bytecode, pc + 1)?;
            result.append("PUSH_U32 ");
            append_u32_dec(&mut result, v);
            result.append(" ");
            pc += 5;
        } else if op == PUSH_STRING {
            let idx = prepare_u32_from_be_checked(bytecode, pc + 1)?;
            result.append("PUSH_STRING ");
            let s = string_pool.resolve(idx as usize)?;
            result.append(s);
            result.append(" ");
            pc += 5;
        } else if op == PUSH_STATUS {
            let v = prepare_u8(bytecode, pc + 1)?;
            result.append("PUSH_STATUS ");
            append_u32_dec(&mut result, v as u32);
            result.append(" ");
            pc += 2;
        } else if op == PUSH_TASK_FIELD {
            let v = prepare_u8(bytecode, pc + 1)?;
            result.append("PUSH_TASK_FIELD ");
            append_u32_dec(&mut result, v as u32);
            result.append(" ");
            pc += 2;
        } else if op == PUSH_CALLDATA {
            let idx = prepare_u32_from_be_checked(bytecode, pc + 1)?;
            result.append("PUSH_CALLDATA ");
            if (idx as usize) < instructions_pool.len() && (idx as usize) < bound {
                let inner = instructions_pool.get(idx as usize)?;
                let inner_text = disassemble_at(inner, string_pool, instructions_pool, idx as usize)?;
                result.append(inner_text.as_str());
            }
            result.append(" ] ");
            pc += 5;
        } else if op == JUMP_IF_FALSE {
            let t = prepare_u32_from_be_checked(bytecode, pc + 1)?;
            pending.push(t);
            result.append("IF ");
            pc += 5;
        } else if op == T_CREATE {
            result.append("T_CREATE ");
            pc += 1;
        } else if op == T_GET_FIELD {
            result.append("T_GET_FIELD ");
            pc += 1;
        } else if op == T_SET_FIELD {
            result.append("T_SET_FIELD ");
            pc += 1;
        } else if op == T_DELETE {
            result.append("T_DELETE ");
            pc += 1;
        } else if op == S_SAVE {
            result.append("S_SAVE ");
            pc += 1;
        } else if op == S_LOAD {
            result.append("S_LOAD ");
            pc += 1;
        } else if op == S_LEN {
            result.append("S_LEN ");
            pc += 1;
        } else if op == DO {
            result.append("DO ");
            pc += 1;
        } else if op == LOOP {
            result.append("LOOP ");
            pc += 1;
        } else if op == LOOP_INDEX {
            result.append("LOOP_INDEX ");
            pc += 1;
        } else if op == CALL {
            result.append("CALL ");
            pc += 1;
        } else if op == END_CALL {
            result.append("END_CALL ");
            pc += 1;
        } else if op == DROP_IF {
            result.append("DROP_IF ");
            pc += 1;
        } else if op == DUP {
            result.append("DUP ");
            pc += 1;
        } else if op == SWAP {
            result.append("SWAP ");
            pc += 1;
        } else if op == EQ {
            result.append("EQ ");
            pc += 1;
        } else if op == NEQ {
            result.append("NEQ ");
            pc += 1;
        } else if op == LT {
            result.append("LT ");
            pc += 1;
        } else if op == GT {
            result.append("GT ");
            pc += 1;
        } else {
            assert(opcode_text(op) =~= Seq::<char>::empty());
            assert(result@ + opcode_text(op) =~= result@);
            pc += 1;
        }
    }
    while pending_top_is(&pending, pc)
        invariant
            n == bytecode@.len(),
            pc == n,
            spool == string_pool@,
            ipool == instructions_pool@,
            spec_disasm(spool, ipool, bytecode@, 0, Seq::empty(), Seq::empty(), bound as int)
                == spec_disasm(
                spool,
                ipool,
                bytecode@,
                pc as int,
                pending@,
                result@,
                bound as int,
            ),
        decreases pending@.len(),
    {
        pending.pop();
        result.append("THEN ");
    }
    let out_len = result.as_str().unicode_len();
    if out_len > 0 {
        let trimmed = result.as_str().substring_char(0, out_len - 1);
        assert(trimmed@ =~= trim_last(result@));
        return Ok(String::from_str(trimmed));
    }
    Ok(result)
}

/// Disassemble `bytecode` against the pools into canonical mnemonic text.
pub fn disassemble(
    bytecode: &[u8],
    string_pool: &StringPool,
    instructions_pool: &InstructionsPool,
) -> (r: VMResult<String>)
    ensures
        match spec_disassemble(
            string_pool@,
            instructions_pool@,
            bytecode@,
            instructions_pool@.len() as int,
        ) {
            Ok(t) => r matches Ok(s) && s@ == t,
            Err(e) => r matches Err(e2) && e2 == e,
        },
{
    let bound = instructions_pool.len();
    disassemble_at(bytecode, string_pool, instructions_pool, bound)
}

} // verus!
