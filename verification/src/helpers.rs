//! Operand-stack primitives and big-endian operand access.
//!
//! The operand stack is a plain `Vec` guarded by an explicit capacity check;
//! the bytecode fetch helpers read big-endian immediates out of a byte slice.

use vstd::prelude::*;

use crate::errors::{VMError, VMResult};

verus! {

/// Capacity of the operand stack. A push beyond this limit fails with
/// `StackOverflow`.
pub const MAX_STACK_SIZE: usize = 1_000_000;

/// Push onto the bounded operand stack; a push at capacity fails with
/// `StackOverflow` and leaves the stack unchanged.
pub fn push_stack(stack: &mut Vec<u64>, value: u64) -> (r: VMResult<()>)
    ensures
        old(stack)@.len() >= MAX_STACK_SIZE ==> r == Err::<(), VMError>(VMError::StackOverflow)
            && final(stack)@ == old(stack)@,
        old(stack)@.len() < MAX_STACK_SIZE ==> r == Ok::<(), VMError>(()) && final(stack)@ == old(stack)@.push(value),
{
    if stack.len() >= MAX_STACK_SIZE {
        return Err(VMError::StackOverflow);
    }
    stack.push(value);
    Ok(())
}

/// Pop the top of a stack; a pop on an empty stack fails with
/// `StackUnderflow` and leaves the stack unchanged.
pub fn pop_stack<T>(stack: &mut Vec<T>) -> (r: VMResult<T>)
    ensures
        old(stack)@.len() == 0 ==> (r matches Err(e) && e == VMError::StackUnderflow && final(
            stack)@ == old(stack)@),
        old(stack)@.len() > 0 ==> (r matches Ok(v) && v == old(stack)@.last() && final(stack)@
            == old(stack)@.drop_last()),
{
    match stack.pop() {
        Some(v) => Ok(v),
        None => Err(VMError::StackUnderflow),
    }
}

/// Peek at the top of a stack; `StackUnderflow` when empty.
pub fn last_stack<T>(stack: &[T]) -> (r: VMResult<&T>)
    ensures
        stack@.len() == 0 ==> (r matches Err(e) && e == VMError::StackUnderflow),
        stack@.len() > 0 ==> (r matches Ok(v) && *v == stack@.last()),
{
    match stack.last() {
        Some(v) => Ok(v),
        None => Err(VMError::StackUnderflow),
    }
}

/// The big-endian 32-bit integer spelled by `s[pc .. pc + 4]`.
pub open spec fn spec_be32(s: Seq<u8>, pc: int) -> u32 {
    (((s[pc] as u32) << 24) | ((s[pc + 1] as u32) << 16) | ((s[pc + 2] as u32) << 8) | (s[pc + 3]
        as u32)) as u32
}

/// The four big-endian bytes of `n`, most significant first.
pub open spec fn spec_u32_be_bytes(n: u32) -> Seq<u8> {
    seq![(n >> 24) as u8, ((n >> 16) & 0xff) as u8, ((n >> 8) & 0xff) as u8, (n & 0xff) as u8]
}

/// Reading back the four big-endian bytes of `n` yields `n`.
pub proof fn lemma_be32_roundtrip(n: u32)
    ensures
        spec_be32(spec_u32_be_bytes(n), 0) == n,
{
    let s = spec_u32_be_bytes(n);
    let b0 = (n >> 24) as u8;
    let b1 = ((n >> 16) & 0xff) as u8;
    let b2 = ((n >> 8) & 0xff) as u8;
    let b3 = (n & 0xff) as u8;
    assert((((((n >> 24) as u8) as u32) << 24) | ((((n >> 16) & 0xff) as u8 as u32) << 16) | ((((n
        >> 8) & 0xff) as u8 as u32) << 8) | ((n & 0xff) as u8 as u32)) == n) by (bit_vector);
    assert(s[0] == b0 && s[1] == b1 && s[2] == b2 && s[3] == b3);
}

/// Fetch a 4-byte big-endian operand at `pc`; `UnexpectedEOB` when fewer
/// than four bytes remain.
pub fn prepare_u32_from_be_checked(inst_slice: &[u8], pc: usize) -> (r: VMResult<u32>)
    ensures
        pc + 4 <= inst_slice@.len() ==> r == Ok::<u32, VMError>(spec_be32(inst_slice@, pc as int)),
        pc + 4 > inst_slice@.len() ==> r == Err::<u32, VMError>(VMError::UnexpectedEOB),
{
    if inst_slice.len() < 4 || pc > inst_slice.len() - 4 {
        return Err(VMError::UnexpectedEOB);
    }
    let b0 = inst_slice[pc];
    let b1 = inst_slice[pc + 1];
    let b2 = inst_slice[pc + 2];
    let b3 = inst_slice[pc + 3];
    Ok(((b0 as u32) << 24) | ((b1 as u32) << 16) | ((b2 as u32) << 8) | (b3 as u32))
}

/// Fetch the 1-byte operand at `pc`; `UnexpectedEOB` past the end.
pub fn prepare_u8(bytecode: &[u8], pc: usize) -> (r: VMResult<u8>)
    ensures
        pc < bytecode@.len() ==> r == Ok::<u8, VMError>(bytecode@[pc as int]),
        pc >= bytecode@.len() ==> r == Err::<u8, VMError>(VMError::UnexpectedEOB),
{
    if pc < bytecode.len() {
        Ok(bytecode[pc])
    } else {
        Err(VMError::UnexpectedEOB)
    }
}

/// Append the four big-endian bytes of `n` to `out`.
pub fn extend_u32_be(out: &mut Vec<u8>, n: u32)
    ensures
        final(out)@ == old(out)@ + spec_u32_be_bytes(n),
{
    out.push(#[verifier::truncate] ((n >> 24) as u8));
    out.push(#[verifier::truncate] (((n >> 16) & 0xff) as u8));
    out.push(#[verifier::truncate] (((n >> 8) & 0xff) as u8));
    out.push(#[verifier::truncate] ((n & 0xff) as u8));
    assert(final(out)@ =~= old(out)@ + spec_u32_be_bytes(n));
}

} // verus!
