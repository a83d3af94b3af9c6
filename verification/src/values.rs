//! Tagged 64-bit values.
//!
//! Every value the interpreter manipulates fits in one `u64` whose bit
//! pattern is a quiet-NaN payload: the quiet-NaN mask is always set, the low
//! three bits carry a type tag, and a 32-bit payload sits at bits 18..50.
//! A memory slice instead sets the sign bit together with the quiet-NaN mask
//! and packs two 25-bit fields (offset, size) into the low 50 bits.

use vstd::prelude::*;

use crate::errors::{VMError, VMResult};

verus! {

pub type Value = u64;

/// Exclusive upper bound of a memory-slice field (2^25).
pub const U25_MAX: u32 = 0x200_0000;

/// Quiet-NaN mask: all these bits set means the value carries a tag.
pub const QNAN: u64 = 0x7ffc000000000000;
pub const SIGN_BIT: u64 = 0x8000000000000000;
pub const TAG_MASK: u64 = 7;

/// Tag 1 is reserved.
pub const TAG_FALSE: u64 = 2;
pub const TAG_TRUE: u64 = 3;
pub const TAG_STRING: u64 = 4;
pub const TAG_CALLDATA: u64 = 5;
pub const TAG_U32: u64 = 6;

pub const FALSE_VAL: Value = QNAN | TAG_FALSE;
pub const TRUE_VAL: Value = QNAN | TAG_TRUE;

/// The bit pattern carrying `tag` and a 32-bit `payload`.
/// The payload is shifted past 15 unused bits and the 3 tag bits.
pub open spec fn spec_tagged(tag: u64, payload: u32) -> Value {
    QNAN | ((payload as u64) << 18) | tag
}

pub open spec fn spec_is_qnan(v: Value) -> bool {
    v & QNAN == QNAN
}

pub open spec fn spec_is_mem_slice(v: Value) -> bool {
    v & (QNAN | SIGN_BIT) == (QNAN | SIGN_BIT)
}

pub open spec fn spec_raw_tag(v: Value) -> u64 {
    v & TAG_MASK
}

/// The 32-bit payload of a tagged scalar.
pub open spec fn spec_payload(v: Value) -> u32 {
    ((v >> 18) & 0xffff_ffff) as u32
}

pub open spec fn spec_is_u32_val(v: Value) -> bool {
    spec_is_qnan(v) && spec_raw_tag(v) == TAG_U32
}

pub open spec fn spec_bool_val(b: bool) -> Value {
    if b {
        TRUE_VAL
    } else {
        FALSE_VAL
    }
}

/// The memory-slice bit pattern for an in-range (offset, size) pair.
pub open spec fn spec_mem_slice(offset: u32, size: u32) -> Value {
    (SIGN_BIT | QNAN) | ((offset as u64) << 25) | (size as u64)
}

pub open spec fn spec_mem_slice_fields(v: Value) -> (u32, u32) {
    (((v >> 25) & 0x1FFFFFF) as u32, (v & 0x1FFFFFF) as u32)
}

/// The combined sign-and-quiet-NaN mask as one literal.
proof fn lemma_slice_mask()
    ensures
        QNAN | SIGN_BIT == 0xfffc000000000000u64,
{
    assert((0x7ffc000000000000u64 | 0x8000000000000000) == 0xfffc000000000000u64) by (bit_vector);
}

/// Tagging is lossless: the payload and the tag of a tagged scalar read back
/// unchanged, the quiet-NaN mask is set, and the pattern is no memory slice.
pub proof fn lemma_tagged(tag: u64, payload: u32)
    requires
        tag <= 7,
    ensures
        spec_payload(spec_tagged(tag, payload)) == payload,
        spec_raw_tag(spec_tagged(tag, payload)) == tag,
        spec_is_qnan(spec_tagged(tag, payload)),
        !spec_is_mem_slice(spec_tagged(tag, payload)),
{
    lemma_slice_mask();
    assert((((0x7ffc000000000000u64 | ((payload as u64) << 18) | tag) >> 18) & 0xffff_ffff)
        == payload as u64) by (bit_vector)
        requires
            tag <= 7u64,
    ;
    assert(((0x7ffc000000000000u64 | ((payload as u64) << 18) | tag) & 7) == tag) by (bit_vector)
        requires
            tag <= 7u64,
    ;
    assert(((0x7ffc000000000000u64 | ((payload as u64) << 18) | tag) & 0x7ffc000000000000)
        == 0x7ffc000000000000u64) by (bit_vector);
    assert(((0x7ffc000000000000u64 | ((payload as u64) << 18) | tag) & 0xfffc000000000000)
        != 0xfffc000000000000u64) by (bit_vector)
        requires
            tag <= 7u64,
    ;
}

/// Packing a memory slice is lossless for in-range fields, and the pattern is
/// recognized as a memory slice.
pub proof fn lemma_mem_slice(offset: u32, size: u32)
    requires
        offset < U25_MAX,
        size < U25_MAX,
    ensures
        spec_is_mem_slice(spec_mem_slice(offset, size)),
        spec_is_qnan(spec_mem_slice(offset, size)),
        spec_mem_slice_fields(spec_mem_slice(offset, size)) == (offset, size),
{
    lemma_slice_mask();
    let v = spec_mem_slice(offset, size);
    assert((((0x8000000000000000u64 | 0x7ffc000000000000) | ((offset as u64) << 25) | (
    size as u64)) & 0xfffc000000000000) == 0xfffc000000000000u64) by (bit_vector)
        requires
            offset < 0x2000000u32,
            size < 0x2000000u32,
    ;
    assert((((0x8000000000000000u64 | 0x7ffc000000000000) | ((offset as u64) << 25) | (
    size as u64)) & 0x7ffc000000000000) == 0x7ffc000000000000u64) by (bit_vector);
    assert(((((0x8000000000000000u64 | 0x7ffc000000000000) | ((offset as u64) << 25) | (
    size as u64)) >> 25) & 0x1FFFFFF) == offset as u64) by (bit_vector)
        requires
            offset < 0x2000000u32,
            size < 0x2000000u32,
    ;
    assert((((0x8000000000000000u64 | 0x7ffc000000000000) | ((offset as u64) << 25) | (
    size as u64)) & 0x1FFFFFF) == size as u64) by (bit_vector)
        requires
            offset < 0x2000000u32,
            size < 0x2000000u32,
    ;
}

/// Build the memory-slice value for `(offset, size)`; both must be below 2^25.
pub fn to_mem_slice_val(offset: u32, size: u32) -> (r: VMResult<Value>)
    ensures
        offset < U25_MAX && size < U25_MAX ==> r == Ok::<Value, VMError>(
            spec_mem_slice(offset, size),
        ),
        !(offset < U25_MAX && size < U25_MAX) ==> r == Err::<Value, VMError>(VMError::InvalidType),
{
    if offset < U25_MAX && size < U25_MAX {
        Ok((SIGN_BIT | QNAN) | ((offset as u64) << 25) | (size as u64))
    } else {
        Err(VMError::InvalidType)
    }
}

fn make_tagged(tag: u64, payload: u32) -> (r: Value)
    requires
        tag <= 7,
    ensures
        r == spec_tagged(tag, payload),
{
    QNAN | ((payload as u64) << 18) | tag
}

/// The STRING_REF value carrying string-pool index `idx`.
pub fn to_string_val(idx: u32) -> (r: Value)
    ensures
        r == spec_tagged(TAG_STRING, idx),
{
    make_tagged(TAG_STRING, idx)
}

/// The U32 value carrying `n`.
pub fn to_u32_val(n: u32) -> (r: Value)
    ensures
        r == spec_tagged(TAG_U32, n),
{
    make_tagged(TAG_U32, n)
}

/// The CALLDATA_REF value carrying instructions-pool index `idx`.
pub fn to_calldata_val(idx: u32) -> (r: Value)
    ensures
        r == spec_tagged(TAG_CALLDATA, idx),
{
    make_tagged(TAG_CALLDATA, idx)
}

pub fn to_bool_val(b: bool) -> (r: Value)
    ensures
        r == spec_bool_val(b),
{
    if b {
        TRUE_VAL
    } else {
        FALSE_VAL
    }
}

fn is_qnan(v: Value) -> (r: bool)
    ensures
        r == spec_is_qnan(v),
{
    (v & QNAN) == QNAN
}

fn is_mem_slice(v: Value) -> (r: bool)
    ensures
        r == spec_is_mem_slice(v),
{
    v & (QNAN | SIGN_BIT) == (QNAN | SIGN_BIT)
}

fn is_u32_val(v: Value) -> (r: bool)
    ensures
        r == spec_is_u32_val(v),
{
    is_qnan(v) && (v & TAG_MASK) == TAG_U32
}

/// The 32-bit payload of a tagged scalar (U32, STRING_REF or CALLDATA_REF).
pub fn to_u32(v: Value) -> (r: u32)
    ensures
        r == spec_payload(v),
{
    ((v >> 18) & 0xffff_ffff) as u32
}

/// The (offset, size) fields of a memory-slice value.
pub fn to_mem_slice(v: Value) -> (r: VMResult<(u32, u32)>)
    ensures
        spec_is_mem_slice(v) ==> r == Ok::<(u32, u32), VMError>(spec_mem_slice_fields(v)),
        !spec_is_mem_slice(v) ==> r == Err::<(u32, u32), VMError>(VMError::InvalidType),
{
    if is_mem_slice(v) {
        let offset = ((v >> 25) & 0x1FFFFFF) as u32;
        let size = (v & 0x1FFFFFF) as u32;
        Ok((offset, size))
    } else {
        Err(VMError::InvalidType)
    }
}

/// What `EQ` pushes (or why it fails) for operands `left` and `right`:
/// tagged scalars compare by payload, booleans exactly; operands whose tags
/// differ are a type mismatch, and other tags cannot be compared.
pub open spec fn spec_value_eq(left: Value, right: Value) -> Result<Value, VMError> {
    if !spec_is_qnan(left) || !spec_is_qnan(right) {
        Err(VMError::InvalidType)
    } else if spec_raw_tag(left) != spec_raw_tag(right) {
        Err(VMError::TypeMismatch)
    } else if spec_raw_tag(left) == TAG_U32 || spec_raw_tag(left) == TAG_STRING || spec_raw_tag(
        left,
    ) == TAG_CALLDATA {
        Ok(spec_bool_val(spec_payload(left) == spec_payload(right)))
    } else if spec_raw_tag(left) == TAG_TRUE || spec_raw_tag(left) == TAG_FALSE {
        Ok(spec_bool_val(left == right))
    } else {
        Err(VMError::InvalidType)
    }
}

pub fn value_eq(left: Value, right: Value) -> (r: VMResult<Value>)
    ensures
        r == spec_value_eq(left, right),
{
    if !is_qnan(left) || !is_qnan(right) {
        return Err(VMError::InvalidType);
    }
    let tag_left = left & TAG_MASK;
    let tag_right = right & TAG_MASK;
    if tag_left != tag_right {
        Err(VMError::TypeMismatch)
    } else if tag_left == TAG_U32 || tag_left == TAG_STRING || tag_left == TAG_CALLDATA {
        Ok(to_bool_val(to_u32(left) == to_u32(right)))
    } else if tag_left == TAG_TRUE || tag_left == TAG_FALSE {
        Ok(to_bool_val(left == right))
    } else {
        Err(VMError::InvalidType)
    }
}

/// What `NEQ` pushes: the boolean opposite of `EQ`, failing as `EQ` fails.
pub open spec fn spec_value_neq(left: Value, right: Value) -> Result<Value, VMError> {
    match spec_value_eq(left, right) {
        Ok(v) => Ok(spec_bool_val(v == FALSE_VAL)),
        Err(e) => Err(e),
    }
}

pub fn value_neq(left: Value, right: Value) -> (r: VMResult<Value>)
    ensures
        r == spec_value_neq(left, right),
{
    proof {
        lemma_bool_distinct();
    }
    match value_eq(left, right) {
        Ok(v) => Ok(to_bool_val(v == FALSE_VAL)),
        Err(e) => Err(e),
    }
}

/// TRUE_VAL and FALSE_VAL are distinct patterns differing in the low bit.
pub proof fn lemma_bool_distinct()
    ensures
        TRUE_VAL != FALSE_VAL,
        FALSE_VAL | 1 == TRUE_VAL,
        TRUE_VAL | 1 == TRUE_VAL,
        spec_raw_tag(TRUE_VAL) == TAG_TRUE,
        spec_raw_tag(FALSE_VAL) == TAG_FALSE,
        spec_is_qnan(TRUE_VAL),
        spec_is_qnan(FALSE_VAL),
        !spec_is_mem_slice(TRUE_VAL),
        !spec_is_mem_slice(FALSE_VAL),
{
    lemma_slice_mask();
    assert((0x7ffc000000000000u64 | 3) != (0x7ffc000000000000u64 | 2)
        && ((0x7ffc000000000000u64 | 2) | 1) == (0x7ffc000000000000u64 | 3) && ((
    0x7ffc000000000000u64 | 3) | 1) == (0x7ffc000000000000u64 | 3) && ((0x7ffc000000000000u64 | 3)
        & 7) == 3 && ((0x7ffc000000000000u64 | 2) & 7) == 2 && ((0x7ffc000000000000u64 | 3)
        & 0x7ffc000000000000) == 0x7ffc000000000000 && ((0x7ffc000000000000u64 | 2)
        & 0x7ffc000000000000) == 0x7ffc000000000000 && ((0x7ffc000000000000u64 | 3)
        & 0xfffc000000000000) != 0xfffc000000000000 && ((0x7ffc000000000000u64 | 2)
        & 0xfffc000000000000) != 0xfffc000000000000) by (bit_vector);
}

/// What `LT`/`GT` push: both operands must be U32 values; `is_lt` selects the
/// direction of the comparison of their payloads.
pub open spec fn spec_value_cmp(left: Value, right: Value, is_lt: bool) -> Result<Value, VMError> {
    if !spec_is_u32_val(left) || !spec_is_u32_val(right) {
        Err(VMError::InvalidType)
    } else if is_lt {
        Ok(spec_bool_val(spec_payload(left) < spec_payload(right)))
    } else {
        Ok(spec_bool_val(spec_payload(left) > spec_payload(right)))
    }
}

pub fn value_cmp(left: Value, right: Value, is_lt: bool) -> (r: VMResult<Value>)
    ensures
        r == spec_value_cmp(left, right, is_lt),
{
    if !is_u32_val(left) || !is_u32_val(right) {
        return Err(VMError::InvalidType);
    }
    if is_lt {
        Ok(to_bool_val(to_u32(left) < to_u32(right)))
    } else {
        Ok(to_bool_val(to_u32(left) > to_u32(right)))
    }
}

/// The kind of a tagged value, used when unboxing a result stack.
pub enum ValueType {
    U32,
    String,
    CallData,
    Bool,
    MemSlice,
}

/// The kind carried by the bit pattern `v`: a memory slice when sign and
/// quiet-NaN bits are set, otherwise by tag; patterns that carry no live tag
/// cannot be unboxed.
pub open spec fn spec_value_type(v: Value) -> Result<ValueType, VMError> {
    if spec_is_mem_slice(v) {
        Ok(ValueType::MemSlice)
    } else if !spec_is_qnan(v) {
        Err(VMError::InvalidType)
    } else if spec_raw_tag(v) == TAG_U32 {
        Ok(ValueType::U32)
    } else if spec_raw_tag(v) == TAG_STRING {
        Ok(ValueType::String)
    } else if spec_raw_tag(v) == TAG_CALLDATA {
        Ok(ValueType::CallData)
    } else if spec_raw_tag(v) == TAG_FALSE || spec_raw_tag(v) == TAG_TRUE {
        Ok(ValueType::Bool)
    } else {
        Err(VMError::InvalidType)
    }
}

pub fn get_value_type(v: Value) -> (r: VMResult<ValueType>)
    ensures
        r == spec_value_type(v),
{
    if is_mem_slice(v) {
        return Ok(ValueType::MemSlice);
    }
    if !is_qnan(v) {
        return Err(VMError::InvalidType);
    }
    let tag = v & TAG_MASK;
    if tag == TAG_U32 {
        Ok(ValueType::U32)
    } else if tag == TAG_STRING {
        Ok(ValueType::String)
    } else if tag == TAG_CALLDATA {
        Ok(ValueType::CallData)
    } else if tag == TAG_FALSE || tag == TAG_TRUE {
        Ok(ValueType::Bool)
    } else {
        Err(VMError::InvalidType)
    }
}

/// A stack value resolved against the pools: the typed view handed back to
/// the caller of `unbox`.
#[derive(Debug)]
pub enum Return<'a> {
    U32(u32),
    String(&'a str),
    CallData(String),
    Bool(bool),
    MemSlice(u32, u32),
}

impl<'a> Return<'a> {
    /// The carried integer; `TypeMismatch` for any other variant.
    pub fn as_u32(&self) -> (r: VMResult<u32>)
        ensures
            match self {
                Return::U32(v) => r == Ok::<u32, VMError>(*v),
                _ => r == Err::<u32, VMError>(VMError::TypeMismatch),
            },
    {
        match self {
            Return::U32(v) => Ok(*v),
            _ => Err(VMError::TypeMismatch),
        }
    }

    /// The carried string; `TypeMismatch` for any other variant.
    pub fn as_str(&self) -> (r: VMResult<&'a str>)
        ensures
            match self {
                Return::String(s) => r == Ok::<&'a str, VMError>(*s),
                _ => r == Err::<&'a str, VMError>(VMError::TypeMismatch),
            },
    {
        match self {
            Return::String(s) => Ok(*s),
            _ => Err(VMError::TypeMismatch),
        }
    }

    /// The carried calldata source text; `TypeMismatch` for any other variant.
    pub fn as_calldata(&self) -> (r: VMResult<&str>)
        ensures
            match self {
                Return::CallData(c) => r matches Ok(s) && s@ == c@,
                _ => r matches Err(e) && e == VMError::TypeMismatch,
            },
    {
        match self {
            Return::CallData(c) => Ok(c.as_str()),
            _ => Err(VMError::TypeMismatch),
        }
    }

    /// The carried boolean; `TypeMismatch` for any other variant.
    pub fn as_bool(&self) -> (r: VMResult<bool>)
        ensures
            match self {
                Return::Bool(b) => r == Ok::<bool, VMError>(*b),
                _ => r == Err::<bool, VMError>(VMError::TypeMismatch),
            },
    {
        match self {
            Return::Bool(b) => Ok(*b),
            _ => Err(VMError::TypeMismatch),
        }
    }

    /// The carried (offset, size) pair; `TypeMismatch` for any other variant.
    pub fn as_mem_slice(&self) -> (r: VMResult<(u32, u32)>)
        ensures
            match self {
                Return::MemSlice(o, s) => r == Ok::<(u32, u32), VMError>((*o, *s)),
                _ => r == Err::<(u32, u32), VMError>(VMError::TypeMismatch),
            },
    {
        match self {
            Return::MemSlice(o, s) => Ok((*o, *s)),
            _ => Err(VMError::TypeMismatch),
        }
    }
}

} // verus!
