//! A small stack-oriented virtual machine executing a custom bytecode over a
//! persistent collection of tasks.
//!
//! Programs are written in a whitespace-separated mnemonic language; the
//! assembler translates them to bytecode, the interpreter evaluates them
//! against a stack of tagged 64-bit values, and a storage layer encodes the
//! tasks referenced by the VM into a compact binary form that the host can
//! persist across runs.

mod assembler;
mod codec;
mod disassembler;
mod errors;
mod helpers;
mod inlinevec;
mod laws;
mod opcodes;
mod pools;
mod store;
mod task_types;
mod text;
mod values;
mod vm;

pub use assembler::assemble;
pub use codec::{Decode, Encode};
pub use disassembler::disassemble;
pub use errors::{VMError, VMResult};
pub use helpers::{last_stack, pop_stack, prepare_u32_from_be_checked, prepare_u8, push_stack, MAX_STACK_SIZE};
pub use inlinevec::InlineVec;
pub use pools::{InstructionsPool, StringPool};
pub use store::Storage;
pub use task_types::{StorageData, Task, TaskField, TaskStatus, TaskVM};
pub use vm::{InstructionsFrame, VM};
pub use values::{to_mem_slice_val, to_string_val, to_u32, to_u32_val, value_eq, Return, Value, FALSE_VAL, TRUE_VAL};
