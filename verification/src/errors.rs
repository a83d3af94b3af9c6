//! The closed set of errors that the virtual machine, the assembler, the
//! pools and the storage layer can report.

use vstd::prelude::*;

verus! {

/// Every fallible operation of the library reports one of these.
#[derive(Debug)]
pub enum VMError {
    /// No live task occupies the requested slot.
    TaskNotFound(u32),
    /// The persistence buffer could not be written.
    StorageWriteError,
    /// The persisted bytes could not be decoded.
    StorageReadError,
    /// A string longer than the storage format allows.
    StorageSizeTooBig,
    /// Persisted title or instruction bytes were not valid UTF-8.
    StorageUTF8ConversionFailed,
    /// A string pool index without an entry.
    InvalidStringIndex(usize),
    /// An instructions pool index without an entry.
    InvalidInstructionsIndex(usize),
    /// A pop or peek on an empty stack.
    StackUnderflow,
    /// A text rendering step failed.
    WriteError,
    /// A push beyond a stack's capacity.
    StackOverflow,
    /// A memory slice parameter outside the 25-bit range.
    MSliceParamOverflow,
    /// A memory slice outside the addressable range.
    MSliceOutOfBounds { index: u32, size: u32 },
    /// Two tagged values of different kinds were compared.
    TypeMismatch,
    /// A tagged value of the wrong kind for the operation.
    InvalidType,
    /// An empty source program.
    EmptyInstructions,
    /// A status byte outside 0..=2.
    InvalidStatus(u32),
    /// A task field byte outside 0..=2.
    InvalidTaskField(u32),
    /// The bytecode ended in the middle of an operand.
    UnexpectedEOB,
    /// The source ended in the middle of an instruction.
    UnexpectedEOI { command: usize, context: &'static str },
    /// A numeric operand that does not parse at the expected width.
    InvalidUINT { command: usize, value: String },
    /// A `PUSH_CALLDATA` not followed by `[`.
    MalformedCalldata { command: usize, context: &'static str },
    /// An unrecognized mnemonic token.
    UnknownOpcode { opcode: String },
    /// An `IF` without `THEN` at the end of assembly.
    MalformedIfThen { context: &'static str },
}

pub type VMResult<T> = Result<T, VMError>;

} // verus!
