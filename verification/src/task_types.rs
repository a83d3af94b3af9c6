//! Task records: the logical form handed to callers and persisted, and the
//! in-memory form whose title and instructions are pool indices.

use vstd::prelude::*;

use crate::assembler::{asm_err_matches, assemble, spec_assemble, MAX_SOURCE_LEN};
use crate::codec::TaskModel;
use crate::disassembler::{disassemble, spec_disassemble};
use crate::errors::{VMError, VMResult};
use crate::pools::{spec_intern, InstructionsPool, StringPool};

verus! {

/// A task in logical form: the title spelled out and the instructions as
/// source text.
#[derive(Debug, Clone)]
pub struct Task {
    pub id: u32,
    pub title: String,
    pub status: TaskStatus,
    pub instructions: String,
}

/// A task in VM form: `title` is a string-pool index and `instructions_ref`
/// an instructions-pool index.
#[derive(Debug, Clone, Copy, PartialEq, Eq, Structural)]
pub struct TaskVM {
    pub id: u32,
    pub title: u32,
    pub status: TaskStatus,
    pub instructions_ref: u32,
}

#[derive(Debug, Clone, Copy, PartialEq, Eq, Structural)]
pub enum TaskStatus {
    NotComplete,
    InProgress,
    Complete,
}

impl DeepView for TaskStatus {
    type V = TaskStatus;

    open spec fn deep_view(&self) -> TaskStatus {
        *self
    }
}

/// The wire code of a status: NotComplete 0, InProgress 1, Complete 2.
pub open spec fn spec_status_code(s: TaskStatus) -> u32 {
    match s {
        TaskStatus::NotComplete => 0,
        TaskStatus::InProgress => 1,
        TaskStatus::Complete => 2,
    }
}

/// The status named by `v`, or `InvalidStatus(v)` outside 0..=2.
pub open spec fn spec_status_from(v: u32) -> Result<TaskStatus, VMError> {
    if v == 0 {
        Ok(TaskStatus::NotComplete)
    } else if v == 1 {
        Ok(TaskStatus::InProgress)
    } else if v == 2 {
        Ok(TaskStatus::Complete)
    } else {
        Err(VMError::InvalidStatus(v))
    }
}

impl TaskStatus {
    pub fn code(&self) -> (r: u32)
        ensures
            r == spec_status_code(*self),
    {
        match self {
            TaskStatus::NotComplete => 0,
            TaskStatus::InProgress => 1,
            TaskStatus::Complete => 2,
        }
    }

    pub fn try_from(v: u32) -> (r: VMResult<TaskStatus>)
        ensures
            r == spec_status_from(v),
    {
        if v == 0 {
            Ok(TaskStatus::NotComplete)
        } else if v == 1 {
            Ok(TaskStatus::InProgress)
        } else if v == 2 {
            Ok(TaskStatus::Complete)
        } else {
            Err(VMError::InvalidStatus(v))
        }
    }
}

#[derive(Debug, Clone, Copy, PartialEq, Eq, Structural)]
pub enum TaskField {
    Title,
    Status,
    Instructions,
}

/// The field named by `v` (title 0, status 1, instructions 2), or
/// `InvalidTaskField(v)` outside 0..=2.
pub open spec fn spec_field_from(v: u32) -> Result<TaskField, VMError> {
    if v == 0 {
        Ok(TaskField::Title)
    } else if v == 1 {
        Ok(TaskField::Status)
    } else if v == 2 {
        Ok(TaskField::Instructions)
    } else {
        Err(VMError::InvalidTaskField(v))
    }
}

impl TaskField {
    pub fn try_from(v: u32) -> (r: VMResult<TaskField>)
        ensures
            r == spec_field_from(v),
    {
        if v == 0 {
            Ok(TaskField::Title)
        } else if v == 1 {
            Ok(TaskField::Status)
        } else if v == 2 {
            Ok(TaskField::Instructions)
        } else {
            Err(VMError::InvalidTaskField(v))
        }
    }
}

/// What resolving the in-memory task `t` against the pools yields: its
/// title spelled out and its instructions blob disassembled, or the first
/// error of that resolution.
pub open spec fn spec_resolve_vm(
    t: TaskVM,
    spool: Seq<Seq<char>>,
    ipool: Seq<Seq<u8>>,
) -> Result<TaskModel, VMError> {
    if t.instructions_ref >= ipool.len() {
        Err(VMError::InvalidInstructionsIndex(t.instructions_ref as usize))
    } else {
        match spec_disassemble(spool, ipool, ipool[t.instructions_ref as int], ipool.len() as int) {
            Err(e) => Err(e),
            Ok(txt) => {
                if t.title >= spool.len() {
                    Err(VMError::InvalidStringIndex(t.title as usize))
                } else {
                    Ok(
                        TaskModel {
                            id: t.id,
                            title: spool[t.title as int],
                            status: t.status,
                            instructions: txt,
                        },
                    )
                }
            },
        }
    }
}

impl TaskVM {
    /// Materialize the logical task: resolve the title and disassemble the
    /// instructions blob.
    pub fn to_task(&self, strings: &StringPool, instructions_pool: &InstructionsPool) -> (r:
        VMResult<Task>)
        ensures
            match spec_resolve_vm(*self, strings@, instructions_pool@) {
                Ok(m) => r matches Ok(t) && t.deep_view() == m,
                Err(e) => r matches Err(e2) && e2 == e,
            },
    {
        let code = instructions_pool.get(self.instructions_ref as usize)?;
        let instructions = disassemble(code, strings, instructions_pool)?;
        let title = strings.resolve(self.title as usize)?;
        let t = Task {
            id: self.id,
            title: String::from_str(title),
            status: self.status,
            instructions,
        };
        assert(t.deep_view() == spec_resolve_vm(*self, strings@, instructions_pool@).unwrap());
        Ok(t)
    }

    /// Bring a logical task into VM form: intern the title and assemble its
    /// instructions into a fresh blob.
    pub fn from_task(
        task: Task,
        strings: &mut StringPool,
        instructions_pool: &mut InstructionsPool,
    ) -> (r: VMResult<TaskVM>)
        requires
            old(strings).wf(),
            task.instructions@.len() <= MAX_SOURCE_LEN,
            old(strings)@.len() + task.instructions@.len() + 1 < u32::MAX,
            old(instructions_pool)@.len() + task.instructions@.len() + 1 < u32::MAX,
        ensures
            final(strings).wf(),
            final(strings)@.len() <= old(strings)@.len() + task.instructions@.len() + 1,
            final(instructions_pool)@.len() <= old(instructions_pool)@.len()
                + task.instructions@.len() + 1,
            ({
                let (sp1, tidx) = spec_intern(old(strings)@, task.title@);
                match spec_assemble(task.instructions@, sp1, old(instructions_pool)@) {
                    Err(a) => r matches Err(e) && asm_err_matches(e, a),
                    Ok(st) => r matches Ok(tv) && tv.id == task.id && tv.status == task.status
                        && tv.title == tidx && tv.instructions_ref == st.ipool.len()
                        && final(strings)@ == st.spool && final(instructions_pool)@
                        == st.ipool.push(st.code),
                }
            }),
    {
        let title_idx = strings.intern_string(task.title);
        let bytecode = assemble(task.instructions.as_str(), strings, instructions_pool)?;
        let inst_ref = instructions_pool.intern_instructions(bytecode);
        Ok(
            TaskVM {
                id: task.id,
                title: title_idx,
                status: task.status,
                instructions_ref: inst_ref,
            },
        )
    }
}

/// The persisted image of a store: its live tasks in slot order and the
/// next id to assign.
#[derive(Debug)]
pub struct StorageData {
    pub tasks: Vec<Task>,
    pub next_id: u32,
}

} // verus!
