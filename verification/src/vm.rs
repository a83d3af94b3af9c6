//! The virtual machine: operand stack, bounded control and call stacks,
//! opcode dispatch, and the public surface.
//!
//! `init` assembles a source program and prepares the pools, the task store
//! and the top-level call frame; `run` executes bytecode until the current
//! frame's program counter moves past its last byte; `unbox` resolves the
//! resulting tagged values against the pools. `S_SAVE` encodes the store
//! into an internal buffer that the host takes with `take_saved` and
//! persists; `init_with_storage` accepts such persisted bytes back.

use vstd::prelude::*;

use crate::assembler::{asm_err_matches, assemble, spec_assemble, MAX_SOURCE_LEN};
use crate::disassembler::{disassemble, spec_disassemble};
use crate::errors::{VMError, VMResult};
use crate::helpers::{
    pop_stack, prepare_u32_from_be_checked, prepare_u8, push_stack, spec_be32, MAX_STACK_SIZE,
};
use crate::inlinevec::InlineVec;
use crate::opcodes::{
    CALL, DO, DROP_IF, DUP, END_CALL, EQ, GT, JUMP_IF_FALSE, LOOP, LOOP_INDEX, LT, NEQ,
    PUSH_CALLDATA, PUSH_STATUS, PUSH_STRING, PUSH_TASK_FIELD, PUSH_U32, S_LEN, S_LOAD, S_SAVE,
    SWAP, T_CREATE, T_DELETE, T_GET_FIELD, T_SET_FIELD,
};
use crate::pools::{InstructionsPool, StringPool};
use crate::store::{live_count, load_err_matches, spec_collect, spec_load, Storage};
use crate::task_types::{
    spec_field_from, spec_resolve_vm, spec_status_code, spec_status_from, Task, TaskField,
    TaskStatus, TaskVM,
};
use crate::values::{
    spec_payload, spec_tagged, spec_value_cmp, spec_value_eq, spec_value_neq, spec_value_type,
    to_calldata_val, to_string_val, to_u32, to_u32_val, value_cmp, value_eq, value_neq, Return,
    FALSE_VAL, TAG_CALLDATA, TAG_STRING, TAG_U32, TRUE_VAL,
};

verus! {

/// Where execution is suspended within one program: a pool index and the
/// next byte to fetch.
#[derive(Debug, Clone, Copy, Default)]
pub struct InstructionsFrame {
    pub instructions_ref: u32,
    pub pc: usize,
}

/// What one dispatched opcode asks of the driving loop: continue in the
/// same program at the given counter, or refetch the program `ref` at the
/// given counter.
pub enum StepOut {
    Next(usize),
    Switch(u32, usize),
}

#[derive(Debug)]
pub struct VM {
    stack: Vec<u64>,
    control_stack: InlineVec<(u64, u64, u64), 2>,
    storage: Storage,
    pool: StringPool,
    instructions_pool: InstructionsPool,
    call_stack: InlineVec<InstructionsFrame, 2>,
    saved: Option<Vec<u8>>,
}

impl VM {
    pub closed spec fn spec_stack(&self) -> Seq<u64> {
        self.stack@
    }

    pub closed spec fn spec_control(&self) -> Seq<(u64, u64, u64)> {
        self.control_stack@
    }

    pub closed spec fn spec_frames(&self) -> Seq<InstructionsFrame> {
        self.call_stack@
    }

    pub closed spec fn spec_store(&self) -> Seq<Option<TaskVM>> {
        self.storage@
    }

    pub closed spec fn spec_next_id(&self) -> u32 {
        self.storage.spec_next()
    }

    pub closed spec fn spec_spool(&self) -> Seq<Seq<char>> {
        self.pool@
    }

    pub closed spec fn spec_ipool(&self) -> Seq<Seq<u8>> {
        self.instructions_pool@
    }

    pub closed spec fn spec_saved(&self) -> Option<Seq<u8>> {
        match self.saved {
            Some(b) => Some(b@),
            None => None,
        }
    }

    pub closed spec fn wf(&self) -> bool {
        &&& self.pool.wf()
        &&& self.storage.wf()
        &&& self.control_stack.wf()
        &&& self.call_stack.wf()
        &&& self.call_stack@.len() >= 1
        &&& self.stack@.len() <= MAX_STACK_SIZE
        &&& forall|i: int|
            0 <= i < self.control_stack@.len() ==> ((#[trigger] self.control_stack@[i]).0
                <= usize::MAX && self.control_stack@[i].1 < 0x1_0000_0000
                && self.control_stack@[i].2 < 0x1_0000_0000)
    }

    /// Build a VM over an empty task store: assemble the program, intern it
    /// and push the top-level frame.
    pub fn init(instructions: &str) -> (r: VMResult<VM>)
        requires
            instructions@.len() <= MAX_SOURCE_LEN,
        ensures
            instructions@.len() == 0 ==> (r matches Err(e) && e == VMError::EmptyInstructions),
            instructions@.len() > 0 ==> match spec_assemble(
                instructions@,
                Seq::empty(),
                Seq::empty(),
            ) {
                Err(a) => r matches Err(e) && asm_err_matches(e, a),
                Ok(st) => r matches Ok(vm) && vm.wf() && vm.spec_stack() == Seq::<u64>::empty()
                    && vm.spec_control() == Seq::<(u64, u64, u64)>::empty() && vm.spec_spool()
                    == st.spool && vm.spec_ipool() == st.ipool.push(st.code) && vm.spec_store()
                    == Seq::<Option<TaskVM>>::empty() && vm.spec_next_id() == 0
                    && vm.spec_frames() == seq![
                    InstructionsFrame { instructions_ref: st.ipool.len() as u32, pc: 0 },
                ] && vm.spec_saved() is None,
            },
    {
        VM::init_with_storage(instructions, None)
    }

    /// Build a VM, rebuilding the task store from persisted bytes when some
    /// are given; absent bytes mean an empty store.
    pub fn init_with_storage(instructions: &str, stored: Option<&[u8]>) -> (r: VMResult<VM>)
        requires
            instructions@.len() <= MAX_SOURCE_LEN,
        ensures
            instructions@.len() == 0 ==> (r matches Err(e) && e == VMError::EmptyInstructions),
            instructions@.len() > 0 ==> match spec_assemble(
                instructions@,
                Seq::empty(),
                Seq::empty(),
            ) {
                Err(a) => r matches Err(e) && asm_err_matches(e, a),
                Ok(st) => {
                    let prog = st.ipool.len() as u32;
                    let ipool1 = st.ipool.push(st.code);
                    match stored {
                        None => r matches Ok(vm) && vm.wf() && vm.spec_stack()
                            == Seq::<u64>::empty() && vm.spec_control() == Seq::<
                            (u64, u64, u64),
                        >::empty() && vm.spec_spool() == st.spool && vm.spec_ipool() == ipool1
                            && vm.spec_store() == Seq::<Option<TaskVM>>::empty()
                            && vm.spec_next_id() == 0 && vm.spec_frames() == seq![
                            InstructionsFrame { instructions_ref: prog, pc: 0 },
                        ] && vm.spec_saved() is None,
                        Some(data) => match spec_load(data@, st.spool, ipool1) {
                            Err(le) => r matches Err(e) && load_err_matches(e, le),
                            Ok((ld, nid)) => r matches Ok(vm) && vm.wf() && vm.spec_stack()
                                == Seq::<u64>::empty() && vm.spec_control() == Seq::<
                                (u64, u64, u64),
                            >::empty() && vm.spec_spool() == ld.spool && vm.spec_ipool()
                                == ld.ipool && vm.spec_store() == ld.slots && vm.spec_next_id()
                                == nid && vm.spec_frames() == seq![
                                InstructionsFrame { instructions_ref: prog, pc: 0 },
                            ] && vm.spec_saved() is None,
                        },
                    }
                },
            },
    {
        if instructions.unicode_len() == 0 {
            return Err(VMError::EmptyInstructions);
        }
        let mut pool = StringPool::new();
        let mut vm_instructions = InstructionsPool::new();
        let program_ops = assemble(instructions, &mut pool, &mut vm_instructions)?;
        let program_ref = vm_instructions.intern_instructions(program_ops);
        let storage = match stored {
            None => Storage::new(),
            Some(data) => Storage::load(data, &mut pool, &mut vm_instructions)?,
        };
        let mut call_stack: InlineVec<InstructionsFrame, 2> = InlineVec::new();
        let call_frame = InstructionsFrame { instructions_ref: program_ref, pc: 0 };
        match call_stack.push(call_frame) {
            Ok(()) => {},
            Err(e) => {
                return Err(e);
            },
        }
        let vm = VM {
            stack: Vec::new(),
            control_stack: InlineVec::new(),
            storage,
            pool,
            instructions_pool: vm_instructions,
            call_stack,
            saved: None,
        };
        assert(vm.spec_stack() =~= Seq::<u64>::empty());
        assert(vm.spec_control() =~= Seq::<(u64, u64, u64)>::empty());
        Ok(vm)
    }

    /// Materialize the logical task at slot `id`.
    pub fn print_task(&self, id: u32) -> (r: VMResult<Task>)
        requires
            self.wf(),
        ensures
            !(id < self.spec_store().len() && self.spec_store()[id as int] is Some) ==> (r matches
                Err(e) && e == VMError::TaskNotFound(id)),
            id < self.spec_store().len() && self.spec_store()[id as int] is Some ==> (
            match spec_resolve_vm(
                self.spec_store()[id as int].unwrap(),
                self.spec_spool(),
                self.spec_ipool(),
            ) {
                Ok(m) => r matches Ok(t) && t.deep_view() == m,
                Err(e) => r matches Err(e2) && e2 == e,
            }),
    {
        self.storage.resolve_task(id, &self.pool, &self.instructions_pool)
    }

    /// The canonical text of the program in the executing frame.
    pub fn disassemble_bytecode(&self) -> (r: VMResult<String>)
        requires
            self.wf(),
        ensures
            ({
                let fr = self.spec_frames().last();
                if fr.instructions_ref >= self.spec_ipool().len() {
                    r matches Err(e) && e == VMError::InvalidInstructionsIndex(
                        fr.instructions_ref as usize,
                    )
                } else {
                    match spec_disassemble(
                        self.spec_spool(),
                        self.spec_ipool(),
                        self.spec_ipool()[fr.instructions_ref as int],
                        self.spec_ipool().len() as int,
                    ) {
                        Ok(t) => r matches Ok(s) && s@ == t,
                        Err(e) => r matches Err(e2) && e2 == e,
                    }
                }
            }),
    {
        let frame = match self.call_stack.last() {
            Ok(f) => f,
            Err(e) => {
                return Err(e);
            },
        };
        let bytecode = self.instructions_pool.get(frame.instructions_ref as usize)?;
        disassemble(bytecode, &self.pool, &self.instructions_pool)
    }

    /// The bytes the last `S_SAVE` produced, if any; the buffer is handed
    /// out and cleared.
    pub fn take_saved(&mut self) -> (r: Option<Vec<u8>>)
        requires
            old(self).wf(),
        ensures
            final(self).wf(),
            final(self).spec_saved() is None,
            match old(self).spec_saved() {
                None => r is None,
                Some(b) => r matches Some(v) && v@ == b,
            },
            final(self).spec_stack() == old(self).spec_stack(),
            final(self).spec_control() == old(self).spec_control(),
            final(self).spec_frames() == old(self).spec_frames(),
            final(self).spec_store() == old(self).spec_store(),
            final(self).spec_next_id() == old(self).spec_next_id(),
            final(self).spec_spool() == old(self).spec_spool(),
            final(self).spec_ipool() == old(self).spec_ipool(),
    {
        self.saved.take()
    }
}

/// The stack with its top `k` entries popped.
pub open spec fn popn(s: Seq<u64>, k: int) -> Seq<u64> {
    s.subrange(0, s.len() - k)
}

/// Everything but the operand stack is unchanged between `a` and `b`.
pub open spec fn same_core(a: VM, b: VM) -> bool {
    &&& a.spec_control() == b.spec_control()
    &&& a.spec_frames() == b.spec_frames()
    &&& a.spec_store() == b.spec_store()
    &&& a.spec_next_id() == b.spec_next_id()
    &&& a.spec_saved() == b.spec_saved()
}

/// Nothing at all is changed between `a` and `b`.
pub open spec fn same_all(a: VM, b: VM) -> bool {
    same_core(a, b) && a.spec_stack() == b.spec_stack()
}

impl VM {
    /// Dispatch the single opcode at `code[pc]`, performing its effect on
    /// the machine. The result names the next program counter, or the
    /// program to switch to after `CALL`/`END_CALL`.
    fn step(&mut self, code: &Vec<u8>, pc: usize) -> (r: VMResult<StepOut>)
        requires
            old(self).wf(),
            pc < code@.len(),
        ensures
            final(self).wf(),
            final(self).spec_spool() == old(self).spec_spool(),
            final(self).spec_ipool() == old(self).spec_ipool(),
            step_post(*old(self), *final(self), code@, pc as int, r),
    {
        let n_code = code.len();
        assert(pc < n_code);
        let ghost s0 = old(self).spec_stack();
        let pc1 = pc + 1;
        let op = code[pc];
        if op == PUSH_U32 || op == PUSH_STRING || op == PUSH_CALLDATA {
            let val = prepare_u32_from_be_checked(code.as_slice(), pc1)?;
            let tagged = if op == PUSH_U32 {
                to_u32_val(val)
            } else if op == PUSH_STRING {
                to_string_val(val)
            } else {
                to_calldata_val(val)
            };
            push_stack(&mut self.stack, tagged)?;
            Ok(StepOut::Next(pc1 + 4))
        } else if op == PUSH_STATUS || op == PUSH_TASK_FIELD {
            let b = prepare_u8(code.as_slice(), pc1)?;
            push_stack(&mut self.stack, to_u32_val(b as u32))?;
            Ok(StepOut::Next(pc1 + 1))
        } else if op == T_CREATE {
            let instructions_ref = to_u32(pop_stack(&mut self.stack)?);
            assert(self.stack@ =~= popn(s0, 1));
            let raw_status = to_u32(pop_stack(&mut self.stack)?);
            assert(self.stack@ =~= popn(s0, 2));
            let status = TaskStatus::try_from(raw_status)?;
            let title = to_u32(pop_stack(&mut self.stack)?);
            assert(self.stack@ =~= popn(s0, 3));
            if self.storage.next() == u32::MAX {
                // the id space is exhausted; the store cannot take another task
                return Err(VMError::StorageWriteError);
            }
            let id = self.storage.next();
            let task = TaskVM { id, title, status, instructions_ref };
            self.storage.add(task);
            Ok(StepOut::Next(pc1))
        } else if op == T_GET_FIELD {
            let field_byte = to_u32(pop_stack(&mut self.stack)?);
            assert(self.stack@ =~= popn(s0, 1));
            let field = TaskField::try_from(field_byte)?;
            let id = to_u32(pop_stack(&mut self.stack)?);
            assert(self.stack@ =~= popn(s0, 2));
            let task = self.storage.get(id)?;
            let v = match field {
                TaskField::Title => to_string_val(task.title),
                TaskField::Status => to_u32_val(task.status.code()),
                TaskField::Instructions => to_calldata_val(task.instructions_ref),
            };
            push_stack(&mut self.stack, v)?;
            Ok(StepOut::Next(pc1))
        } else if op == T_SET_FIELD {
            let field_byte = to_u32(pop_stack(&mut self.stack)?);
            assert(self.stack@ =~= popn(s0, 1));
            let field = TaskField::try_from(field_byte)?;
            let id = to_u32(pop_stack(&mut self.stack)?);
            assert(self.stack@ =~= popn(s0, 2));
            let mut task = self.storage.get(id)?;
            proof {
                self.storage.lemma_wf();
            }
            let v = to_u32(pop_stack(&mut self.stack)?);
            assert(self.stack@ =~= popn(s0, 3));
            match field {
                TaskField::Title => {
                    task.title = v;
                },
                TaskField::Status => {
                    task.status = TaskStatus::try_from(v)?;
                },
                TaskField::Instructions => {
                    task.instructions_ref = v;
                },
            }
            let set_r = self.storage.set_task(id, task);
            assert(set_r is Ok);
            Ok(StepOut::Next(pc1))
        } else if op == T_DELETE {
            let id = to_u32(pop_stack(&mut self.stack)?);
            assert(self.stack@ =~= popn(s0, 1));
            self.storage.delete(id)?;
            Ok(StepOut::Next(pc1))
        } else if op == S_SAVE {
            let bytes = self.storage.save(&self.pool, &self.instructions_pool)?;
            self.saved = Some(bytes);
            Ok(StepOut::Next(pc1))
        } else if op == S_LEN {
            proof {
                crate::store::lemma_live_count_le_len(self.storage@);
                self.storage.lemma_wf();
            }
            let n = self.storage.len();
            push_stack(&mut self.stack, to_u32_val(n as u32))?;
            Ok(StepOut::Next(pc1))
        } else if op == S_LOAD {
            // retained as a no-op for bytecode compatibility
            Ok(StepOut::Next(pc1))
        } else if op == DO {
            let index = to_u32(pop_stack(&mut self.stack)?);
            assert(self.stack@ =~= popn(s0, 1));
            let limit = to_u32(pop_stack(&mut self.stack)?);
            assert(self.stack@ =~= popn(s0, 2));
            self.control_stack.push((pc1 as u64, index as u64, limit as u64))?;
            Ok(StepOut::Next(pc1))
        } else if op == LOOP {
            let entry = self.control_stack.pop()?;
            let addr = entry.0;
            let index = entry.1;
            let limit = entry.2;
            if index + 1 < limit {
                let push_r = self.control_stack.push((addr, index + 1, limit));
                assert(push_r is Ok);
                Ok(StepOut::Next(addr as usize))
            } else {
                Ok(StepOut::Next(pc1))
            }
        } else if op == LOOP_INDEX {
            let entry = self.control_stack.last()?;
            push_stack(&mut self.stack, to_u32_val(#[verifier::truncate] (entry.1 as u32)))?;
            Ok(StepOut::Next(pc1))
        } else if op == JUMP_IF_FALSE {
            let cond = pop_stack(&mut self.stack)?;
            assert(self.stack@ =~= popn(s0, 1));
            if cond == FALSE_VAL {
                let val = prepare_u32_from_be_checked(code.as_slice(), pc1)?;
                Ok(StepOut::Next(val as usize))
            } else {
                if code.len() >= 4 && pc1 <= code.len() - 4 {
                    Ok(StepOut::Next(pc1 + 4))
                } else {
                    Ok(StepOut::Next(code.len()))
                }
            }
        } else if op == DUP {
            let v = match self.stack.last() {
                Some(v) => *v,
                None => {
                    return Err(VMError::StackUnderflow);
                },
            };
            push_stack(&mut self.stack, v)?;
            Ok(StepOut::Next(pc1))
        } else if op == SWAP {
            let b = pop_stack(&mut self.stack)?;
            assert(self.stack@ =~= popn(s0, 1));
            let a = pop_stack(&mut self.stack)?;
            assert(self.stack@ =~= popn(s0, 2));
            let r1 = push_stack(&mut self.stack, b);
            assert(r1 is Ok);
            let r2 = push_stack(&mut self.stack, a);
            assert(r2 is Ok);
            Ok(StepOut::Next(pc1))
        } else if op == EQ {
            let right = pop_stack(&mut self.stack)?;
            assert(self.stack@ =~= popn(s0, 1));
            let left = pop_stack(&mut self.stack)?;
            assert(self.stack@ =~= popn(s0, 2));
            let v = value_eq(left, right)?;
            let r1 = push_stack(&mut self.stack, v);
            assert(r1 is Ok);
            Ok(StepOut::Next(pc1))
        } else if op == NEQ {
            let right = pop_stack(&mut self.stack)?;
            assert(self.stack@ =~= popn(s0, 1));
            let left = pop_stack(&mut self.stack)?;
            assert(self.stack@ =~= popn(s0, 2));
            let v = value_neq(left, right)?;
            let r1 = push_stack(&mut self.stack, v);
            assert(r1 is Ok);
            Ok(StepOut::Next(pc1))
        } else if op == LT || op == GT {
            let right = pop_stack(&mut self.stack)?;
            assert(self.stack@ =~= popn(s0, 1));
            let left = pop_stack(&mut self.stack)?;
            assert(self.stack@ =~= popn(s0, 2));
            let v = value_cmp(left, right, op == LT)?;
            let r1 = push_stack(&mut self.stack, v);
            assert(r1 is Ok);
            Ok(StepOut::Next(pc1))
        } else if op == DROP_IF {
            let condition = pop_stack(&mut self.stack)?;
            assert(self.stack@ =~= popn(s0, 1));
            if condition == TRUE_VAL {
                pop_stack(&mut self.stack)?;
                assert(self.stack@ =~= popn(s0, 2));
            }
            Ok(StepOut::Next(pc1))
        } else if op == CALL {
            let id = to_u32(pop_stack(&mut self.stack)?);
            assert(self.stack@ =~= popn(s0, 1));
            let task = self.storage.get(id)?;
            let top = match self.call_stack.last() {
                Ok(f) => f,
                Err(e) => {
                    return Err(e);
                },
            };
            let set_r = self.call_stack.set_last(
                InstructionsFrame { instructions_ref: top.instructions_ref, pc: pc1 },
            );
            assert(set_r is Ok);
            let blob = self.instructions_pool.get(task.instructions_ref as usize)?;
            if blob.len() > 0 {
                let frame = InstructionsFrame { instructions_ref: task.instructions_ref, pc: 0 };
                self.call_stack.push(frame)?;
                Ok(StepOut::Switch(task.instructions_ref, 0))
            } else {
                Ok(StepOut::Next(pc1))
            }
        } else if op == END_CALL {
            if self.call_stack.len() > 1 {
                let pop_r = self.call_stack.pop();
                assert(pop_r is Ok);
                let frame = match self.call_stack.last() {
                    Ok(f) => f,
                    Err(e) => {
                        return Err(e);
                    },
                };
                Ok(StepOut::Switch(frame.instructions_ref, frame.pc))
            } else {
                Ok(StepOut::Next(pc1))
            }
        } else {
            // unknown opcode bytes are silently ignored
            Ok(StepOut::Next(pc1))
        }
    }
}

/// The effect of dispatching the opcode at `code[pc]`: for each opcode, on
/// which machine states it fails with which error, and exactly how the
/// stacks, the store and the save buffer move when it succeeds.
pub open spec fn step_post(
    pre: VM,
    post: VM,
    code: Seq<u8>,
    pc: int,
    r: VMResult<StepOut>,
) -> bool {
    let op = code[pc];
    let pc1 = pc + 1;
    let s0 = pre.spec_stack();
    let c0 = pre.spec_control();
    let f0 = pre.spec_frames();
    let st0 = pre.spec_store();
    let n = s0.len() as int;
    if op == PUSH_U32 || op == PUSH_STRING || op == PUSH_CALLDATA {
        let tag = if op == PUSH_U32 {
            TAG_U32
        } else if op == PUSH_STRING {
            TAG_STRING
        } else {
            TAG_CALLDATA
        };
        if pc1 + 4 > code.len() {
            r matches Err(e) && e == VMError::UnexpectedEOB && same_all(pre, post)
        } else if n >= MAX_STACK_SIZE {
            r matches Err(e) && e == VMError::StackOverflow && same_all(pre, post)
        } else {
            r matches Ok(o) && o matches StepOut::Next(p) && p == pc1 + 4 && same_core(pre, post)
                && post.spec_stack() == s0.push(spec_tagged(tag, spec_be32(code, pc1)))
        }
    } else if op == PUSH_STATUS || op == PUSH_TASK_FIELD {
        if pc1 + 1 > code.len() {
            r matches Err(e) && e == VMError::UnexpectedEOB && same_all(pre, post)
        } else if n >= MAX_STACK_SIZE {
            r matches Err(e) && e == VMError::StackOverflow && same_all(pre, post)
        } else {
            r matches Ok(o) && o matches StepOut::Next(p) && p == pc1 + 1 && same_core(pre, post)
                && post.spec_stack() == s0.push(spec_tagged(TAG_U32, code[pc1] as u32))
        }
    } else if op == T_CREATE {
        if n == 0 {
            r matches Err(e) && e == VMError::StackUnderflow && same_all(pre, post)
        } else if n == 1 {
            r matches Err(e) && e == VMError::StackUnderflow && same_core(pre, post)
                && post.spec_stack() == popn(s0, 1)
        } else if spec_status_from(spec_payload(s0[n - 2])) is Err {
            r matches Err(e) && Err::<TaskStatus, VMError>(e) == spec_status_from(
                spec_payload(s0[n - 2]),
            ) && same_core(pre, post) && post.spec_stack() == popn(s0, 2)
        } else if n == 2 {
            r matches Err(e) && e == VMError::StackUnderflow && same_core(pre, post)
                && post.spec_stack() == popn(s0, 2)
        } else if pre.spec_next_id() == u32::MAX {
            r matches Err(e) && e == VMError::StorageWriteError && same_core(pre, post)
                && post.spec_stack() == popn(s0, 3)
        } else {
            let tv = TaskVM {
                id: pre.spec_next_id(),
                title: spec_payload(s0[n - 3]),
                status: spec_status_from(spec_payload(s0[n - 2]))->Ok_0,
                instructions_ref: spec_payload(s0[n - 1]),
            };
            r matches Ok(o) && o matches StepOut::Next(p) && p == pc1 && post.spec_stack() == popn(
                s0,
                3,
            ) && post.spec_control() == c0 && post.spec_frames() == f0 && post.spec_saved()
                == pre.spec_saved() && post.spec_next_id() == pre.spec_next_id() + 1
                && post.spec_store().len() == pre.spec_next_id() + 1 && (forall|i: int|
                0 <= i < st0.len() ==> post.spec_store()[i] == st0[i]) && (forall|i: int|
                st0.len() <= i < pre.spec_next_id() ==> post.spec_store()[i] is None)
                && post.spec_store()[pre.spec_next_id() as int] == Some(tv)
        }
    } else if op == T_GET_FIELD {
        if n == 0 {
            r matches Err(e) && e == VMError::StackUnderflow && same_all(pre, post)
        } else if spec_field_from(spec_payload(s0[n - 1])) is Err {
            r matches Err(e) && Err::<TaskField, VMError>(e) == spec_field_from(
                spec_payload(s0[n - 1]),
            ) && same_core(pre, post) && post.spec_stack() == popn(s0, 1)
        } else if n == 1 {
            r matches Err(e) && e == VMError::StackUnderflow && same_core(pre, post)
                && post.spec_stack() == popn(s0, 1)
        } else {
            let field = spec_field_from(spec_payload(s0[n - 1]))->Ok_0;
            let id = spec_payload(s0[n - 2]);
            if !(id < st0.len() && st0[id as int] is Some) {
                r matches Err(e) && e == VMError::TaskNotFound(id) && same_core(pre, post)
                    && post.spec_stack() == popn(s0, 2)
            } else {
                let t = st0[id as int]->Some_0;
                let v = match field {
                    TaskField::Title => spec_tagged(TAG_STRING, t.title),
                    TaskField::Status => spec_tagged(TAG_U32, spec_status_code(t.status)),
                    TaskField::Instructions => spec_tagged(TAG_CALLDATA, t.instructions_ref),
                };
                r matches Ok(o) && o matches StepOut::Next(p) && p == pc1 && same_core(pre, post)
                    && post.spec_stack() == popn(s0, 2).push(v)
            }
        }
    } else if op == T_SET_FIELD {
        if n == 0 {
            r matches Err(e) && e == VMError::StackUnderflow && same_all(pre, post)
        } else if spec_field_from(spec_payload(s0[n - 1])) is Err {
            r matches Err(e) && Err::<TaskField, VMError>(e) == spec_field_from(
                spec_payload(s0[n - 1]),
            ) && same_core(pre, post) && post.spec_stack() == popn(s0, 1)
        } else if n == 1 {
            r matches Err(e) && e == VMError::StackUnderflow && same_core(pre, post)
                && post.spec_stack() == popn(s0, 1)
        } else {
            let field = spec_field_from(spec_payload(s0[n - 1]))->Ok_0;
            let id = spec_payload(s0[n - 2]);
            if !(id < st0.len() && st0[id as int] is Some) {
                r matches Err(e) && e == VMError::TaskNotFound(id) && same_core(pre, post)
                    && post.spec_stack() == popn(s0, 2)
            } else if n == 2 {
                r matches Err(e) && e == VMError::StackUnderflow && same_core(pre, post)
                    && post.spec_stack() == popn(s0, 2)
            } else {
                let t = st0[id as int]->Some_0;
                let v = spec_payload(s0[n - 3]);
                if field is Status && spec_status_from(v) is Err {
                    r matches Err(e) && Err::<TaskStatus, VMError>(e) == spec_status_from(v)
                        && same_core(pre, post) && post.spec_stack() == popn(s0, 3)
                } else {
                    let t2 = match field {
                        TaskField::Title => TaskVM { title: v, ..t },
                        TaskField::Status => TaskVM { status: spec_status_from(v)->Ok_0, ..t },
                        TaskField::Instructions => TaskVM { instructions_ref: v, ..t },
                    };
                    r matches Ok(o) && o matches StepOut::Next(p) && p == pc1 && post.spec_stack()
                        == popn(s0, 3) && post.spec_control() == c0 && post.spec_frames() == f0
                        && post.spec_saved() == pre.spec_saved() && post.spec_next_id()
                        == pre.spec_next_id() && post.spec_store() == st0.update(
                        id as int,
                        Some(t2),
                    )
                }
            }
        }
    } else if op == T_DELETE {
        if n == 0 {
            r matches Err(e) && e == VMError::StackUnderflow && same_all(pre, post)
        } else {
            let id = spec_payload(s0[n - 1]);
            if !(id < st0.len() && st0[id as int] is Some) {
                r matches Err(e) && e == VMError::TaskNotFound(id) && same_core(pre, post)
                    && post.spec_stack() == popn(s0, 1)
            } else {
                r matches Ok(o) && o matches StepOut::Next(p) && p == pc1 && post.spec_stack()
                    == popn(s0, 1) && post.spec_control() == c0 && post.spec_frames() == f0
                    && post.spec_saved() == pre.spec_saved() && post.spec_next_id()
                    == pre.spec_next_id() && post.spec_store() == st0.update(
                    id as int,
                    None::<TaskVM>,
                )
            }
        }
    } else if op == S_SAVE {
        match spec_collect(st0, 0, pre.spec_spool(), pre.spec_ipool()) {
            Err(e) => r matches Err(e2) && e2 == e && same_all(pre, post),
            Ok(ms) => {
                let m = crate::codec::StorageModel { tasks: ms, next_id: pre.spec_next_id() };
                if crate::codec::storage_encodable(m) {
                    r matches Ok(o) && o matches StepOut::Next(p) && p == pc1 && post.spec_stack()
                        == s0 && post.spec_control() == c0 && post.spec_frames() == f0
                        && post.spec_store() == st0 && post.spec_next_id() == pre.spec_next_id()
                        && post.spec_saved() == Some(crate::codec::enc_storage(m))
                } else {
                    r matches Err(e) && e == VMError::StorageSizeTooBig && same_all(pre, post)
                }
            },
        }
    } else if op == S_LEN {
        if n >= MAX_STACK_SIZE {
            r matches Err(e) && e == VMError::StackOverflow && same_all(pre, post)
        } else {
            r matches Ok(o) && o matches StepOut::Next(p) && p == pc1 && same_core(pre, post)
                && post.spec_stack() == s0.push(
                spec_tagged(TAG_U32, live_count(st0) as u32),
            )
        }
    } else if op == S_LOAD {
        r matches Ok(o) && o matches StepOut::Next(p) && p == pc1 && same_all(pre, post)
    } else if op == DO {
        if n == 0 {
            r matches Err(e) && e == VMError::StackUnderflow && same_all(pre, post)
        } else if n == 1 {
            r matches Err(e) && e == VMError::StackUnderflow && same_core(pre, post)
                && post.spec_stack() == popn(s0, 1)
        } else if c0.len() >= 2 {
            r matches Err(e) && e == VMError::StackOverflow && post.spec_stack() == popn(s0, 2)
                && post.spec_control() == c0 && post.spec_frames() == f0 && post.spec_store()
                == st0 && post.spec_next_id() == pre.spec_next_id() && post.spec_saved()
                == pre.spec_saved()
        } else {
            r matches Ok(o) && o matches StepOut::Next(p) && p == pc1 && post.spec_stack() == popn(
                s0,
                2,
            ) && post.spec_control() == c0.push(
                (
                    pc1 as u64,
                    spec_payload(s0[n - 1]) as u64,
                    spec_payload(s0[n - 2]) as u64,
                ),
            ) && post.spec_frames() == f0 && post.spec_store() == st0 && post.spec_next_id()
                == pre.spec_next_id() && post.spec_saved() == pre.spec_saved()
        }
    } else if op == LOOP {
        if c0.len() == 0 {
            r matches Err(e) && e == VMError::StackUnderflow && same_all(pre, post)
        } else {
            let entry = c0.last();
            if entry.1 + 1 < entry.2 {
                r matches Ok(o) && o matches StepOut::Next(p) && p == entry.0 && post.spec_stack()
                    == s0 && post.spec_control() == c0.drop_last().push(
                    (entry.0, (entry.1 + 1) as u64, entry.2),
                ) && post.spec_frames() == f0 && post.spec_store() == st0 && post.spec_next_id()
                    == pre.spec_next_id() && post.spec_saved() == pre.spec_saved()
            } else {
                r matches Ok(o) && o matches StepOut::Next(p) && p == pc1 && post.spec_stack()
                    == s0 && post.spec_control() == c0.drop_last() && post.spec_frames() == f0
                    && post.spec_store() == st0 && post.spec_next_id() == pre.spec_next_id()
                    && post.spec_saved() == pre.spec_saved()
            }
        }
    } else if op == LOOP_INDEX {
        if c0.len() == 0 {
            r matches Err(e) && e == VMError::StackUnderflow && same_all(pre, post)
        } else if n >= MAX_STACK_SIZE {
            r matches Err(e) && e == VMError::StackOverflow && same_all(pre, post)
        } else {
            r matches Ok(o) && o matches StepOut::Next(p) && p == pc1 && same_core(pre, post)
                && post.spec_stack() == s0.push(spec_tagged(TAG_U32, c0.last().1 as u32))
        }
    } else if op == JUMP_IF_FALSE {
        if n == 0 {
            r matches Err(e) && e == VMError::StackUnderflow && same_all(pre, post)
        } else if s0[n - 1] == FALSE_VAL {
            if pc1 + 4 > code.len() {
                r matches Err(e) && e == VMError::UnexpectedEOB && same_core(pre, post)
                    && post.spec_stack() == popn(s0, 1)
            } else {
                r matches Ok(o) && o matches StepOut::Next(p) && p == spec_be32(code, pc1)
                    && same_core(pre, post) && post.spec_stack() == popn(s0, 1)
            }
        } else {
            r matches Ok(o) && o matches StepOut::Next(p) && p == (if pc1 + 4 <= code.len() {
                pc1 + 4
            } else {
                code.len() as int
            }) && same_core(pre, post) && post.spec_stack() == popn(s0, 1)
        }
    } else if op == DUP {
        if n == 0 {
            r matches Err(e) && e == VMError::StackUnderflow && same_all(pre, post)
        } else if n >= MAX_STACK_SIZE {
            r matches Err(e) && e == VMError::StackOverflow && same_all(pre, post)
        } else {
            r matches Ok(o) && o matches StepOut::Next(p) && p == pc1 && same_core(pre, post)
                && post.spec_stack() == s0.push(s0.last())
        }
    } else if op == SWAP {
        if n == 0 {
            r matches Err(e) && e == VMError::StackUnderflow && same_all(pre, post)
        } else if n == 1 {
            r matches Err(e) && e == VMError::StackUnderflow && same_core(pre, post)
                && post.spec_stack() == popn(s0, 1)
        } else {
            r matches Ok(o) && o matches StepOut::Next(p) && p == pc1 && same_core(pre, post)
                && post.spec_stack() == popn(s0, 2).push(s0[n - 1]).push(s0[n - 2])
        }
    } else if op == EQ || op == NEQ || op == LT || op == GT {
        if n == 0 {
            r matches Err(e) && e == VMError::StackUnderflow && same_all(pre, post)
        } else if n == 1 {
            r matches Err(e) && e == VMError::StackUnderflow && same_core(pre, post)
                && post.spec_stack() == popn(s0, 1)
        } else {
            let res = if op == EQ {
                spec_value_eq(s0[n - 2], s0[n - 1])
            } else if op == NEQ {
                spec_value_neq(s0[n - 2], s0[n - 1])
            } else {
                spec_value_cmp(s0[n - 2], s0[n - 1], op == LT)
            };
            match res {
                Err(e) => r matches Err(e2) && e2 == e && same_core(pre, post) && post.spec_stack()
                    == popn(s0, 2),
                Ok(v) => r matches Ok(o) && o matches StepOut::Next(p) && p == pc1 && same_core(
                    pre,
                    post,
                ) && post.spec_stack() == popn(s0, 2).push(v),
            }
        }
    } else if op == DROP_IF {
        if n == 0 {
            r matches Err(e) && e == VMError::StackUnderflow && same_all(pre, post)
        } else if s0[n - 1] == TRUE_VAL {
            if n == 1 {
                r matches Err(e) && e == VMError::StackUnderflow && same_core(pre, post)
                    && post.spec_stack() == popn(s0, 1)
            } else {
                r matches Ok(o) && o matches StepOut::Next(p) && p == pc1 && same_core(pre, post)
                    && post.spec_stack() == popn(s0, 2)
            }
        } else {
            r matches Ok(o) && o matches StepOut::Next(p) && p == pc1 && same_core(pre, post)
                && post.spec_stack() == popn(s0, 1)
        }
    } else if op == CALL {
        if n == 0 {
            r matches Err(e) && e == VMError::StackUnderflow && same_all(pre, post)
        } else {
            let id = spec_payload(s0[n - 1]);
            if !(id < st0.len() && st0[id as int] is Some) {
                r matches Err(e) && e == VMError::TaskNotFound(id) && same_core(pre, post)
                    && post.spec_stack() == popn(s0, 1)
            } else {
                let t = st0[id as int]->Some_0;
                let f1 = f0.update(
                    f0.len() - 1,
                    InstructionsFrame {
                        instructions_ref: f0.last().instructions_ref,
                        pc: pc1 as usize,
                    },
                );
                if t.instructions_ref >= pre.spec_ipool().len() {
                    r matches Err(e) && e == VMError::InvalidInstructionsIndex(
                        t.instructions_ref as usize,
                    ) && post.spec_stack() == popn(s0, 1) && post.spec_control() == c0
                        && post.spec_frames() == f1 && post.spec_store() == st0
                        && post.spec_next_id() == pre.spec_next_id() && post.spec_saved()
                        == pre.spec_saved()
                } else if pre.spec_ipool()[t.instructions_ref as int].len() == 0 {
                    r matches Ok(o) && o matches StepOut::Next(p) && p == pc1 && post.spec_stack()
                        == popn(s0, 1) && post.spec_control() == c0 && post.spec_frames() == f1
                        && post.spec_store() == st0 && post.spec_next_id() == pre.spec_next_id()
                        && post.spec_saved() == pre.spec_saved()
                } else if f1.len() >= 2 {
                    // a third nesting level would overflow the bounded call stack
                    r matches Err(e) && e == VMError::StackOverflow && post.spec_stack() == popn(
                        s0,
                        1,
                    ) && post.spec_control() == c0 && post.spec_frames() == f1
                        && post.spec_store() == st0 && post.spec_next_id() == pre.spec_next_id()
                        && post.spec_saved() == pre.spec_saved()
                } else {
                    let f2 = f1.push(
                        InstructionsFrame { instructions_ref: t.instructions_ref, pc: 0 },
                    );
                    r matches Ok(o) && o matches StepOut::Switch(cr, p) && cr
                        == t.instructions_ref && p == 0 && post.spec_stack() == popn(s0, 1)
                        && post.spec_control() == c0 && post.spec_frames() == f2
                        && post.spec_store() == st0 && post.spec_next_id() == pre.spec_next_id()
                        && post.spec_saved() == pre.spec_saved()
                }
            }
        }
    } else if op == END_CALL {
        if f0.len() > 1 {
            let top = f0[f0.len() - 2];
            r matches Ok(o) && o matches StepOut::Switch(cr, p) && cr == top.instructions_ref && p
                == top.pc && post.spec_stack() == s0 && post.spec_control() == c0
                && post.spec_frames() == f0.drop_last() && post.spec_store() == st0
                && post.spec_next_id() == pre.spec_next_id() && post.spec_saved()
                == pre.spec_saved()
        } else {
            r matches Ok(o) && o matches StepOut::Next(p) && p == pc1 && same_all(pre, post)
        }
    } else {
        r matches Ok(o) && o matches StepOut::Next(p) && p == pc1 && same_all(pre, post)
    }
}

/// The abstract state of the machine: every component the opcodes read or
/// write, as mathematical values.
#[verifier::ext_equal]
pub struct VMState {
    pub stack: Seq<u64>,
    pub control: Seq<(u64, u64, u64)>,
    pub frames: Seq<InstructionsFrame>,
    pub store: Seq<Option<TaskVM>>,
    pub next_id: u32,
    pub saved: Option<Seq<u8>>,
    pub spool: Seq<Seq<char>>,
    pub ipool: Seq<Seq<u8>>,
}

/// The abstract state of a machine value.
pub open spec fn vm_abs(vm: VM) -> VMState {
    VMState {
        stack: vm.spec_stack(),
        control: vm.spec_control(),
        frames: vm.spec_frames(),
        store: vm.spec_store(),
        next_id: vm.spec_next_id(),
        saved: vm.spec_saved(),
        spool: vm.spec_spool(),
        ipool: vm.spec_ipool(),
    }
}

/// The store after `T_CREATE` places `tv`: grown to slot `next_id` with
/// empty slots in between.
pub open spec fn store_after_add(
    st0: Seq<Option<TaskVM>>,
    next_id: u32,
    tv: TaskVM,
) -> Seq<Option<TaskVM>> {
    if st0.len() <= next_id {
        st0 + Seq::new((next_id - st0.len()) as nat, |x: int| None::<TaskVM>) + seq![Some(tv)]
    } else {
        st0
    }
}

/// The deterministic form of [`step_post`]: the machine state and the
/// outcome after dispatching the opcode at `code[pc]`. [`spec_run`] folds
/// this one function over a whole execution.
pub open spec fn spec_step(m: VMState, code: Seq<u8>, pc: int) -> (VMState, Result<
    StepOut,
    VMError,
>) {
    let op = code[pc];
    let pc1 = pc + 1;
    let s0 = m.stack;
    let c0 = m.control;
    let f0 = m.frames;
    let st0 = m.store;
    let n = s0.len() as int;
    if op == PUSH_U32 || op == PUSH_STRING || op == PUSH_CALLDATA {
        let tag = if op == PUSH_U32 {
            TAG_U32
        } else if op == PUSH_STRING {
            TAG_STRING
        } else {
            TAG_CALLDATA
        };
        if pc1 + 4 > code.len() {
            (m, Err(VMError::UnexpectedEOB))
        } else if n >= MAX_STACK_SIZE {
            (m, Err(VMError::StackOverflow))
        } else {
            (
                VMState { stack: s0.push(spec_tagged(tag, spec_be32(code, pc1))), ..m },
                Ok(StepOut::Next((pc1 + 4) as usize)),
            )
        }
    } else if op == PUSH_STATUS || op == PUSH_TASK_FIELD {
        if pc1 + 1 > code.len() {
            (m, Err(VMError::UnexpectedEOB))
        } else if n >= MAX_STACK_SIZE {
            (m, Err(VMError::StackOverflow))
        } else {
            (
                VMState { stack: s0.push(spec_tagged(TAG_U32, code[pc1] as u32)), ..m },
                Ok(StepOut::Next((pc1 + 1) as usize)),
            )
        }
    } else if op == T_CREATE {
        if n == 0 {
            (m, Err(VMError::StackUnderflow))
        } else if n == 1 {
            (VMState { stack: popn(s0, 1), ..m }, Err(VMError::StackUnderflow))
        } else if spec_status_from(spec_payload(s0[n - 2])) is Err {
            (
                VMState { stack: popn(s0, 2), ..m },
                Err(spec_status_from(spec_payload(s0[n - 2]))->Err_0),
            )
        } else if n == 2 {
            (VMState { stack: popn(s0, 2), ..m }, Err(VMError::StackUnderflow))
        } else if m.next_id == u32::MAX {
            (VMState { stack: popn(s0, 3), ..m }, Err(VMError::StorageWriteError))
        } else {
            let tv = TaskVM {
                id: m.next_id,
                title: spec_payload(s0[n - 3]),
                status: spec_status_from(spec_payload(s0[n - 2]))->Ok_0,
                instructions_ref: spec_payload(s0[n - 1]),
            };
            (
                VMState {
                    stack: popn(s0, 3),
                    store: store_after_add(st0, m.next_id, tv),
                    next_id: (m.next_id + 1) as u32,
                    ..m
                },
                Ok(StepOut::Next(pc1 as usize)),
            )
        }
    } else if op == T_GET_FIELD {
        if n == 0 {
            (m, Err(VMError::StackUnderflow))
        } else if spec_field_from(spec_payload(s0[n - 1])) is Err {
            (
                VMState { stack: popn(s0, 1), ..m },
                Err(spec_field_from(spec_payload(s0[n - 1]))->Err_0),
            )
        } else if n == 1 {
            (VMState { stack: popn(s0, 1), ..m }, Err(VMError::StackUnderflow))
        } else {
            let field = spec_field_from(spec_payload(s0[n - 1]))->Ok_0;
            let id = spec_payload(s0[n - 2]);
            if !(id < st0.len() && st0[id as int] is Some) {
                (VMState { stack: popn(s0, 2), ..m }, Err(VMError::TaskNotFound(id)))
            } else {
                let t = st0[id as int]->Some_0;
                let v = match field {
                    TaskField::Title => spec_tagged(TAG_STRING, t.title),
                    TaskField::Status => spec_tagged(TAG_U32, spec_status_code(t.status)),
                    TaskField::Instructions => spec_tagged(TAG_CALLDATA, t.instructions_ref),
                };
                (
                    VMState { stack: popn(s0, 2).push(v), ..m },
                    Ok(StepOut::Next(pc1 as usize)),
                )
            }
        }
    } else if op == T_SET_FIELD {
        if n == 0 {
            (m, Err(VMError::StackUnderflow))
        } else if spec_field_from(spec_payload(s0[n - 1])) is Err {
            (
                VMState { stack: popn(s0, 1), ..m },
                Err(spec_field_from(spec_payload(s0[n - 1]))->Err_0),
            )
        } else if n == 1 {
            (VMState { stack: popn(s0, 1), ..m }, Err(VMError::StackUnderflow))
        } else {
            let field = spec_field_from(spec_payload(s0[n - 1]))->Ok_0;
            let id = spec_payload(s0[n - 2]);
            if !(id < st0.len() && st0[id as int] is Some) {
                (VMState { stack: popn(s0, 2), ..m }, Err(VMError::TaskNotFound(id)))
            } else if n == 2 {
                (VMState { stack: popn(s0, 2), ..m }, Err(VMError::StackUnderflow))
            } else {
                let t = st0[id as int]->Some_0;
                let v = spec_payload(s0[n - 3]);
                if field is Status && spec_status_from(v) is Err {
                    (VMState { stack: popn(s0, 3), ..m }, Err(spec_status_from(v)->Err_0))
                } else {
                    let t2 = match field {
                        TaskField::Title => TaskVM { title: v, ..t },
                        TaskField::Status => TaskVM { status: spec_status_from(v)->Ok_0, ..t },
                        TaskField::Instructions => TaskVM { instructions_ref: v, ..t },
                    };
                    (
                        VMState {
                            stack: popn(s0, 3),
                            store: st0.update(id as int, Some(t2)),
                            ..m
                        },
                        Ok(StepOut::Next(pc1 as usize)),
                    )
                }
            }
        }
    } else if op == T_DELETE {
        if n == 0 {
            (m, Err(VMError::StackUnderflow))
        } else {
            let id = spec_payload(s0[n - 1]);
            if !(id < st0.len() && st0[id as int] is Some) {
                (VMState { stack: popn(s0, 1), ..m }, Err(VMError::TaskNotFound(id)))
            } else {
                (
                    VMState {
                        stack: popn(s0, 1),
                        store: st0.update(id as int, None::<TaskVM>),
                        ..m
                    },
                    Ok(StepOut::Next(pc1 as usize)),
                )
            }
        }
    } else if op == S_SAVE {
        match spec_collect(st0, 0, m.spool, m.ipool) {
            Err(e) => (m, Err(e)),
            Ok(ms) => {
                let img = crate::codec::StorageModel { tasks: ms, next_id: m.next_id };
                if crate::codec::storage_encodable(img) {
                    (
                        VMState { saved: Some(crate::codec::enc_storage(img)), ..m },
                        Ok(StepOut::Next(pc1 as usize)),
                    )
                } else {
                    (m, Err(VMError::StorageSizeTooBig))
                }
            },
        }
    } else if op == S_LEN {
        if n >= MAX_STACK_SIZE {
            (m, Err(VMError::StackOverflow))
        } else {
            (
                VMState {
                    stack: s0.push(spec_tagged(TAG_U32, live_count(st0) as u32)),
                    ..m
                },
                Ok(StepOut::Next(pc1 as usize)),
            )
        }
    } else if op == S_LOAD {
        (m, Ok(StepOut::Next(pc1 as usize)))
    } else if op == DO {
        if n == 0 {
            (m, Err(VMError::StackUnderflow))
        } else if n == 1 {
            (VMState { stack: popn(s0, 1), ..m }, Err(VMError::StackUnderflow))
        } else if c0.len() >= 2 {
            (VMState { stack: popn(s0, 2), ..m }, Err(VMError::StackOverflow))
        } else {
            (
                VMState {
                    stack: popn(s0, 2),
                    control: c0.push(
                        (
                            pc1 as u64,
                            spec_payload(s0[n - 1]) as u64,
                            spec_payload(s0[n - 2]) as u64,
                        ),
                    ),
                    ..m
                },
                Ok(StepOut::Next(pc1 as usize)),
            )
        }
    } else if op == LOOP {
        if c0.len() == 0 {
            (m, Err(VMError::StackUnderflow))
        } else {
            let entry = c0.last();
            if entry.1 + 1 < entry.2 {
                (
                    VMState {
                        control: c0.drop_last().push((entry.0, (entry.1 + 1) as u64, entry.2)),
                        ..m
                    },
                    Ok(StepOut::Next(entry.0 as usize)),
                )
            } else {
                (
                    VMState { control: c0.drop_last(), ..m },
                    Ok(StepOut::Next(pc1 as usize)),
                )
            }
        }
    } else if op == LOOP_INDEX {
        if c0.len() == 0 {
            (m, Err(VMError::StackUnderflow))
        } else if n >= MAX_STACK_SIZE {
            (m, Err(VMError::StackOverflow))
        } else {
            (
                VMState { stack: s0.push(spec_tagged(TAG_U32, c0.last().1 as u32)), ..m },
                Ok(StepOut::Next(pc1 as usize)),
            )
        }
    } else if op == JUMP_IF_FALSE {
        if n == 0 {
            (m, Err(VMError::StackUnderflow))
        } else if s0[n - 1] == FALSE_VAL {
            if pc1 + 4 > code.len() {
                (VMState { stack: popn(s0, 1), ..m }, Err(VMError::UnexpectedEOB))
            } else {
                (
                    VMState { stack: popn(s0, 1), ..m },
                    Ok(StepOut::Next(spec_be32(code, pc1) as usize)),
                )
            }
        } else {
            let p = if pc1 + 4 <= code.len() {
                pc1 + 4
            } else {
                code.len() as int
            };
            (VMState { stack: popn(s0, 1), ..m }, Ok(StepOut::Next(p as usize)))
        }
    } else if op == DUP {
        if n == 0 {
            (m, Err(VMError::StackUnderflow))
        } else if n >= MAX_STACK_SIZE {
            (m, Err(VMError::StackOverflow))
        } else {
            (
                VMState { stack: s0.push(s0.last()), ..m },
                Ok(StepOut::Next(pc1 as usize)),
            )
        }
    } else if op == SWAP {
        if n == 0 {
            (m, Err(VMError::StackUnderflow))
        } else if n == 1 {
            (VMState { stack: popn(s0, 1), ..m }, Err(VMError::StackUnderflow))
        } else {
            (
                VMState { stack: popn(s0, 2).push(s0[n - 1]).push(s0[n - 2]), ..m },
                Ok(StepOut::Next(pc1 as usize)),
            )
        }
    } else if op == EQ || op == NEQ || op == LT || op == GT {
        if n == 0 {
            (m, Err(VMError::StackUnderflow))
        } else if n == 1 {
            (VMState { stack: popn(s0, 1), ..m }, Err(VMError::StackUnderflow))
        } else {
            let res = if op == EQ {
                spec_value_eq(s0[n - 2], s0[n - 1])
            } else if op == NEQ {
                spec_value_neq(s0[n - 2], s0[n - 1])
            } else {
                spec_value_cmp(s0[n - 2], s0[n - 1], op == LT)
            };
            match res {
                Err(e) => (VMState { stack: popn(s0, 2), ..m }, Err(e)),
                Ok(v) => (
                    VMState { stack: popn(s0, 2).push(v), ..m },
                    Ok(StepOut::Next(pc1 as usize)),
                ),
            }
        }
    } else if op == DROP_IF {
        if n == 0 {
            (m, Err(VMError::StackUnderflow))
        } else if s0[n - 1] == TRUE_VAL {
            if n == 1 {
                (VMState { stack: popn(s0, 1), ..m }, Err(VMError::StackUnderflow))
            } else {
                (VMState { stack: popn(s0, 2), ..m }, Ok(StepOut::Next(pc1 as usize)))
            }
        } else {
            (VMState { stack: popn(s0, 1), ..m }, Ok(StepOut::Next(pc1 as usize)))
        }
    } else if op == CALL {
        if n == 0 {
            (m, Err(VMError::StackUnderflow))
        } else {
            let id = spec_payload(s0[n - 1]);
            if !(id < st0.len() && st0[id as int] is Some) {
                (VMState { stack: popn(s0, 1), ..m }, Err(VMError::TaskNotFound(id)))
            } else {
                let t = st0[id as int]->Some_0;
                let f1 = f0.update(
                    f0.len() - 1,
                    InstructionsFrame {
                        instructions_ref: f0.last().instructions_ref,
                        pc: pc1 as usize,
                    },
                );
                if t.instructions_ref >= m.ipool.len() {
                    (
                        VMState { stack: popn(s0, 1), frames: f1, ..m },
                        Err(VMError::InvalidInstructionsIndex(t.instructions_ref as usize)),
                    )
                } else if m.ipool[t.instructions_ref as int].len() == 0 {
                    (
                        VMState { stack: popn(s0, 1), frames: f1, ..m },
                        Ok(StepOut::Next(pc1 as usize)),
                    )
                } else if f1.len() >= 2 {
                    (
                        VMState { stack: popn(s0, 1), frames: f1, ..m },
                        Err(VMError::StackOverflow),
                    )
                } else {
                    (
                        VMState {
                            stack: popn(s0, 1),
                            frames: f1.push(
                                InstructionsFrame { instructions_ref: t.instructions_ref, pc: 0 },
                            ),
                            ..m
                        },
                        Ok(StepOut::Switch(t.instructions_ref, 0)),
                    )
                }
            }
        }
    } else if op == END_CALL {
        if f0.len() > 1 {
            let top = f0[f0.len() - 2];
            (
                VMState { frames: f0.drop_last(), ..m },
                Ok(StepOut::Switch(top.instructions_ref, top.pc)),
            )
        } else {
            (m, Ok(StepOut::Next(pc1 as usize)))
        }
    } else {
        (m, Ok(StepOut::Next(pc1 as usize)))
    }
}

/// [`step_post`] is the graph of [`spec_step`]: a dispatch that satisfies
/// the relation lands exactly on the function's state and outcome.
proof fn lemma_step_functional(pre: VM, post: VM, code: Seq<u8>, pc: int, r: VMResult<StepOut>)
    requires
        0 <= pc < code.len(),
        pre.wf(),
        step_post(pre, post, code, pc, r),
        post.spec_spool() == pre.spec_spool(),
        post.spec_ipool() == pre.spec_ipool(),
    ensures
        vm_abs(post) =~= spec_step(vm_abs(pre), code, pc).0,
        r == spec_step(vm_abs(pre), code, pc).1,
{
    let m = vm_abs(pre);
    let op = code[pc];
    let s0 = pre.spec_stack();
    let n = s0.len() as int;
    let st0 = pre.spec_store();
    if op == T_CREATE && n >= 3 && spec_status_from(spec_payload(s0[n - 2])) is Ok
        && pre.spec_next_id() != u32::MAX {
        pre.storage.lemma_wf();
        assert(st0.len() <= pre.spec_next_id());
        let tv = TaskVM {
            id: pre.spec_next_id(),
            title: spec_payload(s0[n - 3]),
            status: spec_status_from(spec_payload(s0[n - 2]))->Ok_0,
            instructions_ref: spec_payload(s0[n - 1]),
        };
        assert(post.spec_store() =~= store_after_add(st0, pre.spec_next_id(), tv));
    }
}

/// The machine after executing `code` from `pc` until the counter passes
/// the end, and what that run returns: at the halt the operand stack moves
/// out and is left empty; a failing opcode stops the run with its error,
/// leaving the machine as that opcode left it. `fuel` bounds the number of
/// dispatched opcodes; it runs out only into `StackOverflow`.
pub open spec fn spec_run(m: VMState, code: Seq<u8>, pc: int, fuel: nat) -> (VMState, Result<
    Seq<u64>,
    VMError,
>)
    decreases fuel,
{
    if pc < 0 || pc >= code.len() {
        (VMState { stack: Seq::empty(), ..m }, Ok(m.stack))
    } else if fuel == 0 {
        (m, Err(VMError::StackOverflow))
    } else {
        let (m2, out) = spec_step(m, code, pc);
        match out {
            Err(e) => (m2, Err(e)),
            Ok(StepOut::Next(p)) => spec_run(m2, code, p as int, (fuel - 1) as nat),
            Ok(StepOut::Switch(cref, p)) => {
                if cref < m2.ipool.len() {
                    spec_run(m2, m2.ipool[cref as int], p as int, (fuel - 1) as nat)
                } else {
                    (m2, Err(VMError::InvalidInstructionsIndex(cref as usize)))
                }
            },
        }
    }
}

/// A run that returns a stack halted normally and left the machine's
/// operand stack empty.
pub proof fn lemma_spec_run_ok_empties(m: VMState, code: Seq<u8>, pc: int, fuel: nat)
    ensures
        spec_run(m, code, pc, fuel).1 is Ok ==> spec_run(m, code, pc, fuel).0.stack
            == Seq::<u64>::empty(),
    decreases fuel,
{
    if !(pc < 0 || pc >= code.len()) && fuel > 0 {
        let (m2, out) = spec_step(m, code, pc);
        match out {
            Err(_) => {},
            Ok(StepOut::Next(p)) => {
                lemma_spec_run_ok_empties(m2, code, p as int, (fuel - 1) as nat);
            },
            Ok(StepOut::Switch(cref, p)) => {
                if cref < m2.ipool.len() {
                    lemma_spec_run_ok_empties(
                        m2,
                        m2.ipool[cref as int],
                        p as int,
                        (fuel - 1) as nat,
                    );
                }
            },
        }
    }
}

/// The step budget of `run`: no execution can dispatch this many opcodes
/// in practice.
pub open spec fn run_fuel() -> nat {
    u64::MAX as nat
}

/// What `run` does to a machine: execute the program of the top call frame
/// from its saved counter.
pub open spec fn spec_run_vm(m: VMState) -> (VMState, Result<Seq<u64>, VMError>) {
    let fr = m.frames.last();
    if fr.instructions_ref >= m.ipool.len() {
        (m, Err(VMError::InvalidInstructionsIndex(fr.instructions_ref as usize)))
    } else {
        spec_run(m, m.ipool[fr.instructions_ref as int], fr.pc as int, run_fuel())
    }
}

/// The mathematical form of an unboxed stack value.
pub enum ReturnModel {
    U32(u32),
    Str(Seq<char>),
    CallData(Seq<char>),
    Bool(bool),
    MemSlice(u32, u32),
}

/// What unboxing one tagged value against the pools yields: the payload for
/// `U32` and booleans, the pooled string for a `STRING_REF`, the
/// disassembled source for a `CALLDATA_REF`, the unpacked fields for a
/// memory slice.
pub open spec fn spec_unbox_one(
    v: u64,
    spool: Seq<Seq<char>>,
    ipool: Seq<Seq<u8>>,
) -> Result<ReturnModel, VMError> {
    match spec_value_type(v) {
        Err(e) => Err(e),
        Ok(t) => match t {
            crate::values::ValueType::U32 => Ok(ReturnModel::U32(spec_payload(v))),
            crate::values::ValueType::Bool => Ok(ReturnModel::Bool(v == TRUE_VAL)),
            crate::values::ValueType::MemSlice => Ok(
                {
                    let f = crate::values::spec_mem_slice_fields(v);
                    ReturnModel::MemSlice(f.0, f.1)
                },
            ),
            crate::values::ValueType::String => {
                if spec_payload(v) < spool.len() {
                    Ok(ReturnModel::Str(spool[spec_payload(v) as int]))
                } else {
                    Err(VMError::InvalidStringIndex(spec_payload(v) as usize))
                }
            },
            crate::values::ValueType::CallData => {
                if spec_payload(v) < ipool.len() {
                    match spec_disassemble(
                        spool,
                        ipool,
                        ipool[spec_payload(v) as int],
                        ipool.len() as int,
                    ) {
                        Ok(t2) => Ok(ReturnModel::CallData(t2)),
                        Err(e) => Err(e),
                    }
                } else {
                    Err(VMError::InvalidInstructionsIndex(spec_payload(v) as usize))
                }
            },
        },
    }
}

/// Unboxing a whole stack, front to back, stopping at the first error.
pub open spec fn spec_unbox(
    vals: Seq<u64>,
    i: int,
    spool: Seq<Seq<char>>,
    ipool: Seq<Seq<u8>>,
) -> Result<Seq<ReturnModel>, VMError>
    decreases vals.len() - i,
{
    if i < 0 || i >= vals.len() {
        Ok(Seq::empty())
    } else {
        match spec_unbox_one(vals[i], spool, ipool) {
            Err(e) => Err(e),
            Ok(m) => match spec_unbox(vals, i + 1, spool, ipool) {
                Err(e) => Err(e),
                Ok(ms) => Ok(seq![m] + ms),
            },
        }
    }
}

/// Whether the returned view `r` is the model `m`.
pub open spec fn ret_matches(r: Return, m: ReturnModel) -> bool {
    match m {
        ReturnModel::U32(x) => r matches Return::U32(y) && y == x,
        ReturnModel::Str(t) => r matches Return::String(s) && s@ == t,
        ReturnModel::CallData(t) => r matches Return::CallData(s) && s@ == t,
        ReturnModel::Bool(b) => r matches Return::Bool(c) && c == b,
        ReturnModel::MemSlice(o, sz) => r matches Return::MemSlice(o2, s2) && o2 == o && s2 == sz,
    }
}

impl VM {
    /// Resolve one tagged value against the pools.
    fn unbox_one<'a>(&'a self, v: u64) -> (r: VMResult<Return<'a>>)
        requires
            self.wf(),
        ensures
            match spec_unbox_one(v, self.spec_spool(), self.spec_ipool()) {
                Err(e) => r matches Err(e2) && e2 == e,
                Ok(m) => r matches Ok(x) && ret_matches(x, m),
            },
    {
        let vt = crate::values::get_value_type(v)?;
        match vt {
            crate::values::ValueType::U32 => Ok(Return::U32(to_u32(v))),
            crate::values::ValueType::Bool => Ok(Return::Bool(v == TRUE_VAL)),
            crate::values::ValueType::MemSlice => {
                let f = crate::values::to_mem_slice(v)?;
                Ok(Return::MemSlice(f.0, f.1))
            },
            crate::values::ValueType::String => {
                let s = self.pool.resolve(to_u32(v) as usize)?;
                Ok(Return::String(s))
            },
            crate::values::ValueType::CallData => {
                let bytecode = self.instructions_pool.get(to_u32(v) as usize)?;
                let text = disassemble(bytecode, &self.pool, &self.instructions_pool)?;
                Ok(Return::CallData(text))
            },
        }
    }

    /// Resolve each tagged value of a result stack against the pools into
    /// its typed view.
    pub fn unbox<'a>(&'a self, stack: Vec<u64>) -> (r: VMResult<Vec<Return<'a>>>)
        requires
            self.wf(),
        ensures
            match spec_unbox(stack@, 0, self.spec_spool(), self.spec_ipool()) {
                Err(e) => r matches Err(e2) && e2 == e,
                Ok(ms) => r matches Ok(v) && v@.len() == ms.len() && (forall|i: int|
                    0 <= i < ms.len() ==> ret_matches(#[trigger] v@[i], ms[i])),
            },
    {
        let ghost spool = self.spec_spool();
        let ghost ipool = self.spec_ipool();
        let n = stack.len();
        let mut out: Vec<Return<'a>> = Vec::new();
        let mut i: usize = 0;
        while i < n
            invariant
                self.wf(),
                n == stack@.len(),
                i <= n,
                spool == self.spec_spool(),
                ipool == self.spec_ipool(),
                out@.len() == i,
                forall|j: int| 0 <= j < i ==> spec_unbox_one(#[trigger] stack@[j], spool, ipool) is Ok,
                forall|j: int|
                    0 <= j < i ==> ret_matches(
                        #[trigger] out@[j],
                        spec_unbox_one(stack@[j], spool, ipool)->Ok_0,
                    ),
            decreases n - i,
        {
            let v = stack[i];
            match self.unbox_one(v) {
                Err(e) => {
                    proof {
                        lemma_unbox_err(stack@, 0, i as int, spool, ipool);
                    }
                    return Err(e);
                },
                Ok(item) => {
                    out.push(item);
                },
            }
            i += 1;
        }
        proof {
            lemma_unbox_all(stack@, 0, spool, ipool);
        }
        Ok(out)
    }
}

/// When a value errors and everything before it unboxes, the whole run
/// reports that error.
proof fn lemma_unbox_err(vals: Seq<u64>, k: int, i: int, spool: Seq<Seq<char>>, ipool: Seq<Seq<u8>>)
    requires
        0 <= k <= i < vals.len(),
        forall|j: int| k <= j < i ==> spec_unbox_one(#[trigger] vals[j], spool, ipool) is Ok,
        spec_unbox_one(vals[i], spool, ipool) is Err,
    ensures
        spec_unbox(vals, k, spool, ipool) == Err::<Seq<ReturnModel>, VMError>(
            spec_unbox_one(vals[i], spool, ipool)->Err_0,
        ),
    decreases i - k,
{
    if k < i {
        lemma_unbox_err(vals, k + 1, i, spool, ipool);
    }
}

/// When every value of `vals[i ..]` unboxes, the whole run unboxes to the
/// element-wise models.
proof fn lemma_unbox_all(vals: Seq<u64>, i: int, spool: Seq<Seq<char>>, ipool: Seq<Seq<u8>>)
    requires
        0 <= i <= vals.len(),
        forall|j: int| i <= j < vals.len() ==> spec_unbox_one(#[trigger] vals[j], spool, ipool) is Ok,
    ensures
        spec_unbox(vals, i, spool, ipool) matches Ok(ms) && ms.len() == vals.len() - i && (forall|
            j: int,
        |
            i <= j < vals.len() ==> ms[j - i] == spec_unbox_one(#[trigger] vals[j], spool, ipool)->Ok_0),
    decreases vals.len() - i,
{
    if i < vals.len() {
        lemma_unbox_all(vals, i + 1, spool, ipool);
    }
}

impl VM {
    /// Execute from the current top call frame until its program counter
    /// moves past the last byte of its program. The machine and the result
    /// are exactly what [`spec_run_vm`] computes: [`spec_step`] folded over
    /// the execution, with the operand stack moved out (and left empty) at
    /// the halt, and the first failing opcode's error surfaced.
    ///
    /// The step budget of 2^64 - 1 lets the loop provably make progress; no
    /// execution can exhaust it in practice (a program would have to run
    /// for centuries), and one that somehow did would fail with
    /// `StackOverflow`, as [`spec_run`] says.
    pub fn run(&mut self) -> (r: VMResult<Vec<u64>>)
        requires
            old(self).wf(),
        ensures
            final(self).wf(),
            final(self).spec_spool() == old(self).spec_spool(),
            final(self).spec_ipool() == old(self).spec_ipool(),
            r matches Ok(s) ==> s@.len() <= MAX_STACK_SIZE && final(self).spec_stack()
                == Seq::<u64>::empty(),
            ({
                let (post, res) = spec_run_vm(vm_abs(*old(self)));
                vm_abs(*final(self)) == post && match res {
                    Ok(t) => r matches Ok(s) && s@ == t,
                    Err(e) => r matches Err(e2) && e2 == e,
                }
            }),
    {
        let ghost m0 = vm_abs(*old(self));
        let frame = match self.call_stack.last() {
            Ok(f) => f,
            Err(e) => {
                proof {
                    assert(false);  // wf: the call stack is never empty
                }
                return Err(e);
            },
        };
        assert(frame == m0.frames.last());
        let blob = match self.instructions_pool.get(frame.instructions_ref as usize) {
            Ok(b) => b,
            Err(e) => {
                assert(vm_abs(*self) =~= m0);
                return Err(e);
            },
        };
        let mut pc = frame.pc;
        let mut code: Vec<u8> = vstd::slice::slice_to_vec(blob);
        let mut fuel: u64 = u64::MAX;
        assert(spec_run_vm(m0) == spec_run(vm_abs(*self), code@, pc as int, fuel as nat));
        while pc < code.len() && fuel > 0
            invariant
                self.wf(),
                self.spec_spool() == old(self).spec_spool(),
                self.spec_ipool() == old(self).spec_ipool(),
                m0 == vm_abs(*old(self)),
                spec_run_vm(m0) == spec_run(vm_abs(*self), code@, pc as int, fuel as nat),
            decreases fuel,
        {
            let ghost pre_vm = *self;
            let ghost fuel0 = fuel as nat;
            fuel = fuel - 1;
            let out = self.step(&code, pc);
            proof {
                lemma_step_functional(pre_vm, *self, code@, pc as int, out);
                assert(spec_run(vm_abs(pre_vm), code@, pc as int, fuel0) == (match spec_step(
                    vm_abs(pre_vm),
                    code@,
                    pc as int,
                ).1 {
                    Err(e) => (vm_abs(*self), Err::<Seq<u64>, VMError>(e)),
                    Ok(StepOut::Next(p)) => spec_run(
                        vm_abs(*self),
                        code@,
                        p as int,
                        fuel as nat,
                    ),
                    Ok(StepOut::Switch(cref, p)) => {
                        if cref < self.spec_ipool().len() {
                            spec_run(
                                vm_abs(*self),
                                self.spec_ipool()[cref as int],
                                p as int,
                                fuel as nat,
                            )
                        } else {
                            (
                                vm_abs(*self),
                                Err::<Seq<u64>, VMError>(
                                    VMError::InvalidInstructionsIndex(cref as usize),
                                ),
                            )
                        }
                    },
                }));
            }
            match out {
                Err(e) => {
                    return Err(e);
                },
                Ok(StepOut::Next(p)) => {
                    pc = p;
                },
                Ok(StepOut::Switch(cref, p)) => {
                    let blob2 = match self.instructions_pool.get(cref as usize) {
                        Ok(b) => b,
                        Err(e) => {
                            return Err(e);
                        },
                    };
                    code = vstd::slice::slice_to_vec(blob2);
                    pc = p;
                },
            }
        }
        if pc < code.len() {
            // fuel ran out: spec_run reports the same exhaustion
            return Err(VMError::StackOverflow);
        }
        let ghost m_end = vm_abs(*self);
        let result = self.stack.split_off(0);
        assert(self.spec_stack() =~= Seq::<u64>::empty());
        assert(vm_abs(*self) =~= (VMState { stack: Seq::empty(), ..m_end }));
        assert(result@.len() <= MAX_STACK_SIZE);
        Ok(result)
    }
}

} // verus!
