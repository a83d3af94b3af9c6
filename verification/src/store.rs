//! The sparse task store: optional task records indexed by id, with a
//! strictly monotonic `next_id` that never reuses a slot, and the encoding
//! of the live tasks into the persistence format.

use vstd::prelude::*;

use crate::assembler::{asm_err_matches, AsmErr};
use crate::codec::{
    dec_storage, enc_storage, storage_encodable, Decode, Encode, StorageModel, TaskModel,
};
use crate::errors::{VMError, VMResult};
use crate::pools::{spec_intern, InstructionsPool, StringPool};
use crate::task_types::{spec_resolve_vm, StorageData, Task, TaskVM};

verus! {

/// Pools may grow during a load up to this many entries before the load is
/// refused; it keeps every pool index far below the 32-bit operand space.
pub const POOL_CAP: usize = 0x4000_0000;

/// The number of live (non-empty) slots.
pub open spec fn live_count(tasks: Seq<Option<TaskVM>>) -> nat
    decreases tasks.len(),
{
    if tasks.len() == 0 {
        0
    } else {
        live_count(tasks.drop_last()) + (if tasks.last() is Some {
            1nat
        } else {
            0nat
        })
    }
}

proof fn lemma_live_count_push(tasks: Seq<Option<TaskVM>>, t: Option<TaskVM>)
    ensures
        live_count(tasks.push(t)) == live_count(tasks) + (if t is Some {
            1nat
        } else {
            0nat
        }),
{
    assert(tasks.push(t).drop_last() =~= tasks);
    assert(tasks.push(t).last() == t);
}

proof fn lemma_live_count_update(tasks: Seq<Option<TaskVM>>, i: int, t: Option<TaskVM>)
    requires
        0 <= i < tasks.len(),
    ensures
        live_count(tasks.update(i, t)) == live_count(tasks) + (if t is Some {
            1nat
        } else {
            0nat
        }) - (if tasks[i] is Some {
            1nat
        } else {
            0nat
        }),
    decreases tasks.len(),
{
    let n = tasks.len() as int;
    if i == n - 1 {
        assert(tasks.update(i, t).drop_last() =~= tasks.drop_last());
        assert(tasks.update(i, t).last() == t);
    } else {
        lemma_live_count_update(tasks.drop_last(), i, t);
        assert(tasks.update(i, t).drop_last() =~= tasks.drop_last().update(i, t));
        assert(tasks.update(i, t).last() == tasks.last());
    }
}

/// Every live slot holds the task whose id names that slot, and no slot
/// sits at or past `next_id`.
pub open spec fn store_slots_wf(tasks: Seq<Option<TaskVM>>, next_id: u32) -> bool {
    &&& tasks.len() <= next_id
    &&& forall|i: int|
        0 <= i < tasks.len() ==> ((#[trigger] tasks[i]) matches Some(t) ==> t.id == i)
}

/// A sparse vector of optional task records. Deleted slots stay as
/// tombstones; ids are never reused.
#[derive(Debug)]
pub struct Storage {
    tasks_vm: Vec<Option<TaskVM>>,
    /// The next id to assign; strictly monotonic over the store's life.
    pub next_id: u32,
    alive: usize,
}

impl View for Storage {
    type V = Seq<Option<TaskVM>>;

    closed spec fn view(&self) -> Seq<Option<TaskVM>> {
        self.tasks_vm@
    }
}

impl Storage {
    /// The next id to assign, as seen by specifications.
    pub closed spec fn spec_next(&self) -> u32 {
        self.next_id
    }

    /// The next id to assign.
    pub fn next(&self) -> (r: u32)
        ensures
            r == self.spec_next(),
    {
        self.next_id
    }

    pub closed spec fn wf(&self) -> bool {
        &&& store_slots_wf(self@, self.next_id)
        &&& self.alive == live_count(self@)
    }

    /// The well-formedness facts a caller may rely on.
    pub proof fn lemma_wf(&self)
        requires
            self.wf(),
        ensures
            store_slots_wf(self@, self.spec_next()),
    {
    }

    /// An empty store.
    pub fn new() -> (r: Storage)
        ensures
            r.wf(),
            r@ == Seq::<Option<TaskVM>>::empty(),
            r.spec_next() == 0,
    {
        let r = Storage { tasks_vm: Vec::new(), next_id: 0, alive: 0 };
        assert(r@ =~= Seq::<Option<TaskVM>>::empty());
        r
    }

    /// The number of live tasks.
    pub fn len(&self) -> (r: usize)
        requires
            self.wf(),
        ensures
            r == live_count(self@),
    {
        self.alive
    }

    /// Place `task` in the fresh slot `next_id` and advance `next_id`,
    /// overwriting the task's id with the assigned one.
    pub fn add(&mut self, task: TaskVM)
        requires
            old(self).wf(),
            old(self).spec_next() < u32::MAX,
        ensures
            final(self).wf(),
            final(self).spec_next() == old(self).spec_next() + 1,
            final(self)@.len() == old(self).spec_next() + 1,
            forall|i: int| 0 <= i < old(self)@.len() ==> final(self)@[i] == old(self)@[i],
            forall|i: int|
                old(self)@.len() <= i < old(self).spec_next() ==> final(self)@[i] is None,
            final(self)@[old(self).spec_next() as int] == Some(
                TaskVM { id: old(self).spec_next(), ..task },
            ),
            live_count(final(self)@) == live_count(old(self)@) + 1,
    {
        let id = self.next_id;
        let task = TaskVM { id, ..task };
        self.next_id = self.next_id + 1;
        while self.tasks_vm.len() < id as usize
            invariant
                old(self).wf(),
                old(self).spec_next() == id,
                task.id == id,
                old(self)@.len() <= self.tasks_vm@.len() <= id,
                forall|i: int| 0 <= i < old(self)@.len() ==> self.tasks_vm@[i] == old(self)@[i],
                forall|i: int|
                    old(self)@.len() <= i < self.tasks_vm@.len() ==> self.tasks_vm@[i] is None,
                live_count(self.tasks_vm@) == live_count(old(self)@),
                self.next_id == old(self).next_id + 1,
                self.alive == old(self).alive,
                id == old(self).next_id,
            decreases id - self.tasks_vm.len(),
        {
            proof {
                lemma_live_count_push(self.tasks_vm@, None);
            }
            self.tasks_vm.push(None);
        }
        proof {
            lemma_live_count_push(self.tasks_vm@, Some(task));
            lemma_live_count_le_len(self.tasks_vm@);
        }
        let n = self.tasks_vm.len();
        assert(self.alive <= n);
        self.tasks_vm.push(Some(task));
        self.alive = self.alive + 1;
        assert forall|i: int| 0 <= i < self@.len() implies ((#[trigger] self@[i]) matches Some(t)
            ==> t.id == i) by {
            if i < old(self)@.len() {
                assert(self@[i] == old(self)@[i]);
                assert((old(self)@[i] matches Some(t) ==> t.id == i));
            } else if i < id {
                assert(self@[i] is None);
            } else {
                assert(self@[i] == Some(task));
            }
        }
        assert(self.wf());
    }

    /// Tombstone slot `id`; `TaskNotFound` if it is empty or out of range.
    pub fn delete(&mut self, id: u32) -> (r: VMResult<()>)
        requires
            old(self).wf(),
        ensures
            final(self).wf(),
            final(self).spec_next() == old(self).spec_next(),
            id < old(self)@.len() && old(self)@[id as int] is Some ==> r == Ok::<(), VMError>(())
                && final(self)@ == old(self)@.update(id as int, None::<TaskVM>) && live_count(
                final(self)@,
            ) == live_count(old(self)@) - 1,
            !(id < old(self)@.len() && old(self)@[id as int] is Some) ==> r == Err::<(), VMError>(
                VMError::TaskNotFound(id),
            ) && final(self)@ == old(self)@,
    {
        let idx = id as usize;
        if idx < self.tasks_vm.len() {
            if self.tasks_vm[idx].is_some() {
                proof {
                    lemma_live_count_update(self.tasks_vm@, idx as int, None);
                    if live_count(self.tasks_vm@) == 0 {
                        lemma_live_count_lower(self.tasks_vm@, idx as int);
                    }
                }
                self.tasks_vm.set(idx, None);
                self.alive = self.alive - 1;
                return Ok(());
            }
        }
        Err(VMError::TaskNotFound(id))
    }

    /// The task at slot `id`; `TaskNotFound` if empty or out of range.
    pub fn get(&self, id: u32) -> (r: VMResult<TaskVM>)
        requires
            self.wf(),
        ensures
            id < self@.len() && self@[id as int] is Some ==> r == Ok::<TaskVM, VMError>(
                self@[id as int].unwrap(),
            ),
            !(id < self@.len() && self@[id as int] is Some) ==> r == Err::<TaskVM, VMError>(
                VMError::TaskNotFound(id),
            ),
    {
        let idx = id as usize;
        if idx < self.tasks_vm.len() {
            match &self.tasks_vm[idx] {
                Some(t) => {
                    return Ok(*t);
                },
                None => {
                    return Err(VMError::TaskNotFound(id));
                },
            }
        }
        Err(VMError::TaskNotFound(id))
    }

    /// Overwrite the live slot `id` with `t`; `TaskNotFound` if empty or
    /// out of range.
    pub fn set_task(&mut self, id: u32, t: TaskVM) -> (r: VMResult<()>)
        requires
            old(self).wf(),
            t.id == id,
        ensures
            final(self).wf(),
            final(self).spec_next() == old(self).spec_next(),
            id < old(self)@.len() && old(self)@[id as int] is Some ==> r == Ok::<(), VMError>(())
                && final(self)@ == old(self)@.update(id as int, Some(t)) && live_count(
                final(self)@,
            ) == live_count(old(self)@),
            !(id < old(self)@.len() && old(self)@[id as int] is Some) ==> r == Err::<(), VMError>(
                VMError::TaskNotFound(id),
            ) && final(self)@ == old(self)@,
    {
        let idx = id as usize;
        if idx < self.tasks_vm.len() {
            if self.tasks_vm[idx].is_some() {
                proof {
                    lemma_live_count_update(self.tasks_vm@, idx as int, Some(t));
                }
                self.tasks_vm.set(idx, Some(t));
                return Ok(());
            }
        }
        Err(VMError::TaskNotFound(id))
    }

    /// Materialize the logical task at slot `id`.
    pub fn resolve_task(
        &self,
        id: u32,
        string_pool: &StringPool,
        instructions_pool: &InstructionsPool,
    ) -> (r: VMResult<Task>)
        requires
            self.wf(),
        ensures
            !(id < self@.len() && self@[id as int] is Some) ==> (r matches Err(e) && e
                == VMError::TaskNotFound(id)),
            id < self@.len() && self@[id as int] is Some ==> (match spec_resolve_vm(
                self@[id as int].unwrap(),
                string_pool@,
                instructions_pool@,
            ) {
                Ok(m) => r matches Ok(t) && t.deep_view() == m,
                Err(e) => r matches Err(e2) && e2 == e,
            }),
    {
        let task_vm = self.get(id)?;
        task_vm.to_task(string_pool, instructions_pool)
    }
}

/// The live tasks of `tasks[i ..]` resolved against the pools, in slot
/// order, or the first resolution error.
pub open spec fn spec_collect(
    tasks: Seq<Option<TaskVM>>,
    i: int,
    spool: Seq<Seq<char>>,
    ipool: Seq<Seq<u8>>,
) -> Result<Seq<TaskModel>, VMError>
    decreases tasks.len() - i,
{
    if i < 0 || i >= tasks.len() {
        Ok(Seq::empty())
    } else {
        match tasks[i] {
            None => spec_collect(tasks, i + 1, spool, ipool),
            Some(t) => match spec_resolve_vm(t, spool, ipool) {
                Err(e) => Err(e),
                Ok(m) => match spec_collect(tasks, i + 1, spool, ipool) {
                    Err(e) => Err(e),
                    Ok(ms) => Ok(seq![m] + ms),
                },
            },
        }
    }
}

impl Storage {
    /// Serialize the live tasks, in slot order, and `next_id` into the
    /// persistence format: each task is materialized (title resolved,
    /// instructions disassembled) and the image is encoded.
    pub fn save(&self, string_pool: &StringPool, instructions_pool: &InstructionsPool) -> (r:
        VMResult<Vec<u8>>)
        requires
            self.wf(),
        ensures
            match spec_collect(self@, 0, string_pool@, instructions_pool@) {
                Err(e) => r matches Err(e2) && e2 == e,
                Ok(ms) => {
                    let m = StorageModel { tasks: ms, next_id: self.spec_next() };
                    if storage_encodable(m) {
                        r matches Ok(b) && b@ == enc_storage(m)
                    } else {
                        r matches Err(e2) && e2 == VMError::StorageSizeTooBig
                    }
                },
            },
    {
        let ghost spool = string_pool@;
        let ghost ipool = instructions_pool@;
        let n = self.tasks_vm.len();
        let mut tasks: Vec<Task> = Vec::new();
        let mut i: usize = 0;
        proof {
            match spec_collect(self@, 0, spool, ipool) {
                Err(_) => {},
                Ok(ms) => {
                    assert(Seq::<TaskModel>::empty() + ms =~= ms);
                },
            }
        }
        while i < n
            invariant
                self.wf(),
                n == self@.len(),
                i <= n,
                spool == string_pool@,
                ipool == instructions_pool@,
                spec_collect(self@, 0, spool, ipool) == (match spec_collect(
                    self@,
                    i as int,
                    spool,
                    ipool,
                ) {
                    Err(e) => Err::<Seq<TaskModel>, VMError>(e),
                    Ok(ms) => Ok(tasks.deep_view() + ms),
                }),
            decreases n - i,
        {
            let ghost pre = tasks.deep_view();
            match &self.tasks_vm[i] {
                None => {},
                Some(t) => {
                    let task = t.to_task(string_pool, instructions_pool)?;
                    proof {
                        let m = spec_resolve_vm(self@[i as int].unwrap(), spool, ipool).unwrap();
                        match spec_collect(self@, i + 1, spool, ipool) {
                            Err(_) => {},
                            Ok(ms) => {
                                assert(pre + (seq![m] + ms) =~= pre.push(m) + ms);
                            },
                        }
                    }
                    tasks.push(task);
                    assert(tasks.deep_view() =~= pre.push(task.deep_view()));
                },
            }
            i += 1;
        }
        assert(spec_collect(self@, n as int, spool, ipool) == Ok::<Seq<TaskModel>, VMError>(
            Seq::empty(),
        ));
        assert(tasks.deep_view() + Seq::<TaskModel>::empty() =~= tasks.deep_view());
        let data = StorageData { tasks, next_id: self.next_id };
        let mut out: Vec<u8> = Vec::new();
        data.encode(&mut out)?;
        assert(out@ =~= Seq::<u8>::empty() + enc_storage(data.deep_view()));
        Ok(out)
    }
}

/// A load failure: a decoding error, a reassembly error, a task that does
/// not fit its slot, or pools grown past the load cap.
pub enum LoadErr {
    Dec(VMError),
    Asm(AsmErr),
    BadSlot,
    TooLarge,
}

pub open spec fn load_err_matches(e: VMError, le: LoadErr) -> bool {
    match le {
        LoadErr::Dec(v) => e == v,
        LoadErr::Asm(a) => asm_err_matches(e, a),
        LoadErr::BadSlot => e == VMError::StorageReadError,
        LoadErr::TooLarge => e == VMError::StorageReadError,
    }
}

/// Mid-load state: the slots filled so far and the pools.
pub struct LoadSt {
    pub slots: Seq<Option<TaskVM>>,
    pub spool: Seq<Seq<char>>,
    pub ipool: Seq<Seq<u8>>,
}

/// Rebuild the in-memory tasks from the decoded models `ms[k ..]`: intern
/// each title, reassemble each instructions text into a fresh blob, and
/// place the task at slot `id`. A task whose id is at or past `next_id`,
/// or whose slot is already filled, refuses the image.
pub open spec fn spec_load_tasks(
    ms: Seq<TaskModel>,
    k: int,
    next_id: u32,
    st: LoadSt,
) -> Result<LoadSt, LoadErr>
    decreases ms.len() - k,
{
    if k < 0 || k >= ms.len() {
        Ok(st)
    } else {
        let m = ms[k];
        if st.spool.len() >= POOL_CAP || st.ipool.len() >= POOL_CAP {
            Err(LoadErr::TooLarge)
        } else if m.instructions.len() > crate::assembler::MAX_SOURCE_LEN {
            Err(LoadErr::TooLarge)
        } else {
            let (sp1, tidx) = spec_intern(st.spool, m.title);
            match crate::assembler::spec_assemble(m.instructions, sp1, st.ipool) {
                Err(a) => Err(LoadErr::Asm(a)),
                Ok(ast) => {
                    let tv = TaskVM {
                        id: m.id,
                        title: tidx as u32,
                        status: m.status,
                        instructions_ref: ast.ipool.len() as u32,
                    };
                    let ip2 = ast.ipool.push(ast.code);
                    if m.id >= next_id {
                        Err(LoadErr::BadSlot)
                    } else if m.id < st.slots.len() && st.slots[m.id as int] is Some {
                        Err(LoadErr::BadSlot)
                    } else {
                        let padded = if st.slots.len() <= m.id {
                            st.slots + Seq::new(
                                (m.id + 1 - st.slots.len()) as nat,
                                |x: int| None::<TaskVM>,
                            )
                        } else {
                            st.slots
                        };
                        spec_load_tasks(
                            ms,
                            k + 1,
                            next_id,
                            LoadSt {
                                slots: padded.update(m.id as int, Some(tv)),
                                spool: ast.spool,
                                ipool: ip2,
                            },
                        )
                    }
                },
            }
        }
    }
}

/// What loading the persisted bytes `data` on top of the pools yields: the
/// rebuilt slots, the grown pools, and the preserved `next_id`.
pub open spec fn spec_load(
    data: Seq<u8>,
    spool: Seq<Seq<char>>,
    ipool: Seq<Seq<u8>>,
) -> Result<(LoadSt, u32), LoadErr> {
    match dec_storage(data, 0) {
        Err(e) => Err(LoadErr::Dec(e)),
        Ok((sm, _)) => match spec_load_tasks(
            sm.tasks,
            0,
            sm.next_id,
            LoadSt { slots: Seq::empty(), spool, ipool },
        ) {
            Err(le) => Err(le),
            Ok(st) => Ok((st, sm.next_id)),
        },
    }
}

impl Storage {
    /// Rebuild a store from its persisted bytes, reassembling every task's
    /// instructions into the pools. Trailing bytes after the image are
    /// ignored.
    pub fn load(data: &[u8], pool: &mut StringPool, op_pool: &mut InstructionsPool) -> (r:
        VMResult<Storage>)
        requires
            old(pool).wf(),
        ensures
            final(pool).wf(),
            match spec_load(data@, old(pool)@, old(op_pool)@) {
                Err(le) => r matches Err(e) && load_err_matches(e, le),
                Ok((st, nid)) => r matches Ok(s) && s.wf() && s@ == st.slots && s.spec_next()
                    == nid && final(pool)@ == st.spool && final(op_pool)@ == st.ipool,
            },
    {
        let decoded = StorageData::decode(data, 0);
        let (sdata, _) = match decoded {
            Err(e) => {
                return Err(e);
            },
            Ok(x) => x,
        };
        assert(dec_storage(data@, 0) matches Ok(vp) && vp.0 == sdata.deep_view());
        let ghost ms = sdata.tasks.deep_view();
        assert(sdata.deep_view().tasks == ms);
        let StorageData { tasks: mut tasks, next_id } = sdata;
        let mut slots: Vec<Option<TaskVM>> = Vec::new();
        let mut alive: usize = 0;
        let mut k: usize = 0;
        let n = tasks.len();
        proof {
            assert(slots@ =~= Seq::<Option<TaskVM>>::empty());
        }
        while k < n
            invariant
                k <= n,
                n == ms.len(),
                dec_storage(data@, 0) matches Ok(vp) && vp.0 == (StorageModel {
                    tasks: ms,
                    next_id,
                }),
                tasks.deep_view() =~= ms.skip(k as int),
                tasks@.len() == n - k,
                pool.wf(),
                alive == live_count(slots@),
                alive <= slots@.len(),
                slots@.len() <= next_id,
                forall|i: int|
                    0 <= i < slots@.len() ==> ((#[trigger] slots@[i]) matches Some(t) ==> t.id
                        == i),
                spec_load_tasks(
                    ms,
                    0,
                    next_id,
                    LoadSt { slots: Seq::empty(), spool: old(pool)@, ipool: old(op_pool)@ },
                ) == spec_load_tasks(
                    ms,
                    k as int,
                    next_id,
                    LoadSt { slots: slots@, spool: pool@, ipool: op_pool@ },
                ),
            decreases n - k,
        {
            let ghost m = ms[k as int];
            let ghost cur = LoadSt { slots: slots@, spool: pool@, ipool: op_pool@ };
            if pool.len() >= POOL_CAP || op_pool.len() >= POOL_CAP {
                assert(spec_load_tasks(ms, k as int, next_id, cur) == Err::<LoadSt, LoadErr>(
                    LoadErr::TooLarge,
                ));
                return Err(VMError::StorageReadError);
            }
            let ghost tasks_pre_dv = tasks.deep_view();
            let ghost tasks_pre = tasks@;
            let task = tasks.remove(0);
            assert(tasks_pre_dv[0] == ms[k as int]);
            assert(task.deep_view() == tasks_pre[0].deep_view());
            assert(task.deep_view() == m);
            assert forall|j: int| 0 <= j < tasks.deep_view().len() implies tasks.deep_view()[j]
                == ms.skip(k + 1 as int)[j] by {
                assert(tasks@[j] == tasks_pre[j + 1]);
                assert(tasks_pre[j + 1].deep_view() == tasks_pre_dv[j + 1]);
            }
            assert(tasks.deep_view() =~= ms.skip(k + 1 as int));
            if task.instructions.as_str().unicode_len() > crate::assembler::MAX_SOURCE_LEN {
                assert(m.instructions.len() > crate::assembler::MAX_SOURCE_LEN);
                assert(spec_load_tasks(ms, k as int, next_id, cur) == Err::<LoadSt, LoadErr>(
                    LoadErr::TooLarge,
                ));
                return Err(VMError::StorageReadError);
            }
            let id = task.id;
            assert(id == m.id);
            let ghost sp1 = spec_intern(cur.spool, m.title).0;
            let task_vm = match TaskVM::from_task(task, pool, op_pool) {
                Err(e) => {
                    proof {
                        let a = crate::assembler::spec_assemble(
                            m.instructions,
                            sp1,
                            cur.ipool,
                        )->Err_0;
                        assert(spec_load_tasks(ms, k as int, next_id, cur) == Err::<
                            LoadSt,
                            LoadErr,
                        >(LoadErr::Asm(a)));
                    }
                    return Err(e);
                },
                Ok(tv) => tv,
            };
            let ghost ast = crate::assembler::spec_assemble(m.instructions, sp1, cur.ipool)->Ok_0;
            assert(pool@ == ast.spool && op_pool@ == ast.ipool.push(ast.code));
            assert(task_vm == (TaskVM {
                id: m.id,
                title: spec_intern(cur.spool, m.title).1 as u32,
                status: m.status,
                instructions_ref: ast.ipool.len() as u32,
            }));
            if id >= next_id {
                assert(spec_load_tasks(ms, k as int, next_id, cur) == Err::<LoadSt, LoadErr>(
                    LoadErr::BadSlot,
                ));
                return Err(VMError::StorageReadError);
            }
            if (id as usize) < slots.len() {
                if slots[id as usize].is_some() {
                    assert(spec_load_tasks(ms, k as int, next_id, cur) == Err::<LoadSt, LoadErr>(
                        LoadErr::BadSlot,
                    ));
                    return Err(VMError::StorageReadError);
                }
            }
            let ghost padded_ghost = if slots@.len() <= id {
                slots@ + Seq::new((id + 1 - slots@.len()) as nat, |x: int| None::<TaskVM>)
            } else {
                slots@
            };
            let ghost before_pad = slots@;
            if slots.len() <= id as usize {
                while slots.len() <= id as usize
                    invariant
                        before_pad.len() <= slots@.len() <= id + 1,
                        id < next_id,
                        forall|i: int| 0 <= i < before_pad.len() ==> slots@[i] == before_pad[i],
                        forall|i: int| before_pad.len() <= i < slots@.len() ==> slots@[i] is None,
                        live_count(slots@) == live_count(before_pad),
                    decreases id + 1 - slots.len(),
                {
                    proof {
                        lemma_live_count_push(slots@, None);
                    }
                    slots.push(None);
                }
            }
            assert(slots@ =~= padded_ghost);
            proof {
                lemma_live_count_update(slots@, id as int, Some(task_vm));
                lemma_live_count_none(slots@, id as int);
            }
            slots.set(id as usize, Some(task_vm));
            assert(alive < slots@.len());
            alive += 1;
            proof {
                let next_st = LoadSt {
                    slots: padded_ghost.update(id as int, Some(task_vm)),
                    spool: ast.spool,
                    ipool: ast.ipool.push(ast.code),
                };
                assert(spec_load_tasks(ms, k as int, next_id, cur) == spec_load_tasks(
                    ms,
                    k + 1,
                    next_id,
                    next_st,
                ));
                assert(slots@ == next_st.slots);
            }
            k += 1;
        }
        assert(ms.skip(n as int) =~= Seq::<TaskModel>::empty());
        let s = Storage { tasks_vm: slots, next_id, alive };
        assert(s.wf());
        Ok(s)
    }
}

/// One store operation of the interpreter: `T_CREATE` or `T_DELETE`.
pub enum StoreOp {
    Create,
    Delete(u32),
}

/// How many `Create` operations precede position `i`.
pub open spec fn creates_before(ops: Seq<StoreOp>, i: int) -> int
    decreases i,
{
    if i <= 0 || i > ops.len() {
        0
    } else {
        creates_before(ops, i - 1) + (if ops[i - 1] is Create {
            1int
        } else {
            0int
        })
    }
}

/// The id `T_CREATE` assigns at position `i` of an operation sequence run
/// against a store whose `next_id` starts at `next0`: `add` hands out the
/// current `next_id` and advances it, and `delete` leaves it unchanged, so
/// the id is `next0` plus the number of earlier creates.
pub open spec fn assigned_id(next0: int, ops: Seq<StoreOp>, i: int) -> int {
    next0 + creates_before(ops, i)
}

proof fn lemma_creates_before_monotonic(ops: Seq<StoreOp>, i: int, j: int)
    requires
        0 <= i < j <= ops.len(),
        ops[i] is Create,
    ensures
        creates_before(ops, i) < creates_before(ops, j),
    decreases j - i,
{
    if j == i + 1 {
    } else {
        lemma_creates_before_monotonic(ops, i, j - 1);
    }
}

/// Task id monotonicity: across any sequence of `T_CREATE` and `T_DELETE`
/// operations, the ids that `T_CREATE` assigns form a strictly increasing
/// sequence starting at the store's initial `next_id`; a deleted id is
/// never handed out again.
pub proof fn lemma_task_ids_monotonic(next0: int, ops: Seq<StoreOp>, i: int, j: int)
    requires
        0 <= i < j < ops.len(),
        ops[i] is Create,
        ops[j] is Create,
    ensures
        assigned_id(next0, ops, i) < assigned_id(next0, ops, j),
        next0 <= assigned_id(next0, ops, i),
        (forall|k: int| 0 <= k < i ==> !(ops[k] is Create)) ==> assigned_id(next0, ops, i)
            == next0,
{
    lemma_creates_before_monotonic(ops, i, j);
    lemma_creates_before_nonneg(ops, i);
    if forall|k: int| 0 <= k < i ==> !(ops[k] is Create) {
        lemma_creates_before_zero(ops, i);
    }
}

proof fn lemma_creates_before_nonneg(ops: Seq<StoreOp>, i: int)
    ensures
        creates_before(ops, i) >= 0,
    decreases i,
{
    if 0 < i <= ops.len() {
        lemma_creates_before_nonneg(ops, i - 1);
    }
}

proof fn lemma_creates_before_zero(ops: Seq<StoreOp>, i: int)
    requires
        0 <= i <= ops.len(),
        forall|k: int| 0 <= k < i ==> !(ops[k] is Create),
    ensures
        creates_before(ops, i) == 0,
    decreases i,
{
    if i > 0 {
        lemma_creates_before_zero(ops, i - 1);
    }
}

/// Persistence idempotence, codec half: the bytes `save` writes for a
/// storage image decode back to exactly that image — the same
/// `(id, title, status, instructions)` tuples, in slot order, and the same
/// `next_id`.
pub proof fn lemma_save_load_roundtrip(bytes: Seq<u8>, m: StorageModel)
    requires
        storage_encodable(m),
        bytes == enc_storage(m),
    ensures
        dec_storage(bytes, 0) == Ok::<(StorageModel, int), VMError>((m, bytes.len() as int)),
{
    assert(bytes.subrange(0, bytes.len() as int) =~= bytes);
    crate::codec::lemma_dec_enc_storage(bytes, 0, m);
}

/// A sequence with an empty slot has fewer live slots than slots.
proof fn lemma_live_count_none(tasks: Seq<Option<TaskVM>>, i: int)
    requires
        0 <= i < tasks.len(),
        tasks[i] is None,
    ensures
        live_count(tasks) < tasks.len(),
    decreases tasks.len(),
{
    lemma_live_count_le_len(tasks.drop_last());
    if i < tasks.len() - 1 {
        lemma_live_count_none(tasks.drop_last(), i);
    }
}

/// There are never more live slots than slots.
pub proof fn lemma_live_count_le_len(tasks: Seq<Option<TaskVM>>)
    ensures
        live_count(tasks) <= tasks.len(),
    decreases tasks.len(),
{
    if tasks.len() > 0 {
        lemma_live_count_le_len(tasks.drop_last());
    }
}

/// `live_count` of a sequence holding a live slot is at least one.
proof fn lemma_live_count_lower(tasks: Seq<Option<TaskVM>>, i: int)
    requires
        0 <= i < tasks.len(),
        tasks[i] is Some,
    ensures
        live_count(tasks) >= 1,
    decreases tasks.len(),
{
    if i == tasks.len() - 1 {
    } else {
        lemma_live_count_lower(tasks.drop_last(), i);
    }
}

} // verus!
