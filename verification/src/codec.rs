//! The persistence codec: a minimal binary format with little-endian
//! integers.
//!
//! A `u32` (and a `u16`) is written as one length byte in {1, 2, 4} followed
//! by that many little-endian bytes; a `u8` is one raw byte; a string is a
//! `u16` byte-length then its UTF-8 bytes (at most 65,535 of them); a task
//! vector is a `u32` count (at most 1,000,000) then the tasks in order; a
//! task is `id, title, status (1 byte), instructions`; the storage image is
//! `tasks, next_id`.

use vstd::prelude::*;
use vstd::utf8::{decode_utf8, encode_utf8, valid_utf8};

use crate::errors::{VMError, VMResult};
use crate::task_types::{StorageData, Task, TaskStatus};

verus! {

/// Upper bound on the number of tasks a persisted image may carry.
pub const MAX_TASKS: usize = 1_000_000;

/// Upper bound on the byte length of a persisted string.
pub const MAX_STR_BYTES: usize = 65_535;

// ------------------------------------------------------------------
// Byte images (encoding), stated over mathematical models.
// ------------------------------------------------------------------

pub open spec fn enc_u8(v: u8) -> Seq<u8> {
    seq![v]
}

pub open spec fn enc_u16(v: u16) -> Seq<u8> {
    if v < 256 {
        seq![1u8, v as u8]
    } else {
        seq![2u8, (v & 0xff) as u8, ((v >> 8) & 0xff) as u8]
    }
}

pub open spec fn enc_u32(v: u32) -> Seq<u8> {
    if v < 256 {
        seq![1u8, v as u8]
    } else if v < 65536 {
        seq![2u8, (v & 0xff) as u8, ((v >> 8) & 0xff) as u8]
    } else {
        seq![
            4u8,
            (v & 0xff) as u8,
            ((v >> 8) & 0xff) as u8,
            ((v >> 16) & 0xff) as u8,
            ((v >> 24) & 0xff) as u8,
        ]
    }
}

pub open spec fn str_encodable(s: Seq<char>) -> bool {
    encode_utf8(s).len() <= MAX_STR_BYTES
}

pub open spec fn enc_str(s: Seq<char>) -> Seq<u8> {
    enc_u16(encode_utf8(s).len() as u16) + encode_utf8(s)
}

pub open spec fn enc_status(s: TaskStatus) -> Seq<u8> {
    enc_u8(crate::task_types::spec_status_code(s) as u8)
}

/// The model of a task: its strings as character sequences.
pub struct TaskModel {
    pub id: u32,
    pub title: Seq<char>,
    pub status: TaskStatus,
    pub instructions: Seq<char>,
}

impl DeepView for Task {
    type V = TaskModel;

    open spec fn deep_view(&self) -> TaskModel {
        TaskModel {
            id: self.id,
            title: self.title@,
            status: self.status,
            instructions: self.instructions@,
        }
    }
}

pub open spec fn task_encodable(t: TaskModel) -> bool {
    str_encodable(t.title) && str_encodable(t.instructions)
}

pub open spec fn enc_task(t: TaskModel) -> Seq<u8> {
    enc_u32(t.id) + enc_str(t.title) + enc_status(t.status) + enc_str(t.instructions)
}

pub open spec fn tasks_encodable(ts: Seq<TaskModel>) -> bool {
    ts.len() <= MAX_TASKS && forall|i: int| 0 <= i < ts.len() ==> task_encodable(#[trigger] ts[i])
}

/// The concatenated images of `ts[i ..]`.
pub open spec fn enc_task_list(ts: Seq<TaskModel>, i: int) -> Seq<u8>
    decreases ts.len() - i,
{
    if i < 0 || i >= ts.len() {
        Seq::empty()
    } else {
        enc_task(ts[i]) + enc_task_list(ts, i + 1)
    }
}

pub open spec fn enc_tasks(ts: Seq<TaskModel>) -> Seq<u8> {
    enc_u32(ts.len() as u32) + enc_task_list(ts, 0)
}

/// The model of a storage image.
pub struct StorageModel {
    pub tasks: Seq<TaskModel>,
    pub next_id: u32,
}

impl DeepView for StorageData {
    type V = StorageModel;

    open spec fn deep_view(&self) -> StorageModel {
        StorageModel { tasks: self.tasks.deep_view(), next_id: self.next_id }
    }
}

pub open spec fn storage_encodable(d: StorageModel) -> bool {
    tasks_encodable(d.tasks)
}

pub open spec fn enc_storage(d: StorageModel) -> Seq<u8> {
    enc_tasks(d.tasks) + enc_u32(d.next_id)
}

// ------------------------------------------------------------------
// Encoding values into a byte buffer.
// ------------------------------------------------------------------

/// A value that the storage format can write.
pub trait Encode {
    /// Whether this value fits the format's limits.
    spec fn encodable(&self) -> bool;

    /// Its byte image.
    spec fn encoding(&self) -> Seq<u8>;

    /// Append the byte image of `self` to `out`; a value beyond the
    /// format's limits fails with `StorageSizeTooBig` and leaves `out`
    /// untouched.
    fn encode(&self, out: &mut Vec<u8>) -> (r: VMResult<()>)
        ensures
            self.encodable() ==> r == Ok::<(), VMError>(()) && final(out)@ == old(out)@
                + self.encoding(),
            !self.encodable() ==> r == Err::<(), VMError>(VMError::StorageSizeTooBig) && final(out)@
                == old(out)@,
    ;
}

impl Encode for u8 {
    open spec fn encodable(&self) -> bool {
        true
    }

    open spec fn encoding(&self) -> Seq<u8> {
        enc_u8(*self)
    }

    fn encode(&self, out: &mut Vec<u8>) -> (r: VMResult<()>) {
        out.push(*self);
        assert(final(out)@ =~= old(out)@ + enc_u8(*self));
        Ok(())
    }
}

impl Encode for u16 {
    open spec fn encodable(&self) -> bool {
        true
    }

    open spec fn encoding(&self) -> Seq<u8> {
        enc_u16(*self)
    }

    fn encode(&self, out: &mut Vec<u8>) -> (r: VMResult<()>) {
        let v = *self;
        if v < 256 {
            out.push(1u8);
            out.push(#[verifier::truncate] (v as u8));
        } else {
            out.push(2u8);
            out.push(#[verifier::truncate] ((v & 0xff) as u8));
            out.push(#[verifier::truncate] (((v >> 8) & 0xff) as u8));
        }
        assert(final(out)@ =~= old(out)@ + enc_u16(*self));
        Ok(())
    }
}

impl Encode for u32 {
    open spec fn encodable(&self) -> bool {
        true
    }

    open spec fn encoding(&self) -> Seq<u8> {
        enc_u32(*self)
    }

    fn encode(&self, out: &mut Vec<u8>) -> (r: VMResult<()>) {
        let v = *self;
        if v < 256 {
            out.push(1u8);
            out.push(#[verifier::truncate] (v as u8));
        } else if v < 65536 {
            out.push(2u8);
            out.push(#[verifier::truncate] ((v & 0xff) as u8));
            out.push(#[verifier::truncate] (((v >> 8) & 0xff) as u8));
        } else {
            out.push(4u8);
            out.push(#[verifier::truncate] ((v & 0xff) as u8));
            out.push(#[verifier::truncate] (((v >> 8) & 0xff) as u8));
            out.push(#[verifier::truncate] (((v >> 16) & 0xff) as u8));
            out.push(#[verifier::truncate] (((v >> 24) & 0xff) as u8));
        }
        assert(final(out)@ =~= old(out)@ + enc_u32(*self));
        Ok(())
    }
}

fn append_bytes(out: &mut Vec<u8>, b: &[u8])
    ensures
        final(out)@ == old(out)@ + b@,
{
    let n = b.len();
    let mut i: usize = 0;
    while i < n
        invariant
            n == b@.len(),
            i <= n,
            out@ == old(out)@ + b@.subrange(0, i as int),
        decreases n - i,
    {
        out.push(b[i]);
        assert(out@ =~= old(out)@ + b@.subrange(0, i + 1 as int));
        i += 1;
    }
    assert(b@.subrange(0, n as int) =~= b@);
}

impl Encode for String {
    open spec fn encodable(&self) -> bool {
        str_encodable(self@)
    }

    open spec fn encoding(&self) -> Seq<u8> {
        enc_str(self@)
    }

    fn encode(&self, out: &mut Vec<u8>) -> (r: VMResult<()>) {
        let bytes = self.as_str().as_bytes();
        let len = bytes.len();
        if len > MAX_STR_BYTES {
            return Err(VMError::StorageSizeTooBig);
        }
        (len as u16).encode(out)?;
        append_bytes(out, bytes);
        assert(final(out)@ =~= old(out)@ + enc_str(self@));
        Ok(())
    }
}

impl Encode for TaskStatus {
    open spec fn encodable(&self) -> bool {
        true
    }

    open spec fn encoding(&self) -> Seq<u8> {
        enc_status(*self)
    }

    fn encode(&self, out: &mut Vec<u8>) -> (r: VMResult<()>) {
        let c = self.code();
        out.push(c as u8);
        assert(final(out)@ =~= old(out)@ + enc_status(*self));
        Ok(())
    }
}

impl Task {
    /// Whether both strings of the task fit the storage format.
    fn check_encodable(&self) -> (r: bool)
        ensures
            r == task_encodable(self.deep_view()),
    {
        self.title.as_str().as_bytes().len() <= MAX_STR_BYTES
            && self.instructions.as_str().as_bytes().len() <= MAX_STR_BYTES
    }
}

impl Encode for Task {
    open spec fn encodable(&self) -> bool {
        task_encodable(self.deep_view())
    }

    open spec fn encoding(&self) -> Seq<u8> {
        enc_task(self.deep_view())
    }

    fn encode(&self, out: &mut Vec<u8>) -> (r: VMResult<()>) {
        if !self.check_encodable() {
            return Err(VMError::StorageSizeTooBig);
        }
        self.id.encode(out)?;
        self.title.encode(out)?;
        self.status.encode(out)?;
        self.instructions.encode(out)?;
        assert(final(out)@ =~= old(out)@ + enc_task(self.deep_view()));
        Ok(())
    }
}

impl Encode for Vec<Task> {
    open spec fn encodable(&self) -> bool {
        tasks_encodable(self.deep_view())
    }

    open spec fn encoding(&self) -> Seq<u8> {
        enc_tasks(self.deep_view())
    }

    fn encode(&self, out: &mut Vec<u8>) -> (r: VMResult<()>) {
        let n = self.len();
        if n > MAX_TASKS {
            return Err(VMError::StorageSizeTooBig);
        }
        assert(self.deep_view().len() == self@.len());
        assert(forall|j: int|
            0 <= j < self@.len() ==> #[trigger] self.deep_view()[j] == self@[j].deep_view());
        let mut i: usize = 0;
        while i < n
            invariant
                n == self@.len(),
                i <= n,
                self.deep_view().len() == self@.len(),
                forall|j: int|
                    0 <= j < self@.len() ==> #[trigger] self.deep_view()[j]
                        == self@[j].deep_view(),
                forall|j: int| 0 <= j < i ==> task_encodable(#[trigger] self.deep_view()[j]),
            decreases n - i,
        {
            if !self[i].check_encodable() {
                assert(!task_encodable(self.deep_view()[i as int]));
                assert(!tasks_encodable(self.deep_view()));
                return Err(VMError::StorageSizeTooBig);
            }
            i += 1;
        }
        assert(tasks_encodable(self.deep_view()));
        (n as u32).encode(out)?;
        let ghost ts = self.deep_view();
        let mut k: usize = 0;
        while k < n
            invariant
                n == self@.len(),
                k <= n,
                ts == self.deep_view(),
                ts.len() == n,
                tasks_encodable(ts),
                forall|j: int| 0 <= j < self@.len() ==> #[trigger] ts[j] == self@[j].deep_view(),
                out@ == old(out)@ + enc_u32(n as u32) + enc_list_prefix(ts, k as int),
            decreases n - k,
        {
            let res = self[k].encode(out);
            proof {
                lemma_enc_list_prefix_push(ts, k as int);
            }
            assert(res is Ok);
            assert(out@ =~= old(out)@ + enc_u32(n as u32) + enc_list_prefix(ts, k + 1 as int));
            k += 1;
        }
        proof {
            lemma_enc_list_prefix_all(ts);
        }
        assert(final(out)@ =~= old(out)@ + enc_tasks(self.deep_view()));
        Ok(())
    }
}

/// The concatenated images of `ts[.. i]`.
pub open spec fn enc_list_prefix(ts: Seq<TaskModel>, i: int) -> Seq<u8>
    decreases i,
{
    if i <= 0 || i > ts.len() {
        Seq::empty()
    } else {
        enc_list_prefix(ts, i - 1) + enc_task(ts[i - 1])
    }
}

/// Extending the encoded prefix by one task appends that task's image.
proof fn lemma_enc_list_prefix_push(ts: Seq<TaskModel>, i: int)
    requires
        0 <= i < ts.len(),
    ensures
        enc_list_prefix(ts, i + 1) == enc_list_prefix(ts, i) + enc_task(ts[i]),
{
}

/// The full encoded prefix equals the suffix image from the front.
proof fn lemma_enc_list_prefix_all(ts: Seq<TaskModel>)
    ensures
        enc_list_prefix(ts, ts.len() as int) == enc_task_list(ts, 0),
{
    lemma_enc_list_split(ts, 0);
}

/// Concatenating the first `i` images with the rest gives all of them.
proof fn lemma_enc_list_split(ts: Seq<TaskModel>, i: int)
    requires
        0 <= i <= ts.len(),
    ensures
        enc_list_prefix(ts, ts.len() as int) == enc_list_prefix(ts, i) + enc_task_list(ts, i),
    decreases ts.len() - i,
{
    if i == ts.len() {
        assert(enc_task_list(ts, i) =~= Seq::<u8>::empty());
        assert(enc_list_prefix(ts, ts.len() as int) =~= enc_list_prefix(ts, i)
            + enc_task_list(ts, i));
    } else {
        lemma_enc_list_split(ts, i + 1);
        lemma_enc_list_prefix_push(ts, i);
        assert(enc_list_prefix(ts, ts.len() as int) =~= enc_list_prefix(ts, i) + enc_task_list(
            ts,
            i,
        ));
    }
}

// ------------------------------------------------------------------
// Decoding: what a byte sequence means at a position.
// ------------------------------------------------------------------

pub open spec fn dec_u8(s: Seq<u8>, pos: int) -> Result<(u8, int), VMError> {
    if 0 <= pos && pos + 1 <= s.len() {
        Ok((s[pos], pos + 1))
    } else {
        Err(VMError::StorageReadError)
    }
}

pub open spec fn dec_u16(s: Seq<u8>, pos: int) -> Result<(u16, int), VMError> {
    match dec_u8(s, pos) {
        Err(e) => Err(e),
        Ok((tag, p)) => {
            if tag == 1 {
                match dec_u8(s, p) {
                    Err(e) => Err(e),
                    Ok((b, p2)) => Ok((b as u16, p2)),
                }
            } else if tag == 2 {
                if p + 2 <= s.len() {
                    Ok((((s[p] as u16) | ((s[p + 1] as u16) << 8)) as u16, p + 2))
                } else {
                    Err(VMError::StorageReadError)
                }
            } else {
                Err(VMError::StorageReadError)
            }
        },
    }
}

pub open spec fn dec_u32(s: Seq<u8>, pos: int) -> Result<(u32, int), VMError> {
    match dec_u8(s, pos) {
        Err(e) => Err(e),
        Ok((tag, p)) => {
            if tag == 1 {
                match dec_u8(s, p) {
                    Err(e) => Err(e),
                    Ok((b, p2)) => Ok((b as u32, p2)),
                }
            } else if tag == 2 {
                if p + 2 <= s.len() {
                    Ok((((s[p] as u32) | ((s[p + 1] as u32) << 8)) as u32, p + 2))
                } else {
                    Err(VMError::StorageReadError)
                }
            } else if tag == 4 {
                if p + 4 <= s.len() {
                    Ok(
                        (
                            ((s[p] as u32) | ((s[p + 1] as u32) << 8) | ((s[p + 2] as u32) << 16) | (
                            (s[p + 3] as u32) << 24)) as u32,
                            p + 4,
                        ),
                    )
                } else {
                    Err(VMError::StorageReadError)
                }
            } else {
                Err(VMError::StorageReadError)
            }
        },
    }
}

pub open spec fn dec_str(s: Seq<u8>, pos: int) -> Result<(Seq<char>, int), VMError> {
    match dec_u16(s, pos) {
        Err(e) => Err(e),
        Ok((len, p)) => {
            if p + len <= s.len() {
                let bytes = s.subrange(p, p + len);
                if valid_utf8(bytes) {
                    Ok((decode_utf8(bytes), p + len))
                } else {
                    Err(VMError::StorageUTF8ConversionFailed)
                }
            } else {
                Err(VMError::StorageReadError)
            }
        },
    }
}

pub open spec fn dec_status(s: Seq<u8>, pos: int) -> Result<(TaskStatus, int), VMError> {
    match dec_u8(s, pos) {
        Err(e) => Err(e),
        Ok((b, p)) => match crate::task_types::spec_status_from(b as u32) {
            Err(e) => Err(e),
            Ok(st) => Ok((st, p)),
        },
    }
}

pub open spec fn dec_task(s: Seq<u8>, pos: int) -> Result<(TaskModel, int), VMError> {
    match dec_u32(s, pos) {
        Err(e) => Err(e),
        Ok((id, p1)) => match dec_str(s, p1) {
            Err(e) => Err(e),
            Ok((title, p2)) => match dec_status(s, p2) {
                Err(e) => Err(e),
                Ok((status, p3)) => match dec_str(s, p3) {
                    Err(e) => Err(e),
                    Ok((instructions, p4)) => Ok(
                        (TaskModel { id, title, status, instructions }, p4),
                    ),
                },
            },
        },
    }
}

pub open spec fn dec_task_list(s: Seq<u8>, pos: int, n: int) -> Result<(Seq<TaskModel>, int), VMError>
    decreases n,
{
    if n <= 0 {
        Ok((Seq::empty(), pos))
    } else {
        match dec_task(s, pos) {
            Err(e) => Err(e),
            Ok((t, p)) => match dec_task_list(s, p, n - 1) {
                Err(e) => Err(e),
                Ok((ts, p2)) => Ok((seq![t] + ts, p2)),
            },
        }
    }
}

pub open spec fn dec_tasks(s: Seq<u8>, pos: int) -> Result<(Seq<TaskModel>, int), VMError> {
    match dec_u32(s, pos) {
        Err(e) => Err(e),
        Ok((n, p)) => {
            if n > MAX_TASKS {
                Err(VMError::StorageReadError)
            } else {
                dec_task_list(s, p, n as int)
            }
        },
    }
}

pub open spec fn dec_storage(s: Seq<u8>, pos: int) -> Result<(StorageModel, int), VMError> {
    match dec_tasks(s, pos) {
        Err(e) => Err(e),
        Ok((tasks, p)) => match dec_u32(s, p) {
            Err(e) => Err(e),
            Ok((next_id, p2)) => Ok((StorageModel { tasks, next_id }, p2)),
        },
    }
}

// ------------------------------------------------------------------
// Decoding values out of a byte buffer.
// ------------------------------------------------------------------

/// A value that the storage format can read back.
pub trait Decode: Sized + DeepView {
    /// What `input` means for this type at `pos`: the decoded model and the
    /// position after it, or the error.
    spec fn decoded(s: Seq<u8>, pos: int) -> Result<(<Self as DeepView>::V, int), VMError>;

    /// Read a value of this type out of `input` at `pos`.
    fn decode(input: &[u8], pos: usize) -> (r: VMResult<(Self, usize)>)
        ensures
            match Self::decoded(input@, pos as int) {
                Ok(vp) => r matches Ok(x) && x.0.deep_view() == vp.0 && x.1 == vp.1,
                Err(e) => r matches Err(e2) && e2 == e,
            },
    ;
}

impl Decode for u8 {
    open spec fn decoded(s: Seq<u8>, pos: int) -> Result<(u8, int), VMError> {
        dec_u8(s, pos)
    }

    fn decode(input: &[u8], pos: usize) -> (r: VMResult<(Self, usize)>) {
        if pos < input.len() {
            Ok((input[pos], pos + 1))
        } else {
            Err(VMError::StorageReadError)
        }
    }
}

impl Decode for u16 {
    open spec fn decoded(s: Seq<u8>, pos: int) -> Result<(u16, int), VMError> {
        dec_u16(s, pos)
    }

    fn decode(input: &[u8], pos: usize) -> (r: VMResult<(Self, usize)>) {
        let (tag, p) = u8::decode(input, pos)?;
        if tag == 1 {
            let (b, p2) = u8::decode(input, p)?;
            Ok((b as u16, p2))
        } else if tag == 2 {
            if input.len() >= 2 && p <= input.len() - 2 {
                Ok(((input[p] as u16) | ((input[p + 1] as u16) << 8), p + 2))
            } else {
                Err(VMError::StorageReadError)
            }
        } else {
            Err(VMError::StorageReadError)
        }
    }
}

impl Decode for u32 {
    open spec fn decoded(s: Seq<u8>, pos: int) -> Result<(u32, int), VMError> {
        dec_u32(s, pos)
    }

    fn decode(input: &[u8], pos: usize) -> (r: VMResult<(Self, usize)>) {
        let (tag, p) = u8::decode(input, pos)?;
        if tag == 1 {
            let (b, p2) = u8::decode(input, p)?;
            Ok((b as u32, p2))
        } else if tag == 2 {
            if input.len() >= 2 && p <= input.len() - 2 {
                Ok(((input[p] as u32) | ((input[p + 1] as u32) << 8), p + 2))
            } else {
                Err(VMError::StorageReadError)
            }
        } else if tag == 4 {
            if input.len() >= 4 && p <= input.len() - 4 {
                Ok(
                    (
                        (input[p] as u32) | ((input[p + 1] as u32) << 8) | ((input[p + 2] as u32)
                            << 16) | ((input[p + 3] as u32) << 24),
                        p + 4,
                    ),
                )
            } else {
                Err(VMError::StorageReadError)
            }
        } else {
            Err(VMError::StorageReadError)
        }
    }
}

/// Relies on `String::from_utf8`: it succeeds exactly on valid UTF-8 input
/// and returns the string those bytes spell.
#[verifier::external_body]
fn string_from_utf8(v: Vec<u8>) -> (r: Option<String>)
    ensures
        r is Some <==> valid_utf8(v@),
        r matches Some(s) ==> s@ == decode_utf8(v@),
{
    String::from_utf8(v).ok()
}

impl Decode for String {
    open spec fn decoded(s: Seq<u8>, pos: int) -> Result<(Seq<char>, int), VMError> {
        dec_str(s, pos)
    }

    fn decode(input: &[u8], pos: usize) -> (r: VMResult<(Self, usize)>) {
        let (len, p) = u16::decode(input, pos)?;
        let len = len as usize;
        if len > input.len() || p > input.len() - len {
            return Err(VMError::StorageReadError);
        }
        let bytes = vstd::slice::slice_subrange(input, p, p + len);
        let buf = vstd::slice::slice_to_vec(bytes);
        match string_from_utf8(buf) {
            Some(s) => Ok((s, p + len)),
            None => Err(VMError::StorageUTF8ConversionFailed),
        }
    }
}

impl Decode for TaskStatus {
    open spec fn decoded(s: Seq<u8>, pos: int) -> Result<(TaskStatus, int), VMError> {
        dec_status(s, pos)
    }

    fn decode(input: &[u8], pos: usize) -> (r: VMResult<(Self, usize)>) {
        let (b, p) = u8::decode(input, pos)?;
        let st = TaskStatus::try_from(b as u32)?;
        Ok((st, p))
    }
}

impl Decode for Task {
    open spec fn decoded(s: Seq<u8>, pos: int) -> Result<(TaskModel, int), VMError> {
        dec_task(s, pos)
    }

    fn decode(input: &[u8], pos: usize) -> (r: VMResult<(Self, usize)>) {
        let (id, p1) = u32::decode(input, pos)?;
        let (title, p2) = String::decode(input, p1)?;
        let (status, p3) = TaskStatus::decode(input, p2)?;
        let (instructions, p4) = String::decode(input, p3)?;
        Ok((Task { id, title, status, instructions }, p4))
    }
}

impl Decode for Vec<Task> {
    open spec fn decoded(s: Seq<u8>, pos: int) -> Result<(Seq<TaskModel>, int), VMError> {
        dec_tasks(s, pos)
    }

    fn decode(input: &[u8], pos: usize) -> (r: VMResult<(Self, usize)>) {
        let (n32, p0) = u32::decode(input, pos)?;
        if n32 as usize > MAX_TASKS {
            return Err(VMError::StorageReadError);
        }
        let n = n32 as usize;
        let mut buf: Vec<Task> = Vec::new();
        let mut p: usize = p0;
        let mut i: usize = 0;
        proof {
            let s = input@;
            assert(dec_tasks(s, pos as int) == dec_task_list(s, p0 as int, n as int));
            match dec_task_list(s, p0 as int, n as int) {
                Err(_) => {},
                Ok((ts, q)) => {
                    assert(Seq::<TaskModel>::empty() + ts =~= ts);
                },
            }
        }
        while i < n
            invariant
                i <= n,
                buf.deep_view().len() == i,
                dec_tasks(input@, pos as int) == (match dec_task_list(
                    input@,
                    p as int,
                    n - i,
                ) {
                    Err(e) => Err::<(Seq<TaskModel>, int), VMError>(e),
                    Ok((ts, q)) => Ok((buf.deep_view() + ts, q)),
                }),
            decreases n - i,
        {
            let ghost pre = buf.deep_view();
            let res = Task::decode(input, p);
            match res {
                Err(e) => {
                    assert(dec_task_list(input@, p as int, n - i) == Err::<
                        (Seq<TaskModel>, int),
                        VMError,
                    >(e));
                    return Err(e);
                },
                Ok((t, p2)) => {
                    proof {
                        let s = input@;
                        let tm = t.deep_view();
                        assert(dec_task(s, p as int) == Ok::<(TaskModel, int), VMError>(
                            (tm, p2 as int),
                        ));
                        assert(dec_task_list(s, p as int, n - i) == (match dec_task_list(
                            s,
                            p2 as int,
                            n - i - 1,
                        ) {
                            Err(e) => Err::<(Seq<TaskModel>, int), VMError>(e),
                            Ok((ts, q)) => Ok((seq![tm] + ts, q)),
                        }));
                        match dec_task_list(s, p2 as int, n - i - 1) {
                            Err(_) => {},
                            Ok((ts, q)) => {
                                assert(pre + (seq![tm] + ts) =~= pre.push(tm) + ts);
                            },
                        }
                    }
                    buf.push(t);
                    assert(buf.deep_view() =~= pre.push(t.deep_view()));
                    p = p2;
                },
            }
            i += 1;
        }
        assert(dec_task_list(input@, p as int, 0) == Ok::<(Seq<TaskModel>, int), VMError>(
            (Seq::empty(), p as int),
        ));
        assert(buf.deep_view() + Seq::<TaskModel>::empty() =~= buf.deep_view());
        Ok((buf, p))
    }
}

impl Decode for StorageData {
    open spec fn decoded(s: Seq<u8>, pos: int) -> Result<(StorageModel, int), VMError> {
        dec_storage(s, pos)
    }

    fn decode(input: &[u8], pos: usize) -> (r: VMResult<(Self, usize)>) {
        let (tasks, p) = Vec::<Task>::decode(input, pos)?;
        let (next_id, p2) = u32::decode(input, p)?;
        Ok((StorageData { tasks, next_id }, p2))
    }
}

// ------------------------------------------------------------------
// Round trip: decoding an encoded value yields the value back.
// ------------------------------------------------------------------

/// A concatenation sitting at `pos` splits into its two parts.
proof fn lemma_subrange_concat(s: Seq<u8>, pos: int, a: Seq<u8>, b: Seq<u8>)
    requires
        0 <= pos,
        pos + a.len() + b.len() <= s.len(),
        s.subrange(pos, pos + a.len() + b.len()) == a + b,
    ensures
        s.subrange(pos, pos + a.len()) == a,
        s.subrange(pos + a.len(), pos + a.len() + b.len()) == b,
{
    let ab = s.subrange(pos, pos + a.len() + b.len());
    assert forall|i: int| 0 <= i < a.len() implies s[pos + i] == a[i] by {
        assert(ab[i] == (a + b)[i]);
    }
    assert forall|i: int| 0 <= i < b.len() implies s[pos + a.len() + i] == b[i] by {
        assert(ab[a.len() + i] == (a + b)[a.len() + i]);
    }
    assert(s.subrange(pos, pos + a.len()) =~= a);
    assert(s.subrange(pos + a.len(), pos + a.len() + b.len()) =~= b);
}

pub proof fn lemma_dec_enc_u8(s: Seq<u8>, pos: int, v: u8)
    requires
        0 <= pos,
        pos + enc_u8(v).len() <= s.len(),
        s.subrange(pos, pos + enc_u8(v).len()) == enc_u8(v),
    ensures
        dec_u8(s, pos) == Ok::<(u8, int), VMError>((v, pos + enc_u8(v).len())),
{
    assert(s[pos] == enc_u8(v)[0]);
}

pub proof fn lemma_dec_enc_u16(s: Seq<u8>, pos: int, v: u16)
    requires
        0 <= pos,
        pos + enc_u16(v).len() <= s.len(),
        s.subrange(pos, pos + enc_u16(v).len()) == enc_u16(v),
    ensures
        dec_u16(s, pos) == Ok::<(u16, int), VMError>((v, pos + enc_u16(v).len())),
{
    let e = enc_u16(v);
    assert forall|i: int| 0 <= i < e.len() implies s[pos + i] == e[i] by {
        assert(s.subrange(pos, pos + e.len())[i] == e[i]);
    }
    if v < 256 {
        assert(s[pos] == 1u8 && s[pos + 1] == v as u8);
        assert((v as u8) as u16 == v) by (bit_vector)
            requires
                v < 256u16,
        ;
    } else {
        assert(s[pos] == 2u8 && s[pos + 1] == (v & 0xff) as u8 && s[pos + 2] == ((v >> 8)
            & 0xff) as u8);
        assert((((v & 0xff) as u8 as u16) | ((((v >> 8) & 0xff) as u8 as u16) << 8)) == v)
            by (bit_vector);
    }
}

pub proof fn lemma_dec_enc_u32(s: Seq<u8>, pos: int, v: u32)
    requires
        0 <= pos,
        pos + enc_u32(v).len() <= s.len(),
        s.subrange(pos, pos + enc_u32(v).len()) == enc_u32(v),
    ensures
        dec_u32(s, pos) == Ok::<(u32, int), VMError>((v, pos + enc_u32(v).len())),
{
    let e = enc_u32(v);
    assert forall|i: int| 0 <= i < e.len() implies s[pos + i] == e[i] by {
        assert(s.subrange(pos, pos + e.len())[i] == e[i]);
    }
    if v < 256 {
        assert((v as u8) as u32 == v) by (bit_vector)
            requires
                v < 256u32,
        ;
    } else if v < 65536 {
        assert((((v & 0xff) as u8 as u32) | ((((v >> 8) & 0xff) as u8 as u32) << 8)) == v)
            by (bit_vector)
            requires
                v < 65536u32,
        ;
    } else {
        assert((((v & 0xff) as u8 as u32) | ((((v >> 8) & 0xff) as u8 as u32) << 8) | ((((v >> 16)
            & 0xff) as u8 as u32) << 16) | ((((v >> 24) & 0xff) as u8 as u32) << 24)) == v)
            by (bit_vector);
    }
}

pub proof fn lemma_dec_enc_str(s: Seq<u8>, pos: int, cs: Seq<char>)
    requires
        0 <= pos,
        str_encodable(cs),
        pos + enc_str(cs).len() <= s.len(),
        s.subrange(pos, pos + enc_str(cs).len()) == enc_str(cs),
    ensures
        dec_str(s, pos) == Ok::<(Seq<char>, int), VMError>((cs, pos + enc_str(cs).len())),
{
    let bytes = encode_utf8(cs);
    let lenenc = enc_u16(bytes.len() as u16);
    lemma_subrange_concat(s, pos, lenenc, bytes);
    lemma_dec_enc_u16(s, pos, bytes.len() as u16);
    let p = pos + lenenc.len();
    assert(s.subrange(p, p + bytes.len()) == bytes);
    vstd::utf8::encode_utf8_valid_utf8(cs);
    vstd::utf8::encode_utf8_decode_utf8(cs);
}

pub proof fn lemma_dec_enc_status(s: Seq<u8>, pos: int, st: TaskStatus)
    requires
        0 <= pos,
        pos + enc_status(st).len() <= s.len(),
        s.subrange(pos, pos + enc_status(st).len()) == enc_status(st),
    ensures
        dec_status(s, pos) == Ok::<(TaskStatus, int), VMError>((st, pos + enc_status(st).len())),
{
    let c = crate::task_types::spec_status_code(st) as u8;
    lemma_dec_enc_u8(s, pos, c);
}

pub proof fn lemma_dec_enc_task(s: Seq<u8>, pos: int, t: TaskModel)
    requires
        0 <= pos,
        task_encodable(t),
        pos + enc_task(t).len() <= s.len(),
        s.subrange(pos, pos + enc_task(t).len()) == enc_task(t),
    ensures
        dec_task(s, pos) == Ok::<(TaskModel, int), VMError>((t, pos + enc_task(t).len())),
{
    let a = enc_u32(t.id);
    let b = enc_str(t.title);
    let c = enc_status(t.status);
    let d = enc_str(t.instructions);
    assert(enc_task(t) =~= a + (b + (c + d)));
    lemma_subrange_concat(s, pos, a, b + (c + d));
    lemma_subrange_concat(s, pos + a.len(), b, c + d);
    lemma_subrange_concat(s, pos + a.len() + b.len(), c, d);
    lemma_dec_enc_u32(s, pos, t.id);
    lemma_dec_enc_str(s, pos + a.len(), t.title);
    lemma_dec_enc_status(s, pos + a.len() + b.len(), t.status);
    lemma_dec_enc_str(s, pos + a.len() + b.len() + c.len(), t.instructions);
}

proof fn lemma_dec_enc_task_list(s: Seq<u8>, pos: int, ts: Seq<TaskModel>, i: int)
    requires
        0 <= pos,
        0 <= i <= ts.len(),
        forall|j: int| 0 <= j < ts.len() ==> task_encodable(#[trigger] ts[j]),
        pos + enc_task_list(ts, i).len() <= s.len(),
        s.subrange(pos, pos + enc_task_list(ts, i).len()) == enc_task_list(ts, i),
    ensures
        dec_task_list(s, pos, ts.len() - i) == Ok::<(Seq<TaskModel>, int), VMError>(
            (ts.skip(i), pos + enc_task_list(ts, i).len()),
        ),
    decreases ts.len() - i,
{
    if i == ts.len() {
        assert(ts.skip(i) =~= Seq::<TaskModel>::empty());
    } else {
        let a = enc_task(ts[i]);
        let b = enc_task_list(ts, i + 1);
        lemma_subrange_concat(s, pos, a, b);
        lemma_dec_enc_task(s, pos, ts[i]);
        lemma_dec_enc_task_list(s, pos + a.len(), ts, i + 1);
        assert(seq![ts[i]] + ts.skip(i + 1) =~= ts.skip(i));
    }
}

pub proof fn lemma_dec_enc_tasks(s: Seq<u8>, pos: int, ts: Seq<TaskModel>)
    requires
        0 <= pos,
        tasks_encodable(ts),
        pos + enc_tasks(ts).len() <= s.len(),
        s.subrange(pos, pos + enc_tasks(ts).len()) == enc_tasks(ts),
    ensures
        dec_tasks(s, pos) == Ok::<(Seq<TaskModel>, int), VMError>(
            (ts, pos + enc_tasks(ts).len()),
        ),
{
    let a = enc_u32(ts.len() as u32);
    let b = enc_task_list(ts, 0);
    lemma_subrange_concat(s, pos, a, b);
    lemma_dec_enc_u32(s, pos, ts.len() as u32);
    lemma_dec_enc_task_list(s, pos + a.len(), ts, 0);
    assert(ts.skip(0) =~= ts);
}

/// Reading back an encoded storage image yields the image unchanged: the
/// same tasks in the same order and the same `next_id`.
pub proof fn lemma_dec_enc_storage(s: Seq<u8>, pos: int, d: StorageModel)
    requires
        0 <= pos,
        storage_encodable(d),
        pos + enc_storage(d).len() <= s.len(),
        s.subrange(pos, pos + enc_storage(d).len()) == enc_storage(d),
    ensures
        dec_storage(s, pos) == Ok::<(StorageModel, int), VMError>(
            (d, pos + enc_storage(d).len()),
        ),
{
    let a = enc_tasks(d.tasks);
    let b = enc_u32(d.next_id);
    lemma_subrange_concat(s, pos, a, b);
    lemma_dec_enc_tasks(s, pos, d.tasks);
    lemma_dec_enc_u32(s, pos + a.len(), d.next_id);
    assert(dec_storage(s, pos) matches Ok((m, _)) && m.tasks == d.tasks && m.next_id == d.next_id);
    match dec_storage(s, pos) {
        Ok((m, _)) => {
            assert(m == StorageModel { tasks: m.tasks, next_id: m.next_id });
        },
        Err(_) => {},
    }
}

impl Encode for StorageData {
    open spec fn encodable(&self) -> bool {
        storage_encodable(self.deep_view())
    }

    open spec fn encoding(&self) -> Seq<u8> {
        enc_storage(self.deep_view())
    }

    fn encode(&self, out: &mut Vec<u8>) -> (r: VMResult<()>) {
        self.tasks.encode(out)?;
        self.next_id.encode(out)?;
        assert(final(out)@ =~= old(out)@ + enc_storage(self.deep_view()));
        Ok(())
    }
}

} // verus!
