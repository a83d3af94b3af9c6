//! The two append-only arenas of the machine.
//!
//! The string pool interns strings without duplicates and hands out stable
//! indices; the instructions pool appends bytecode blobs without
//! deduplicating. Neither ever removes an entry.

use vstd::prelude::*;

use crate::errors::{VMError, VMResult};
use crate::text::str_eq;

verus! {

/// A deduplicating arena of strings addressed by index.
#[derive(Debug)]
pub struct StringPool {
    vec: Vec<String>,
}

impl View for StringPool {
    type V = Seq<Seq<char>>;

    closed spec fn view(&self) -> Seq<Seq<char>> {
        self.vec@.map_values(|s: String| s@)
    }
}

/// No two entries of the pool spell the same string.
pub open spec fn spool_wf(pool: Seq<Seq<char>>) -> bool {
    forall|i: int, j: int| 0 <= i < j < pool.len() ==> pool[i] != pool[j]
}

pub open spec fn spool_has(pool: Seq<Seq<char>>, s: Seq<char>) -> bool {
    exists|i: int| 0 <= i < pool.len() && pool[i] == s
}

/// The pool after interning `s`, and the index handed out for it.
pub open spec fn spec_intern(pool: Seq<Seq<char>>, s: Seq<char>) -> (Seq<Seq<char>>, int) {
    if spool_has(pool, s) {
        (pool, choose|i: int| 0 <= i < pool.len() && pool[i] == s)
    } else {
        (pool.push(s), pool.len() as int)
    }
}

impl StringPool {
    pub open spec fn wf(&self) -> bool {
        spool_wf(self@)
    }

    /// An empty pool.
    pub fn new() -> (r: StringPool)
        ensures
            r.wf(),
            r@ == Seq::<Seq<char>>::empty(),
    {
        let r = StringPool { vec: Vec::new() };
        assert(r@ =~= Seq::<Seq<char>>::empty());
        r
    }

    pub fn len(&self) -> (r: usize)
        ensures
            r == self@.len(),
    {
        self.vec.len()
    }

    /// Intern `s`: the index of the existing entry spelling `s`, or the
    /// index of a fresh entry appended for it. Indices are stable for the
    /// life of the pool.
    pub fn intern_string(&mut self, s: String) -> (r: u32)
        requires
            old(self).wf(),
            old(self)@.len() < u32::MAX,
        ensures
            final(self).wf(),
            (final(self)@, r as int) == spec_intern(old(self)@, s@),
            r < final(self)@.len(),
            final(self)@[r as int] == s@,
            spool_has(old(self)@, s@) ==> final(self)@ == old(self)@,
            !spool_has(old(self)@, s@) ==> final(self)@ == old(self)@.push(s@) && r == old(
                self,
            )@.len(),
    {
        let n = self.vec.len();
        let mut i: usize = 0;
        while i < n
            invariant
                self == old(self),
                self.wf(),
                self@.len() < u32::MAX,
                n == self.vec@.len(),
                n == self@.len(),
                i <= n,
                forall|j: int| 0 <= j < i ==> self@[j] != s@,
            decreases n - i,
        {
            if str_eq(self.vec[i].as_str(), s.as_str()) {
                assert(self@[i as int] == s@);
                proof {
                    let w = choose|k: int| 0 <= k < self@.len() && self@[k] == s@;
                    assert(self@[w] == s@ && self@[i as int] == s@);
                    if w != i as int {
                        assert(false);
                    }
                }
                return i as u32;
            }
            i += 1;
        }
        assert(!spool_has(self@, s@));
        self.vec.push(s);
        assert(self@ =~= old(self)@.push(s@));
        (self.vec.len() - 1) as u32
    }

    /// The string at `idx`; `InvalidStringIndex` past the end of the pool.
    pub fn resolve(&self, idx: usize) -> (r: VMResult<&str>)
        ensures
            idx < self@.len() ==> (r matches Ok(s) && s@ == self@[idx as int]),
            idx >= self@.len() ==> (r matches Err(e) && e == VMError::InvalidStringIndex(idx)),
    {
        if idx < self.vec.len() {
            Ok(self.vec[idx].as_str())
        } else {
            Err(VMError::InvalidStringIndex(idx))
        }
    }
}

/// Interning agrees with string equality: starting from any well-formed
/// pool, interning `s1` and then `s2` hands out the same index exactly when
/// the two strings are the same.
pub proof fn lemma_intern_agreement(pool: Seq<Seq<char>>, s1: Seq<char>, s2: Seq<char>)
    requires
        spool_wf(pool),
    ensures
        ({
            let (p1, r1) = spec_intern(pool, s1);
            let (p2, r2) = spec_intern(p1, s2);
            r1 == r2 <==> s1 == s2
        }),
{
    let (p1, r1) = spec_intern(pool, s1);
    let (p2, r2) = spec_intern(p1, s2);
    lemma_spec_intern_wf(pool, s1);
    assert(0 <= r1 < p1.len() && p1[r1] == s1);
    assert(0 <= r2 < p2.len() && p2[r2] == s2);
    if s1 == s2 {
        // interning s2 finds the entry that interning s1 produced or found
        assert(spool_has(p1, s2));
        let w = choose|i: int| 0 <= i < p1.len() && p1[i] == s2;
        assert(p1[w] == s2 && p1[r1] == s2);
        if w != r1 {
            assert(false);
        }
    } else {
        if r1 == r2 {
            if spool_has(p1, s2) {
                assert(p1[r2] == s2 && p1[r1] == s1);
            } else {
                assert(r2 == p1.len());
                assert(false);
            }
        }
    }
}

/// Interning keeps a pool well formed, and the index it hands out names the
/// interned string.
pub proof fn lemma_spec_intern_wf(pool: Seq<Seq<char>>, s: Seq<char>)
    requires
        spool_wf(pool),
    ensures
        spool_wf(spec_intern(pool, s).0),
        0 <= spec_intern(pool, s).1 < spec_intern(pool, s).0.len(),
        spec_intern(pool, s).0[spec_intern(pool, s).1] == s,
{
    let (p, r) = spec_intern(pool, s);
    if spool_has(pool, s) {
        let w = choose|i: int| 0 <= i < pool.len() && pool[i] == s;
        assert(0 <= w < pool.len() && pool[w] == s);
    } else {
        assert forall|i: int, j: int| 0 <= i < j < p.len() implies p[i] != p[j] by {
            if j == pool.len() {
                assert(p[j] == s);
                assert(p[i] == pool[i]);
                assert(!spool_has(pool, s));
            }
        }
    }
}

/// An append-only arena of bytecode blobs addressed by index. Two identical
/// blobs interned separately get distinct indices.
#[derive(Debug)]
pub struct InstructionsPool {
    instructions: Vec<Vec<u8>>,
}

impl View for InstructionsPool {
    type V = Seq<Seq<u8>>;

    closed spec fn view(&self) -> Seq<Seq<u8>> {
        self.instructions@.map_values(|v: Vec<u8>| v@)
    }
}

impl InstructionsPool {
    /// An empty pool.
    pub fn new() -> (r: InstructionsPool)
        ensures
            r@ == Seq::<Seq<u8>>::empty(),
    {
        let r = InstructionsPool { instructions: Vec::new() };
        assert(r@ =~= Seq::<Seq<u8>>::empty());
        r
    }

    /// Append `calldata` as a fresh blob and return its index.
    pub fn intern_instructions(&mut self, calldata: Vec<u8>) -> (r: u32)
        requires
            old(self)@.len() < u32::MAX,
        ensures
            final(self)@ == old(self)@.push(calldata@),
            r == old(self)@.len(),
    {
        let r = self.instructions.len() as u32;
        self.instructions.push(calldata);
        assert(self@ =~= old(self)@.push(calldata@));
        r
    }

    pub fn len(&self) -> (r: usize)
        ensures
            r == self@.len(),
    {
        self.instructions.len()
    }

    /// The blob at `index`; `InvalidInstructionsIndex` past the end.
    pub fn get(&self, index: usize) -> (r: VMResult<&[u8]>)
        ensures
            index < self@.len() ==> (r matches Ok(b) && b@ == self@[index as int]),
            index >= self@.len() ==> (r matches Err(e) && e == VMError::InvalidInstructionsIndex(
                index,
            )),
    {
        if index < self.instructions.len() {
            Ok(self.instructions[index].as_slice())
        } else {
            Err(VMError::InvalidInstructionsIndex(index))
        }
    }
}

} // verus!
