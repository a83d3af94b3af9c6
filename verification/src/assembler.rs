//! The assembler: whitespace-separated mnemonic source to bytecode.
//!
//! Tokenization splits on runs of ASCII whitespace. Each mnemonic is
//! encoded per the opcode table; `PUSH_CALLDATA [ … ]` bodies are assembled
//! recursively into the instructions pool; `IF`/`THEN` compiles to a
//! forward `JUMP_IF_FALSE` patched back through a bounded stack.

use vstd::prelude::*;

use crate::errors::{VMError, VMResult};
use crate::helpers::spec_u32_be_bytes;
use crate::inlinevec::InlineVec;
use crate::opcodes::{
    CALL, DO, DROP_IF, DUP, END_CALL, EQ, GT, JUMP_IF_FALSE, LOOP, LOOP_INDEX, LT, NEQ,
    PUSH_CALLDATA, PUSH_STATUS, PUSH_STRING, PUSH_TASK_FIELD, PUSH_U32, S_LEN, S_LOAD, S_SAVE,
    SWAP, T_CREATE, T_DELETE, T_GET_FIELD, T_SET_FIELD,
};
use vstd::pervasive::VecAdditionalExecFns;

use crate::pools::{spec_intern, InstructionsPool, StringPool};
use crate::text::{parse_u32, spec_parse_u32, str_eq};

verus! {

/// ASCII whitespace: the token separators of the source language.
pub open spec fn spec_is_space(c: char) -> bool {
    c == ' ' || c == '\t' || c == '\n' || c == '\r' || c == '\u{000c}'
}

fn is_space(c: char) -> (r: bool)
    ensures
        r == spec_is_space(c),
{
    c == ' ' || c == '\t' || c == '\n' || c == '\r' || c == '\u{000c}'
}

/// The position just past the token starting at `i`: the first index at or
/// after `i` holding whitespace, or the end.
pub open spec fn token_end(s: Seq<char>, i: int) -> int
    decreases s.len() - i,
{
    if i < 0 || i >= s.len() || spec_is_space(s[i]) {
        i
    } else {
        token_end(s, i + 1)
    }
}

pub proof fn lemma_token_end(s: Seq<char>, i: int)
    requires
        0 <= i <= s.len(),
    ensures
        i <= token_end(s, i) <= s.len(),
        forall|k: int| i <= k < token_end(s, i) ==> !spec_is_space(s[k]),
        token_end(s, i) == s.len() || spec_is_space(s[token_end(s, i)]),
    decreases s.len() - i,
{
    if i < s.len() && !spec_is_space(s[i]) {
        lemma_token_end(s, i + 1);
    }
}

/// The inclusive scan stops exactly where the non-space run ends.
pub proof fn lemma_token_end_is(s: Seq<char>, i: int, j: int)
    requires
        0 <= i <= j <= s.len(),
        forall|k: int| i <= k < j ==> !spec_is_space(s[k]),
        j == s.len() || spec_is_space(s[j]),
    ensures
        token_end(s, i) == j,
    decreases j - i,
{
    if i < j {
        lemma_token_end_is(s, i + 1, j);
    }
}

/// The tokens of `s[i ..]`: maximal runs of non-whitespace characters.
pub open spec fn spec_tokenize(s: Seq<char>, i: int) -> Seq<Seq<char>>
    decreases s.len() - i,
{
    if i < 0 || i >= s.len() {
        Seq::empty()
    } else if spec_is_space(s[i]) {
        spec_tokenize(s, i + 1)
    } else {
        let j = token_end(s, i);
        let j2 = if i < j && j <= s.len() {
            j
        } else {
            i + 1
        };
        seq![s.subrange(i, j2)] + spec_tokenize(s, j2)
    }
}

/// There are never more tokens than characters.
pub proof fn lemma_tokenize_count(s: Seq<char>, i: int)
    requires
        0 <= i <= s.len(),
    ensures
        spec_tokenize(s, i).len() <= s.len() - i,
    decreases s.len() - i,
{
    if i < s.len() {
        if spec_is_space(s[i]) {
            lemma_tokenize_count(s, i + 1);
        } else {
            lemma_token_end(s, i);
            let j = token_end(s, i);
            let j2 = if i < j && j <= s.len() {
                j
            } else {
                i + 1
            };
            lemma_tokenize_count(s, j2);
        }
    }
}

/// Split `src` into its whitespace-separated tokens.
pub fn tokenize(src: &str) -> (r: Vec<String>)
    ensures
        r.deep_view() == spec_tokenize(src@, 0),
        r.deep_view().len() <= src@.len(),
{
    let n = src.unicode_len();
    let mut toks: Vec<String> = Vec::new();
    let mut i: usize = 0;
    proof {
        lemma_tokenize_count(src@, 0);
        assert(toks.deep_view() + spec_tokenize(src@, 0) =~= spec_tokenize(src@, 0));
    }
    while i < n
        invariant
            n == src@.len(),
            i <= n,
            spec_tokenize(src@, 0) == toks.deep_view() + spec_tokenize(src@, i as int),
        decreases n - i,
    {
        let c = src.get_char(i);
        if is_space(c) {
            i += 1;
        } else {
            let start = i;
            let mut j = i + 1;
            while j < n && !is_space(src.get_char(j))
                invariant
                    n == src@.len(),
                    start < j <= n,
                    forall|k: int| start <= k < j ==> !spec_is_space(src@[k]),
                decreases n - j,
            {
                j += 1;
            }
            assert(j == n || spec_is_space(src@[j as int]));
            proof {
                lemma_token_end_is(src@, start as int, j as int);
            }
            let tok = src.substring_char(start, j);
            let ghost pre = toks.deep_view();
            toks.push(String::from_str(tok));
            assert(toks.deep_view() =~= pre.push(tok@));
            proof {
                assert(spec_tokenize(src@, start as int) == seq![src@.subrange(
                    start as int,
                    j as int,
                )] + spec_tokenize(src@, j as int));
                assert(pre + (seq![tok@] + spec_tokenize(src@, j as int)) =~= pre.push(tok@)
                    + spec_tokenize(src@, j as int));
            }
            i = j;
        }
    }
    assert(spec_tokenize(src@, n as int) =~= Seq::<Seq<char>>::empty());
    assert(toks.deep_view() =~= toks.deep_view() + Seq::<Seq<char>>::empty());
    proof {
        lemma_tokenize_count(src@, 0);
    }
    toks
}

/// Assembly state: the bytecode built so far, the pending `IF` patch
/// positions, and the two pools.
pub struct AsmState {
    pub code: Seq<u8>,
    pub jumps: Seq<u32>,
    pub spool: Seq<Seq<char>>,
    pub ipool: Seq<Seq<u8>>,
}

/// An assembly failure, with strings as character sequences.
pub enum AsmErr {
    UnexpectedEOI { command: int, context: Seq<char> },
    InvalidUINT { command: int, value: Seq<char> },
    MalformedCalldata { command: int, context: Seq<char> },
    UnknownOpcode { opcode: Seq<char> },
    MalformedIfThen { context: Seq<char> },
    JumpOverflow,
}

/// Whether the reported error `e` is the one the specification names.
pub open spec fn asm_err_matches(e: VMError, a: AsmErr) -> bool {
    match a {
        AsmErr::UnexpectedEOI { command, context } => e matches VMError::UnexpectedEOI {
            command: c,
            context: x,
        } && c == command && x@ == context,
        AsmErr::InvalidUINT { command, value } => e matches VMError::InvalidUINT {
            command: c,
            value: v,
        } && c == command && v@ == value,
        AsmErr::MalformedCalldata { command, context } => e matches VMError::MalformedCalldata {
            command: c,
            context: x,
        } && c == command && x@ == context,
        AsmErr::UnknownOpcode { opcode } => e matches VMError::UnknownOpcode { opcode: o } && o@
            == opcode,
        AsmErr::MalformedIfThen { context } => e matches VMError::MalformedIfThen { context: x }
            && x@ == context,
        AsmErr::JumpOverflow => e == VMError::StackOverflow,
    }
}

/// The index of the `]` closing the bracket opened before `j` (`depth`
/// brackets deep), or -1 when the tokens run out first.
pub open spec fn find_close(toks: Seq<Seq<char>>, j: int, end: int, depth: int) -> int
    decreases end - j,
{
    if j < 0 || j >= end {
        -1
    } else if toks[j] == "]"@ && depth == 1 {
        j
    } else {
        let d = if toks[j] == "["@ {
            depth + 1
        } else if toks[j] == "]"@ {
            depth - 1
        } else {
            depth
        };
        find_close(toks, j + 1, end, d)
    }
}

proof fn lemma_find_close_range(toks: Seq<Seq<char>>, j: int, end: int, depth: int)
    requires
        0 <= j <= end,
    ensures
        find_close(toks, j, end, depth) == -1 || j <= find_close(toks, j, end, depth) < end,
    decreases end - j,
{
    if j < end && !(toks[j] == "]"@ && depth == 1) {
        let d = if toks[j] == "["@ {
            depth + 1
        } else if toks[j] == "]"@ {
            depth - 1
        } else {
            depth
        };
        lemma_find_close_range(toks, j + 1, end, d);
    }
}

/// One-token mnemonics: their opcode, or none.
pub open spec fn plain_opcode(t: Seq<char>) -> Option<u8> {
    if t == "T_CREATE"@ {
        Some(T_CREATE)
    } else if t == "T_GET_FIELD"@ {
        Some(T_GET_FIELD)
    } else if t == "T_SET_FIELD"@ {
        Some(T_SET_FIELD)
    } else if t == "T_DELETE"@ {
        Some(T_DELETE)
    } else if t == "S_SAVE"@ {
        Some(S_SAVE)
    } else if t == "S_LOAD"@ {
        Some(S_LOAD)
    } else if t == "S_LEN"@ {
        Some(S_LEN)
    } else if t == "DO"@ {
        Some(DO)
    } else if t == "LOOP"@ {
        Some(LOOP)
    } else if t == "LOOP_INDEX"@ {
        Some(LOOP_INDEX)
    } else if t == "CALL"@ {
        Some(CALL)
    } else if t == "END_CALL"@ {
        Some(END_CALL)
    } else if t == "DROP_IF"@ {
        Some(DROP_IF)
    } else if t == "DUP"@ {
        Some(DUP)
    } else if t == "SWAP"@ {
        Some(SWAP)
    } else if t == "EQ"@ {
        Some(EQ)
    } else if t == "NEQ"@ {
        Some(NEQ)
    } else if t == "LT"@ {
        Some(LT)
    } else if t == "GT"@ {
        Some(GT)
    } else {
        None
    }
}

/// What assembling `toks[i .. end]` on top of `st` yields. Error positions
/// are reported relative to `base`, the first token of the current body.
pub open spec fn spec_asm(toks: Seq<Seq<char>>, i: int, end: int, base: int, st: AsmState) -> Result<
    AsmState,
    AsmErr,
>
    decreases end - i,
{
    if i < 0 || i >= end {
        if st.jumps.len() > 0 {
            Err(AsmErr::MalformedIfThen { context: "Missing THEN"@ })
        } else {
            Ok(st)
        }
    } else {
        let t = toks[i];
        if t == "PUSH_U32"@ {
            if i + 1 >= end {
                Err(AsmErr::UnexpectedEOI { command: i - base, context: "missing u32"@ })
            } else {
                match spec_parse_u32(toks[i + 1], u32::MAX) {
                    None => Err(
                        AsmErr::InvalidUINT { command: i + 1 - base, value: toks[i + 1] },
                    ),
                    Some(v) => spec_asm(
                        toks,
                        i + 2,
                        end,
                        base,
                        AsmState {
                            code: st.code + seq![PUSH_U32] + spec_u32_be_bytes(v),
                            ..st
                        },
                    ),
                }
            }
        } else if t == "PUSH_STRING"@ {
            if i + 1 >= end {
                Err(AsmErr::UnexpectedEOI { command: i - base, context: "missing String"@ })
            } else {
                let (spool2, idx) = spec_intern(st.spool, toks[i + 1]);
                spec_asm(
                    toks,
                    i + 2,
                    end,
                    base,
                    AsmState {
                        code: st.code + seq![PUSH_STRING] + spec_u32_be_bytes(idx as u32),
                        spool: spool2,
                        ..st
                    },
                )
            }
        } else if t == "PUSH_STATUS"@ {
            if i + 1 >= end {
                Err(AsmErr::UnexpectedEOI { command: i - base, context: "missing Tasks Status"@ })
            } else {
                match spec_parse_u32(toks[i + 1], 255) {
                    None => Err(
                        AsmErr::InvalidUINT { command: i + 1 - base, value: toks[i + 1] },
                    ),
                    Some(v) => spec_asm(
                        toks,
                        i + 2,
                        end,
                        base,
                        AsmState { code: st.code + seq![PUSH_STATUS, v as u8], ..st },
                    ),
                }
            }
        } else if t == "PUSH_TASK_FIELD"@ {
            if i + 1 >= end {
                Err(AsmErr::UnexpectedEOI { command: i - base, context: "missing Tasks Field"@ })
            } else {
                match spec_parse_u32(toks[i + 1], 255) {
                    None => Err(
                        AsmErr::InvalidUINT { command: i + 1 - base, value: toks[i + 1] },
                    ),
                    Some(v) => spec_asm(
                        toks,
                        i + 2,
                        end,
                        base,
                        AsmState { code: st.code + seq![PUSH_TASK_FIELD, v as u8], ..st },
                    ),
                }
            }
        } else if t == "IF"@ {
            if st.jumps.len() >= 2 {
                Err(AsmErr::JumpOverflow)
            } else {
                spec_asm(
                    toks,
                    i + 1,
                    end,
                    base,
                    AsmState {
                        code: st.code + seq![JUMP_IF_FALSE, 0u8, 0u8, 0u8, 0u8],
                        jumps: st.jumps.push((st.code.len() + 1) as u32),
                        ..st
                    },
                )
            }
        } else if t == "THEN"@ {
            if st.jumps.len() == 0 {
                Err(AsmErr::MalformedIfThen { context: "Missing IF"@ })
            } else {
                let jd = st.jumps.last() as int;
                let bs = spec_u32_be_bytes(st.code.len() as u32);
                spec_asm(
                    toks,
                    i + 1,
                    end,
                    base,
                    AsmState {
                        code: st.code.update(jd, bs[0]).update(jd + 1, bs[1]).update(
                            jd + 2,
                            bs[2],
                        ).update(jd + 3, bs[3]),
                        jumps: st.jumps.drop_last(),
                        ..st
                    },
                )
            }
        } else if t == "PUSH_CALLDATA"@ {
            if i + 1 >= end {
                Err(AsmErr::UnexpectedEOI { command: i - base, context: "empty calldata"@ })
            } else if toks[i + 1] != "["@ {
                Err(
                    AsmErr::MalformedCalldata {
                        command: i - base,
                        context: "expected [ after PUSH_CALLDATA"@,
                    },
                )
            } else {
                let k = find_close(toks, i + 2, end, 1);
                if k < i + 2 || k >= end {
                    Err(AsmErr::UnexpectedEOI { command: i - base, context: "missing closing ]"@ })
                } else if k == i + 2 {
                    // an empty body interns an empty blob
                    let idx = st.ipool.len();
                    spec_asm(
                        toks,
                        k + 1,
                        end,
                        base,
                        AsmState {
                            code: st.code + seq![PUSH_CALLDATA] + spec_u32_be_bytes(idx as u32),
                            ipool: st.ipool.push(Seq::empty()),
                            ..st
                        },
                    )
                } else {
                    match spec_asm(
                        toks,
                        i + 2,
                        k,
                        i + 2,
                        AsmState {
                            code: Seq::empty(),
                            jumps: Seq::empty(),
                            spool: st.spool,
                            ipool: st.ipool,
                        },
                    ) {
                        Err(e) => Err(e),
                        Ok(inner) => {
                            let idx = inner.ipool.len();
                            spec_asm(
                                toks,
                                k + 1,
                                end,
                                base,
                                AsmState {
                                    code: st.code + seq![PUSH_CALLDATA] + spec_u32_be_bytes(
                                        idx as u32,
                                    ),
                                    jumps: st.jumps,
                                    spool: inner.spool,
                                    ipool: inner.ipool.push(inner.code),
                                },
                            )
                        },
                    }
                }
            }
        } else {
            match plain_opcode(t) {
                Some(op) => spec_asm(
                    toks,
                    i + 1,
                    end,
                    base,
                    AsmState { code: st.code.push(op), ..st },
                ),
                None => Err(AsmErr::UnknownOpcode { opcode: t }),
            }
        }
    }
}

/// Longest accepted source text, so that every pool index and every jump
/// target fits in the 32-bit operands of the bytecode.
pub const MAX_SOURCE_LEN: usize = 0x0400_0000;

/// Overwrite `code[pos .. pos + 4]` with the big-endian bytes of `n`.
fn patch_u32_be(code: &mut Vec<u8>, pos: usize, n: u32)
    requires
        pos + 4 <= old(code)@.len(),
    ensures
        final(code)@ == old(code)@.update(pos as int, spec_u32_be_bytes(n)[0]).update(
            pos + 1,
            spec_u32_be_bytes(n)[1],
        ).update(pos + 2, spec_u32_be_bytes(n)[2]).update(pos + 3, spec_u32_be_bytes(n)[3]),
{
    let len = code.len();
    assert(pos + 4 <= len);
    code.set(pos, #[verifier::truncate] ((n >> 24) as u8));
    code.set(pos + 1, #[verifier::truncate] (((n >> 16) & 0xff) as u8));
    code.set(pos + 2, #[verifier::truncate] (((n >> 8) & 0xff) as u8));
    code.set(pos + 3, #[verifier::truncate] ((n & 0xff) as u8));
}

/// Scan for the `]` that closes the bracket opened just before `j`.
fn find_close_exec(toks: &Vec<String>, j: usize, end: usize) -> (r: Option<usize>)
    requires
        j <= end <= toks@.len(),
        end <= MAX_SOURCE_LEN,
    ensures
        match r {
            Some(k) => j <= k < end && find_close(toks.deep_view(), j as int, end as int, 1) == k,
            None => find_close(toks.deep_view(), j as int, end as int, 1) == -1,
        },
{
    let ghost tv = toks.deep_view();
    let mut p = j;
    let mut depth: usize = 1;
    while p < end
        invariant
            j <= p <= end,
            end <= toks@.len(),
            end <= MAX_SOURCE_LEN,
            tv == toks.deep_view(),
            1 <= depth <= p - j + 1,
            find_close(tv, j as int, end as int, 1) == find_close(
                tv,
                p as int,
                end as int,
                depth as int,
            ),
        decreases end - p,
    {
        assert(tv[p as int] == toks@[p as int]@);
        let is_close = str_eq(toks[p].as_str(), "]");
        if is_close && depth == 1 {
            assert(find_close(tv, p as int, end as int, depth as int) == p as int);
            return Some(p);
        }
        let is_open = str_eq(toks[p].as_str(), "[");
        let ghost d_next: int = if tv[p as int] == "["@ {
            depth + 1
        } else if tv[p as int] == "]"@ {
            depth - 1
        } else {
            depth as int
        };
        assert(find_close(tv, p as int, end as int, depth as int) == find_close(
            tv,
            p + 1 as int,
            end as int,
            d_next,
        ));
        if is_open {
            depth += 1;
        } else if is_close {
            assert(depth > 1);
            depth -= 1;
        }
        assert(depth as int == d_next);
        p += 1;
    }
    None
}

/// Assemble `toks[start .. end]` into fresh bytecode on top of the pools.
/// Error positions are reported relative to `base`.
fn assemble_tokens(
    toks: &Vec<String>,
    start: usize,
    end: usize,
    base: usize,
    string_pool: &mut StringPool,
    instructions_pool: &mut InstructionsPool,
) -> (r: VMResult<Vec<u8>>)
    requires
        base <= start <= end <= toks@.len(),
        toks@.len() <= MAX_SOURCE_LEN,
        old(string_pool).wf(),
        old(string_pool)@.len() + (end - start) < u32::MAX,
        old(instructions_pool)@.len() + (end - start) < u32::MAX,
    ensures
        final(string_pool).wf(),
        old(string_pool)@.len() <= final(string_pool)@.len() <= old(string_pool)@.len() + (end
            - start),
        old(instructions_pool)@.len() <= final(instructions_pool)@.len() <= old(
            instructions_pool,
        )@.len() + (end - start),
        final(string_pool)@.subrange(0, old(string_pool)@.len() as int) == old(string_pool)@,
        final(instructions_pool)@.subrange(0, old(instructions_pool)@.len() as int) == old(
            instructions_pool,
        )@,
        match spec_asm(
            toks.deep_view(),
            start as int,
            end as int,
            base as int,
            AsmState {
                code: Seq::empty(),
                jumps: Seq::empty(),
                spool: old(string_pool)@,
                ipool: old(instructions_pool)@,
            },
        ) {
            Ok(st) => r matches Ok(code) && code@ == st.code && final(string_pool)@ == st.spool
                && final(instructions_pool)@ == st.ipool,
            Err(a) => r matches Err(e) && asm_err_matches(e, a),
        },
    decreases end - start,
{
    let ghost tv = toks.deep_view();
    let ghost init = AsmState {
        code: Seq::empty(),
        jumps: Seq::empty(),
        spool: old(string_pool)@,
        ipool: old(instructions_pool)@,
    };
    let mut code: Vec<u8> = Vec::new();
    let mut jumps: InlineVec<u32, 2> = InlineVec::new();
    let mut i: usize = start;
    while i < end
        invariant
            base <= start <= i <= end <= toks@.len(),
            toks@.len() <= MAX_SOURCE_LEN,
            tv == toks.deep_view(),
            init == (AsmState {
                code: Seq::empty(),
                jumps: Seq::empty(),
                spool: old(string_pool)@,
                ipool: old(instructions_pool)@,
            }),
            string_pool.wf(),
            old(string_pool)@.len() <= string_pool@.len() <= old(string_pool)@.len() + (i
                - start),
            old(instructions_pool)@.len() <= instructions_pool@.len() <= old(
                instructions_pool,
            )@.len() + (i - start),
            string_pool@.subrange(0, old(string_pool)@.len() as int) == old(string_pool)@,
            instructions_pool@.subrange(0, old(instructions_pool)@.len() as int) == old(
                instructions_pool,
            )@,
            old(string_pool)@.len() + (end - start) < u32::MAX,
            old(instructions_pool)@.len() + (end - start) < u32::MAX,
            code@.len() <= 5 * (i - start),
            jumps.wf(),
            forall|k: int| 0 <= k < jumps@.len() ==> jumps@[k] + 4 <= code@.len(),
            spec_asm(tv, start as int, end as int, base as int, init) == spec_asm(
                tv,
                i as int,
                end as int,
                base as int,
                AsmState {
                    code: code@,
                    jumps: jumps@,
                    spool: string_pool@,
                    ipool: instructions_pool@,
                },
            ),
        decreases end - i,
    {
        let ghost cur = AsmState {
            code: code@,
            jumps: jumps@,
            spool: string_pool@,
            ipool: instructions_pool@,
        };
        assert(tv[i as int] == toks@[i as int]@);
        let tok = &toks[i];
        if str_eq(tok.as_str(), "PUSH_U32") {
            if i + 1 >= end {
                return Err(VMError::UnexpectedEOI { command: i - base, context: "missing u32" });
            }
            assert(tv[i + 1] == toks@[i + 1 as int]@);
            match parse_u32(toks[i + 1].as_str(), u32::MAX) {
                None => {
                    return Err(
                        VMError::InvalidUINT { command: i + 1 - base, value: toks[i + 1].clone() },
                    );
                },
                Some(v) => {
                    code.push(PUSH_U32);
                    crate::helpers::extend_u32_be(&mut code, v);
                    assert(code@ =~= cur.code + seq![PUSH_U32] + spec_u32_be_bytes(v));
                    i += 2;
                },
            }
        } else if str_eq(tok.as_str(), "PUSH_STRING") {
            if i + 1 >= end {
                return Err(
                    VMError::UnexpectedEOI { command: i - base, context: "missing String" },
                );
            }
            assert(tv[i + 1] == toks@[i + 1 as int]@);
            let idx = string_pool.intern_string(toks[i + 1].clone());
            code.push(PUSH_STRING);
            crate::helpers::extend_u32_be(&mut code, idx);
            assert(code@ =~= cur.code + seq![PUSH_STRING] + spec_u32_be_bytes(idx));
            i += 2;
        } else if str_eq(tok.as_str(), "PUSH_STATUS") {
            if i + 1 >= end {
                return Err(
                    VMError::UnexpectedEOI { command: i - base, context: "missing Tasks Status" },
                );
            }
            assert(tv[i + 1] == toks@[i + 1 as int]@);
            match parse_u32(toks[i + 1].as_str(), 255) {
                None => {
                    return Err(
                        VMError::InvalidUINT { command: i + 1 - base, value: toks[i + 1].clone() },
                    );
                },
                Some(v) => {
                    code.push(PUSH_STATUS);
                    code.push(v as u8);
                    assert(code@ =~= cur.code + seq![PUSH_STATUS, v as u8]);
                    i += 2;
                },
            }
        } else if str_eq(tok.as_str(), "PUSH_TASK_FIELD") {
            if i + 1 >= end {
                return Err(
                    VMError::UnexpectedEOI { command: i - base, context: "missing Tasks Field" },
                );
            }
            assert(tv[i + 1] == toks@[i + 1 as int]@);
            match parse_u32(toks[i + 1].as_str(), 255) {
                None => {
                    return Err(
                        VMError::InvalidUINT { command: i + 1 - base, value: toks[i + 1].clone() },
                    );
                },
                Some(v) => {
                    code.push(PUSH_TASK_FIELD);
                    code.push(v as u8);
                    assert(code@ =~= cur.code + seq![PUSH_TASK_FIELD, v as u8]);
                    i += 2;
                },
            }
        } else if str_eq(tok.as_str(), "IF") {
            let jd = code.len() + 1;
            match jumps.push(jd as u32) {
                Err(e) => {
                    return Err(e);
                },
                Ok(()) => {},
            }
            code.push(JUMP_IF_FALSE);
            code.push(0u8);
            code.push(0u8);
            code.push(0u8);
            code.push(0u8);
            assert(code@ =~= cur.code + seq![JUMP_IF_FALSE, 0u8, 0u8, 0u8, 0u8]);
            i += 1;
        } else if str_eq(tok.as_str(), "THEN") {
            match jumps.pop() {
                Err(_) => {
                    return Err(VMError::MalformedIfThen { context: "Missing IF" });
                },
                Ok(jd) => {
                    let dest = code.len() as u32;
                    patch_u32_be(&mut code, jd as usize, dest);
                    i += 1;
                },
            }
        } else if str_eq(tok.as_str(), "PUSH_CALLDATA") {
            if i + 1 >= end {
                return Err(
                    VMError::UnexpectedEOI { command: i - base, context: "empty calldata" },
                );
            }
            assert(tv[i + 1] == toks@[i + 1 as int]@);
            if !str_eq(toks[i + 1].as_str(), "[") {
                return Err(
                    VMError::MalformedCalldata {
                        command: i - base,
                        context: "expected [ after PUSH_CALLDATA",
                    },
                );
            }
            match find_close_exec(toks, i + 2, end) {
                None => {
                    return Err(
                        VMError::UnexpectedEOI { command: i - base, context: "missing closing ]" },
                    );
                },
                Some(k) => {
                    if k == i + 2 {
                        let idx = instructions_pool.intern_instructions(Vec::new());
                        code.push(PUSH_CALLDATA);
                        crate::helpers::extend_u32_be(&mut code, idx);
                        assert(code@ =~= cur.code + seq![PUSH_CALLDATA] + spec_u32_be_bytes(idx));
                        i = k + 1;
                    } else {
                        let inner = assemble_tokens(
                            toks,
                            i + 2,
                            k,
                            i + 2,
                            string_pool,
                            instructions_pool,
                        );
                        match inner {
                            Err(e) => {
                                return Err(e);
                            },
                            Ok(inner_code) => {
                                let idx = instructions_pool.intern_instructions(inner_code);
                                code.push(PUSH_CALLDATA);
                                crate::helpers::extend_u32_be(&mut code, idx);
                                assert(code@ =~= cur.code + seq![PUSH_CALLDATA]
                                    + spec_u32_be_bytes(idx));
                                i = k + 1;
                            },
                        }
                    }
                },
            }
        } else if str_eq(tok.as_str(), "T_CREATE") {
            code.push(T_CREATE);
            i += 1;
        } else if str_eq(tok.as_str(), "T_GET_FIELD") {
            code.push(T_GET_FIELD);
            i += 1;
        } else if str_eq(tok.as_str(), "T_SET_FIELD") {
            code.push(T_SET_FIELD);
            i += 1;
        } else if str_eq(tok.as_str(), "T_DELETE") {
            code.push(T_DELETE);
            i += 1;
        } else if str_eq(tok.as_str(), "S_SAVE") {
            code.push(S_SAVE);
            i += 1;
        } else if str_eq(tok.as_str(), "S_LOAD") {
            code.push(S_LOAD);
            i += 1;
        } else if str_eq(tok.as_str(), "S_LEN") {
            code.push(S_LEN);
            i += 1;
        } else if str_eq(tok.as_str(), "DO") {
            code.push(DO);
            i += 1;
        } else if str_eq(tok.as_str(), "LOOP") {
            code.push(LOOP);
            i += 1;
        } else if str_eq(tok.as_str(), "LOOP_INDEX") {
            code.push(LOOP_INDEX);
            i += 1;
        } else if str_eq(tok.as_str(), "CALL") {
            code.push(CALL);
            i += 1;
        } else if str_eq(tok.as_str(), "END_CALL") {
            code.push(END_CALL);
            i += 1;
        } else if str_eq(tok.as_str(), "DROP_IF") {
            code.push(DROP_IF);
            i += 1;
        } else if str_eq(tok.as_str(), "DUP") {
            code.push(DUP);
            i += 1;
        } else if str_eq(tok.as_str(), "SWAP") {
            code.push(SWAP);
            i += 1;
        } else if str_eq(tok.as_str(), "EQ") {
            code.push(EQ);
            i += 1;
        } else if str_eq(tok.as_str(), "NEQ") {
            code.push(NEQ);
            i += 1;
        } else if str_eq(tok.as_str(), "LT") {
            code.push(LT);
            i += 1;
        } else if str_eq(tok.as_str(), "GT") {
            code.push(GT);
            i += 1;
        } else {
            return Err(VMError::UnknownOpcode { opcode: tok.clone() });
        }
    }
    if !jumps.is_empty() {
        return Err(VMError::MalformedIfThen { context: "Missing THEN" });
    }
    Ok(code)
}

/// What assembling the source text `s` yields on top of the given pools.
pub open spec fn spec_assemble(s: Seq<char>, spool: Seq<Seq<char>>, ipool: Seq<Seq<u8>>) -> Result<
    AsmState,
    AsmErr,
> {
    let toks = spec_tokenize(s, 0);
    spec_asm(
        toks,
        0,
        toks.len() as int,
        0,
        AsmState { code: Seq::empty(), jumps: Seq::empty(), spool, ipool },
    )
}

/// Assemble mnemonic source into bytecode, interning strings and nested
/// calldata bodies into the pools as a side effect. The bytecode of the
/// source itself is returned, not interned.
pub fn assemble(
    src: &str,
    string_pool: &mut StringPool,
    instructions_pool: &mut InstructionsPool,
) -> (r: VMResult<Vec<u8>>)
    requires
        src@.len() <= MAX_SOURCE_LEN,
        old(string_pool).wf(),
        old(string_pool)@.len() + src@.len() < u32::MAX,
        old(instructions_pool)@.len() + src@.len() < u32::MAX,
    ensures
        final(string_pool).wf(),
        old(string_pool)@.len() <= final(string_pool)@.len() <= old(string_pool)@.len()
            + src@.len(),
        old(instructions_pool)@.len() <= final(instructions_pool)@.len() <= old(
            instructions_pool,
        )@.len() + src@.len(),
        final(string_pool)@.subrange(0, old(string_pool)@.len() as int) == old(string_pool)@,
        final(instructions_pool)@.subrange(0, old(instructions_pool)@.len() as int) == old(
            instructions_pool,
        )@,
        match spec_assemble(src@, old(string_pool)@, old(instructions_pool)@) {
            Ok(st) => r matches Ok(code) && code@ == st.code && final(string_pool)@ == st.spool
                && final(instructions_pool)@ == st.ipool,
            Err(a) => r matches Err(e) && asm_err_matches(e, a),
        },
{
    let toks = tokenize(src);
    let n = toks.len();
    assert(toks.deep_view().len() == toks@.len());
    assemble_tokens(&toks, 0, n, 0, string_pool, instructions_pool)
}

} // verus!
