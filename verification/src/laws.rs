//! Cross-cutting laws of the assembler and disassembler.
//!
//! The general source/bytecode round trip does not hold for every accepted
//! program: a `PUSH_CALLDATA [ … ]` block is deliberately rendered without
//! its opening bracket, so its disassembly is not re-assemblable, and
//! numeric operands re-render canonically. What is proved here is the round
//! trip for programs built from the one-token mnemonics: disassembling
//! their assembly yields the source back in canonical single-space form.

use vstd::prelude::*;

use crate::assembler::{
    plain_opcode, spec_asm, spec_assemble, spec_is_space, spec_tokenize, token_end, AsmState,
};
use crate::disassembler::{opcode_text, spec_disasm, spec_disassemble, trim_last};
use crate::errors::VMError;

verus! {

/// Every token is a one-token mnemonic.
pub open spec fn all_plain(ts: Seq<Seq<char>>) -> bool {
    forall|i: int| 0 <= i < ts.len() ==> plain_opcode(#[trigger] ts[i]) is Some
}

/// The opcodes of a plain token sequence, in order.
pub open spec fn plain_code(ts: Seq<Seq<char>>, i: int) -> Seq<u8>
    decreases ts.len() - i,
{
    if i < 0 || i >= ts.len() {
        Seq::empty()
    } else {
        seq![plain_opcode(ts[i])->Some_0] + plain_code(ts, i + 1)
    }
}

/// The tokens joined back together, each with its trailing space.
pub open spec fn joined_sp(ts: Seq<Seq<char>>, i: int) -> Seq<char>
    decreases ts.len() - i,
{
    if i < 0 || i >= ts.len() {
        Seq::empty()
    } else {
        ts[i] + " "@ + joined_sp(ts, i + 1)
    }
}

/// A one-token mnemonic is none of the operand-carrying mnemonics, and its
/// rendering is the token itself plus one space.
proof fn lemma_plain_token(t: Seq<char>)
    requires
        plain_opcode(t) is Some,
    ensures
        t != "PUSH_U32"@,
        t != "PUSH_STRING"@,
        t != "PUSH_STATUS"@,
        t != "PUSH_TASK_FIELD"@,
        t != "IF"@,
        t != "THEN"@,
        t != "PUSH_CALLDATA"@,
        opcode_text(plain_opcode(t)->Some_0) == t + " "@,
        t.len() > 0,
        forall|k: int| 0 <= k < t.len() ==> !spec_is_space(#[trigger] t[k]),
{
    reveal_strlit("PUSH_U32");
    reveal_strlit("PUSH_STRING");
    reveal_strlit("PUSH_STATUS");
    reveal_strlit("PUSH_TASK_FIELD");
    reveal_strlit("IF");
    reveal_strlit("THEN");
    reveal_strlit("PUSH_CALLDATA");
    reveal_strlit("T_CREATE");
    reveal_strlit("T_GET_FIELD");
    reveal_strlit("T_SET_FIELD");
    reveal_strlit("T_DELETE");
    reveal_strlit("S_SAVE");
    reveal_strlit("S_LOAD");
    reveal_strlit("S_LEN");
    reveal_strlit("DO");
    reveal_strlit("LOOP");
    reveal_strlit("LOOP_INDEX");
    reveal_strlit("CALL");
    reveal_strlit("END_CALL");
    reveal_strlit("DROP_IF");
    reveal_strlit("DUP");
    reveal_strlit("SWAP");
    reveal_strlit("EQ");
    reveal_strlit("NEQ");
    reveal_strlit("LT");
    reveal_strlit("GT");
    reveal_strlit("T_CREATE ");
    reveal_strlit("T_GET_FIELD ");
    reveal_strlit("T_SET_FIELD ");
    reveal_strlit("T_DELETE ");
    reveal_strlit("S_SAVE ");
    reveal_strlit("S_LOAD ");
    reveal_strlit("S_LEN ");
    reveal_strlit("DO ");
    reveal_strlit("LOOP ");
    reveal_strlit("LOOP_INDEX ");
    reveal_strlit("CALL ");
    reveal_strlit("END_CALL ");
    reveal_strlit("DROP_IF ");
    reveal_strlit("DUP ");
    reveal_strlit("SWAP ");
    reveal_strlit("EQ ");
    reveal_strlit("NEQ ");
    reveal_strlit("LT ");
    reveal_strlit("GT ");
    reveal_strlit(" ");
    if t == "T_CREATE"@ {
        assert(t[0] == 'T' && "PUSH_U32"@[0] == 'P');
        assert(opcode_text(crate::opcodes::T_CREATE) =~= t + " "@);
    } else if t == "T_GET_FIELD"@ {
        assert(t[0] == 'T' && "PUSH_STRING"@[0] == 'P' && "PUSH_STATUS"@[0] == 'P');
        assert(opcode_text(crate::opcodes::T_GET_FIELD) =~= t + " "@);
    } else if t == "T_SET_FIELD"@ {
        assert(t[0] == 'T' && "PUSH_STRING"@[0] == 'P' && "PUSH_STATUS"@[0] == 'P');
        assert(opcode_text(crate::opcodes::T_SET_FIELD) =~= t + " "@);
    } else if t == "T_DELETE"@ {
        assert(t[0] == 'T' && "PUSH_U32"@[0] == 'P');
        assert(opcode_text(crate::opcodes::T_DELETE) =~= t + " "@);
    } else if t == "S_SAVE"@ {
        assert(opcode_text(crate::opcodes::S_SAVE) =~= t + " "@);
    } else if t == "S_LOAD"@ {
        assert(opcode_text(crate::opcodes::S_LOAD) =~= t + " "@);
    } else if t == "S_LEN"@ {
        assert(opcode_text(crate::opcodes::S_LEN) =~= t + " "@);
    } else if t == "DO"@ {
        assert(t[0] == 'D' && "IF"@[0] == 'I');
        assert(opcode_text(crate::opcodes::DO) =~= t + " "@);
    } else if t == "LOOP"@ {
        assert(t[0] == 'L' && "THEN"@[0] == 'T');
        assert(opcode_text(crate::opcodes::LOOP) =~= t + " "@);
    } else if t == "LOOP_INDEX"@ {
        assert(opcode_text(crate::opcodes::LOOP_INDEX) =~= t + " "@);
    } else if t == "CALL"@ {
        assert(t[0] == 'C' && "THEN"@[0] == 'T');
        assert(opcode_text(crate::opcodes::CALL) =~= t + " "@);
    } else if t == "END_CALL"@ {
        assert(t[0] == 'E' && "PUSH_U32"@[0] == 'P');
        assert(opcode_text(crate::opcodes::END_CALL) =~= t + " "@);
    } else if t == "DROP_IF"@ {
        assert(opcode_text(crate::opcodes::DROP_IF) =~= t + " "@);
    } else if t == "DUP"@ {
        assert(opcode_text(crate::opcodes::DUP) =~= t + " "@);
    } else if t == "SWAP"@ {
        assert(t[0] == 'S' && "THEN"@[0] == 'T');
        assert(opcode_text(crate::opcodes::SWAP) =~= t + " "@);
    } else if t == "EQ"@ {
        assert(t[0] == 'E' && "IF"@[0] == 'I');
        assert(opcode_text(crate::opcodes::EQ) =~= t + " "@);
    } else if t == "NEQ"@ {
        assert(opcode_text(crate::opcodes::NEQ) =~= t + " "@);
    } else if t == "LT"@ {
        assert(t[0] == 'L' && "IF"@[0] == 'I');
        assert(opcode_text(crate::opcodes::LT) =~= t + " "@);
    } else {
        assert(t == "GT"@);
        assert(t[0] == 'G' && "IF"@[0] == 'I');
        assert(opcode_text(crate::opcodes::GT) =~= t + " "@);
    }
}

/// Assembling plain tokens appends exactly one opcode per token and leaves
/// the pools and the patch stack alone.
proof fn lemma_asm_plain(ts: Seq<Seq<char>>, i: int, end: int, base: int, st: AsmState)
    requires
        0 <= i <= end <= ts.len(),
        forall|k: int| i <= k < end ==> plain_opcode(#[trigger] ts[k]) is Some,
        st.jumps.len() == 0,
    ensures
        spec_asm(ts, i, end, base, st) == Ok::<AsmState, crate::assembler::AsmErr>(
            AsmState {
                code: st.code + plain_code(ts.subrange(0, end), i),
                jumps: st.jumps,
                spool: st.spool,
                ipool: st.ipool,
            },
        ),
    decreases end - i,
{
    let tse = ts.subrange(0, end);
    if i >= end {
        assert(plain_code(tse, i) =~= Seq::<u8>::empty());
        assert(st.code + plain_code(tse, i) =~= st.code);
        assert(st == (AsmState {
            code: st.code + plain_code(tse, i),
            jumps: st.jumps,
            spool: st.spool,
            ipool: st.ipool,
        }));
    } else {
        let t = ts[i];
        lemma_plain_token(t);
        let op = plain_opcode(t)->Some_0;
        let st2 = AsmState { code: st.code.push(op), ..st };
        assert(spec_asm(ts, i, end, base, st) == spec_asm(ts, i + 1, end, base, st2));
        lemma_asm_plain(ts, i + 1, end, base, st2);
        assert(tse[i] == t);
        assert(plain_code(tse, i) == seq![op] + plain_code(tse, i + 1));
        assert(st.code.push(op) + plain_code(tse, i + 1) =~= st.code + plain_code(tse, i));
    }
}

/// Whether every byte of `code` is a one-token opcode.
pub open spec fn all_plain_ops(code: Seq<u8>) -> bool {
    forall|i: int|
        0 <= i < code.len() ==> opcode_text(#[trigger] code[i]).len() > 0
}

/// Disassembling one-token opcodes appends one rendered mnemonic per byte.
proof fn lemma_disasm_plain(
    spool: Seq<Seq<char>>,
    ipool: Seq<Seq<u8>>,
    code: Seq<u8>,
    pc: int,
    acc: Seq<char>,
    bound: int,
)
    requires
        0 <= pc <= code.len(),
        0 <= bound,
        all_plain_ops(code),
    ensures
        spec_disasm(spool, ipool, code, pc, Seq::empty(), acc, bound) == Ok::<Seq<char>, VMError>(
            acc + plain_texts(code, pc),
        ),
    decreases code.len() - pc,
{
    if pc >= code.len() {
        assert(acc + plain_texts(code, pc) =~= acc);
    } else {
        let op = code[pc];
        assert(opcode_text(op).len() > 0);
        // an operand-carrying or unknown opcode would render as empty text
        assert(op != crate::opcodes::PUSH_U32 && op != crate::opcodes::PUSH_STRING && op
            != crate::opcodes::PUSH_STATUS && op != crate::opcodes::PUSH_TASK_FIELD && op
            != crate::opcodes::PUSH_CALLDATA && op != crate::opcodes::JUMP_IF_FALSE);
        lemma_disasm_plain(spool, ipool, code, pc + 1, acc + opcode_text(op), bound);
        assert((acc + opcode_text(op)) + plain_texts(code, pc + 1) =~= acc + plain_texts(
            code,
            pc,
        ));
    }
}

/// The rendered mnemonics of `code[i ..]`, concatenated.
pub open spec fn plain_texts(code: Seq<u8>, i: int) -> Seq<char>
    decreases code.len() - i,
{
    if i < 0 || i >= code.len() {
        Seq::empty()
    } else {
        opcode_text(code[i]) + plain_texts(code, i + 1)
    }
}

proof fn lemma_plain_texts_join(ts: Seq<Seq<char>>, i: int)
    requires
        0 <= i <= ts.len(),
        all_plain(ts),
    ensures
        plain_texts(plain_code(ts, 0), i) == joined_sp(ts, i) || plain_code(ts, 0).len()
            != ts.len(),
    decreases ts.len() - i,
{
    lemma_plain_code_len(ts, 0);
    lemma_plain_code_at(ts, 0);
    let code = plain_code(ts, 0);
    if i >= ts.len() {
        assert(plain_texts(code, i) =~= Seq::<char>::empty());
        assert(joined_sp(ts, i) =~= Seq::<char>::empty());
    } else {
        lemma_plain_token(ts[i]);
        lemma_plain_texts_join(ts, i + 1);
        assert(code[i] == plain_opcode(ts[i])->Some_0);
        assert(opcode_text(code[i]) == ts[i] + " "@);
        assert((ts[i] + " "@) + joined_sp(ts, i + 1) =~= ts[i] + " "@ + joined_sp(ts, i + 1));
    }
}

proof fn lemma_plain_code_len(ts: Seq<Seq<char>>, i: int)
    requires
        0 <= i <= ts.len(),
    ensures
        plain_code(ts, i).len() == ts.len() - i,
    decreases ts.len() - i,
{
    if i < ts.len() {
        lemma_plain_code_len(ts, i + 1);
    }
}

proof fn lemma_plain_code_at(ts: Seq<Seq<char>>, i: int)
    requires
        0 <= i <= ts.len(),
    ensures
        forall|k: int|
            i <= k < ts.len() ==> plain_code(ts, i)[k - i] == plain_opcode(#[trigger] ts[k])->Some_0,
    decreases ts.len() - i,
{
    lemma_plain_code_len(ts, i);
    if i < ts.len() {
        lemma_plain_code_at(ts, i + 1);
        lemma_plain_code_len(ts, i + 1);
    }
}

/// Scanning a token's end is position-independent.
proof fn lemma_token_end_shift(s: Seq<char>, a: int, b: int)
    requires
        0 <= a,
        0 <= b,
        a + b <= s.len(),
    ensures
        token_end(s, a + b) == a + token_end(s.skip(a), b),
    decreases s.len() - (a + b),
{
    let r = s.skip(a);
    if a + b < s.len() {
        assert(r[b] == s[a + b]);
        if !spec_is_space(s[a + b]) {
            lemma_token_end_shift(s, a, b + 1);
        }
    }
}

/// Tokenization is position-independent: the tokens from position `a + b`
/// are the tokens of the suffix from `a`, read from `b`.
proof fn lemma_tokenize_shift(s: Seq<char>, a: int, b: int)
    requires
        0 <= a,
        0 <= b,
        a + b <= s.len(),
    ensures
        spec_tokenize(s, a + b) == spec_tokenize(s.skip(a), b),
    decreases s.len() - (a + b),
{
    let r = s.skip(a);
    if a + b < s.len() {
        assert(r[b] == s[a + b]);
        if spec_is_space(s[a + b]) {
            lemma_tokenize_shift(s, a, b + 1);
        } else {
            lemma_token_end_shift(s, a, b);
            let j = token_end(s, a + b);
            let jr = token_end(r, b);
            assert(j == a + jr);
            crate::assembler::lemma_token_end(s, a + b);
            let j2 = if a + b < j && j <= s.len() {
                j
            } else {
                a + b + 1
            };
            let jr2 = if b < jr && jr <= r.len() {
                jr
            } else {
                b + 1
            };
            assert(j2 == a + jr2);
            assert(s.subrange(a + b, j2) =~= r.subrange(b, jr2));
            lemma_tokenize_shift(s, a, jr2);
        }
    }
}

/// Tokenizing space-free tokens joined by single spaces gives the tokens
/// back, whether or not the one trailing space is still there.
proof fn lemma_tokenize_joined(ts: Seq<Seq<char>>, i: int)
    requires
        0 <= i <= ts.len(),
        all_plain(ts),
    ensures
        spec_tokenize(joined_sp(ts, i), 0) == ts.skip(i),
        spec_tokenize(trim_last(joined_sp(ts, i)), 0) == ts.skip(i),
    decreases ts.len() - i,
{
    reveal_strlit(" ");
    if i >= ts.len() {
        assert(joined_sp(ts, i) =~= Seq::<char>::empty());
        assert(ts.skip(i) =~= Seq::<Seq<char>>::empty());
    } else {
        let t = ts[i];
        lemma_plain_token(t);
        lemma_tokenize_joined(ts, i + 1);
        let s = joined_sp(ts, i);
        let n = t.len() as int;
        assert(s =~= (t + " "@) + joined_sp(ts, i + 1));
        assert(forall|k: int| 0 <= k < n ==> s[k] == t[k]);
        assert(s[n] == ' ');
        assert(spec_is_space(' '));
        crate::assembler::lemma_token_end_is(s, 0, n);
        assert(!spec_is_space(s[0]));
        assert(s.subrange(0, n) =~= t);
        // the token runs to the separator; the rest is the remaining join
        assert(spec_tokenize(s, 0) == seq![t] + spec_tokenize(s, n));
        assert(spec_tokenize(s, n) == spec_tokenize(s, n + 1));
        lemma_tokenize_shift(s, n + 1, 0);
        assert(s.skip(n + 1) =~= joined_sp(ts, i + 1));
        assert(seq![t] + ts.skip(i + 1) =~= ts.skip(i));
        // the same walk with the final separator trimmed
        let st = trim_last(s);
        assert(joined_sp(ts, i + 1).len() >= 0);
        if i + 1 == ts.len() {
            assert(joined_sp(ts, i + 1) =~= Seq::<char>::empty());
            assert(st =~= t);
            crate::assembler::lemma_token_end_is(st, 0, n);
            assert(st.subrange(0, n) =~= t);
            assert(spec_tokenize(st, 0) == seq![t] + spec_tokenize(st, n));
            assert(spec_tokenize(st, n) =~= Seq::<Seq<char>>::empty());
            assert(seq![t] + Seq::<Seq<char>>::empty() =~= ts.skip(i));
        } else {
            lemma_plain_token(ts[i + 1]);
            assert(joined_sp(ts, i + 1).len() > 0);
            assert(st =~= (t + " "@) + trim_last(joined_sp(ts, i + 1)));
            assert(forall|k: int| 0 <= k < n ==> st[k] == t[k]);
            assert(st[n] == ' ');
            crate::assembler::lemma_token_end_is(st, 0, n);
            assert(st.subrange(0, n) =~= t);
            assert(spec_tokenize(st, 0) == seq![t] + spec_tokenize(st, n));
            assert(spec_tokenize(st, n) == spec_tokenize(st, n + 1));
            lemma_tokenize_shift(st, n + 1, 0);
            assert(st.skip(n + 1) =~= trim_last(joined_sp(ts, i + 1)));
        }
    }
}

/// Byte-level round trip for operand-free programs: re-assembling the
/// canonical disassembly yields the same bytecode, over any pools.
pub proof fn lemma_reassemble_plain(
    ts: Seq<Seq<char>>,
    spool: Seq<Seq<char>>,
    ipool: Seq<Seq<u8>>,
)
    requires
        all_plain(ts),
    ensures
        ({
            let r = spec_assemble(trim_last(joined_sp(ts, 0)), spool, ipool);
            r matches Ok(a) && a.code == plain_code(ts, 0) && a.spool == spool && a.ipool == ipool
        }),
{
    lemma_tokenize_joined(ts, 0);
    assert(ts.skip(0) =~= ts);
    let st = AsmState { code: Seq::empty(), jumps: Seq::empty(), spool, ipool };
    lemma_asm_plain(ts, 0, ts.len() as int, 0, st);
    assert(ts.subrange(0, ts.len() as int) =~= ts);
    assert(st.code + plain_code(ts, 0) =~= plain_code(ts, 0));
}

/// Round trip for operand-free programs: assembling a sequence of one-token
/// mnemonics and disassembling the resulting bytecode yields the source
/// back in canonical single-space form (the joined tokens, with the one
/// trailing space trimmed), with the pools untouched.
pub proof fn lemma_round_trip_plain(
    ts: Seq<Seq<char>>,
    spool: Seq<Seq<char>>,
    ipool: Seq<Seq<u8>>,
    st: AsmState,
)
    requires
        all_plain(ts),
        st.code == Seq::<u8>::empty(),
        st.jumps == Seq::<u32>::empty(),
        st.spool == spool,
        st.ipool == ipool,
    ensures
        ({
            let r = spec_asm(ts, 0, ts.len() as int, 0, st);
            r matches Ok(a) && a.spool == spool && a.ipool == ipool && spec_disassemble(
                spool,
                ipool,
                a.code,
                ipool.len() as int,
            ) == Ok::<Seq<char>, VMError>(trim_last(joined_sp(ts, 0)))
        }),
{
    lemma_asm_plain(ts, 0, ts.len() as int, 0, st);
    assert(ts.subrange(0, ts.len() as int) =~= ts);
    let code = plain_code(ts, 0);
    assert(st.code + code =~= code);
    lemma_plain_code_len(ts, 0);
    lemma_plain_code_at(ts, 0);
    assert forall|i: int| 0 <= i < code.len() implies opcode_text(#[trigger] code[i]).len() > 0 by {
        assert(code.len() == ts.len());
        assert(i < ts.len());
        assert(plain_opcode(ts[i]) is Some);
        lemma_plain_token(ts[i]);
        assert(code[i] == plain_opcode(ts[i])->Some_0);
        assert(opcode_text(code[i]) == ts[i] + " "@);
        reveal_strlit(" ");
        assert((ts[i] + " "@).len() == ts[i].len() + 1);
    }
    lemma_disasm_plain(spool, ipool, code, 0, Seq::empty(), ipool.len() as int);
    lemma_plain_texts_join(ts, 0);
    assert(Seq::<char>::empty() + plain_texts(code, 0) =~= plain_texts(code, 0));
}

} // verus!
