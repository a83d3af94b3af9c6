//! Character-level text utilities shared by the tokenizer, the assembler and
//! the disassembler: string comparison, decimal parsing and rendering.

use vstd::prelude::*;

verus! {

/// Exact string equality, decided character by character.
pub fn str_eq(a: &str, b: &str) -> (r: bool)
    ensures
        r == (a@ == b@),
{
    let alen = a.unicode_len();
    let blen = b.unicode_len();
    if alen != blen {
        assert(a@ != b@);
        return false;
    }
    let mut i: usize = 0;
    while i < alen
        invariant
            alen == a@.len(),
            blen == b@.len(),
            alen == blen,
            i <= alen,
            forall|j: int| 0 <= j < i ==> a@[j] == b@[j],
        decreases alen - i,
    {
        if a.get_char(i) != b.get_char(i) {
            assert(a@ != b@);
            return false;
        }
        i += 1;
    }
    assert(a@ =~= b@);
    true
}

/// The numeric value of a decimal digit character, or none.
pub open spec fn spec_digit(c: char) -> Option<u32> {
    if '0' <= c && c <= '9' {
        Some((c as u32 - '0' as u32) as u32)
    } else {
        None
    }
}

/// The value spelled by the decimal digits of `s`, read from the front with
/// accumulator `acc`; none if `s` is empty, has a non-digit, or the value
/// exceeds `bound`.
pub open spec fn spec_parse_dec(s: Seq<char>, acc: u32, bound: u32) -> Option<u32>
    decreases s.len(),
{
    if s.len() == 0 {
        Some(acc)
    } else {
        match spec_digit(s[0]) {
            None => None,
            Some(d) => {
                if acc > bound / 10 || 10 * (acc as int) > bound - d {
                    None
                } else {
                    spec_parse_dec(s.skip(1), (10 * acc + d) as u32, bound)
                }
            },
        }
    }
}

/// The value of the decimal token `s` when it fits in `bound`; none for an
/// empty token, a non-digit character, or a value above `bound`.
pub open spec fn spec_parse_u32(s: Seq<char>, bound: u32) -> Option<u32> {
    if s.len() == 0 {
        None
    } else {
        spec_parse_dec(s, 0, bound)
    }
}

/// Parse the decimal token `s` as an integer no larger than `bound`.
pub fn parse_u32(s: &str, bound: u32) -> (r: Option<u32>)
    ensures
        r == spec_parse_u32(s@, bound),
{
    let len = s.unicode_len();
    if len == 0 {
        return None;
    }
    let mut acc: u32 = 0;
    let mut i: usize = 0;
    assert(s@.skip(0) =~= s@);
    while i < len
        invariant
            len == s@.len(),
            0 < len,
            i <= len,
            spec_parse_dec(s@, 0, bound) == spec_parse_dec(s@.skip(i as int), acc, bound),
            acc <= bound,
        decreases len - i,
    {
        let ghost rest = s@.skip(i as int);
        let c = s.get_char(i);
        assert(rest[0] == c);
        if c < '0' || c > '9' {
            assert(spec_digit(c) is None);
            assert(spec_parse_dec(rest, acc, bound) is None);
            return None;
        }
        let d = c as u32 - '0' as u32;
        assert(spec_digit(c) == Some(d));
        if acc > bound / 10 {
            assert(spec_parse_dec(rest, acc, bound) is None);
            return None;
        }
        let m = 10 * acc;
        if d > bound || m > bound - d {
            assert(10 * (acc as int) > bound - d);
            assert(spec_parse_dec(rest, acc, bound) is None);
            return None;
        }
        assert(!(acc > bound / 10) && !(10 * (acc as int) > bound - d));
        assert(spec_parse_dec(rest, acc, bound) == spec_parse_dec(
            rest.skip(1),
            (10 * acc + d) as u32,
            bound,
        ));
        acc = m + d;
        i += 1;
        assert(s@.skip(i - 1 as int).skip(1) =~= s@.skip(i as int));
    }
    assert(s@.skip(len as int) =~= Seq::<char>::empty());
    Some(acc)
}

/// The decimal digit character for a value below ten.
pub open spec fn spec_digit_char(d: u32) -> char {
    if d == 0 {
        '0'
    } else if d == 1 {
        '1'
    } else if d == 2 {
        '2'
    } else if d == 3 {
        '3'
    } else if d == 4 {
        '4'
    } else if d == 5 {
        '5'
    } else if d == 6 {
        '6'
    } else if d == 7 {
        '7'
    } else if d == 8 {
        '8'
    } else {
        '9'
    }
}

/// The canonical decimal spelling of `n`, without leading zeros.
pub open spec fn spec_u32_dec(n: u32) -> Seq<char>
    decreases n,
{
    if n < 10 {
        seq![spec_digit_char(n)]
    } else {
        spec_u32_dec(n / 10).push(spec_digit_char(n % 10))
    }
}

fn digit_str(d: u32) -> (r: &'static str)
    requires
        d < 10,
    ensures
        r@ == seq![spec_digit_char(d)],
{
    proof {
        reveal_strlit("0");
        reveal_strlit("1");
        reveal_strlit("2");
        reveal_strlit("3");
        reveal_strlit("4");
        reveal_strlit("5");
        reveal_strlit("6");
        reveal_strlit("7");
        reveal_strlit("8");
        reveal_strlit("9");
    }
    if d == 0 {
        "0"
    } else if d == 1 {
        "1"
    } else if d == 2 {
        "2"
    } else if d == 3 {
        "3"
    } else if d == 4 {
        "4"
    } else if d == 5 {
        "5"
    } else if d == 6 {
        "6"
    } else if d == 7 {
        "7"
    } else if d == 8 {
        "8"
    } else {
        "9"
    }
}

/// The digit character of a value below ten parses back to that value.
proof fn lemma_digit_roundtrip(d: u32)
    requires
        d < 10,
    ensures
        spec_digit(spec_digit_char(d)) == Some(d),
{
}

/// Parsing a string with one more digit at its end: the prefix parses
/// first, then the digit is taken in, under the same bound checks.
proof fn lemma_parse_dec_push(s: Seq<char>, c: char, acc: u32, bound: u32)
    ensures
        spec_parse_dec(s.push(c), acc, bound) == (match spec_parse_dec(s, acc, bound) {
            None => None::<u32>,
            Some(v) => match spec_digit(c) {
                None => None::<u32>,
                Some(d) => {
                    if v > bound / 10 || 10 * (v as int) > bound - d {
                        None::<u32>
                    } else {
                        Some((10 * v + d) as u32)
                    }
                },
            },
        }),
    decreases s.len(),
{
    if s.len() == 0 {
        assert(s.push(c)[0] == c);
        assert(s.push(c).skip(1) =~= Seq::<char>::empty());
        match spec_digit(c) {
            None => {},
            Some(d) => {
                if !(acc > bound / 10 || 10 * (acc as int) > bound - d) {
                    assert(spec_parse_dec(s.push(c), acc, bound) == spec_parse_dec(
                        s.push(c).skip(1),
                        (10 * acc + d) as u32,
                        bound,
                    ));
                }
            },
        }
    } else {
        assert(s.push(c)[0] == s[0]);
        match spec_digit(s[0]) {
            None => {},
            Some(d) => {
                if !(acc > bound / 10 || 10 * (acc as int) > bound - d) {
                    assert(s.push(c).skip(1) =~= s.skip(1).push(c));
                    lemma_parse_dec_push(s.skip(1), c, (10 * acc + d) as u32, bound);
                }
            },
        }
    }
}

/// The canonical decimal spelling of a value no larger than `bound` parses
/// back to exactly that value: the numeric leg of the bytecode-to-source
/// round trip, used by `PUSH_U32`, `PUSH_STATUS` and `PUSH_TASK_FIELD`
/// operands.
pub proof fn lemma_u32_dec_parse_roundtrip(n: u32, bound: u32)
    requires
        n <= bound,
    ensures
        spec_parse_u32(spec_u32_dec(n), bound) == Some(n),
    decreases n,
{
    lemma_u32_dec_nonempty(n);
    if n < 10 {
        lemma_digit_roundtrip(n);
        let s = spec_u32_dec(n);
        assert(s[0] == spec_digit_char(n));
        assert(s.skip(1) =~= Seq::<char>::empty());
        assert(spec_parse_dec(s.skip(1), n, bound) == Some(n));
        assert(!(0 > bound / 10 || 10 * 0 > bound - n));
        assert(spec_parse_dec(s, 0, bound) == Some(n));
    } else {
        let sp = spec_u32_dec(n / 10);
        let c = spec_digit_char(n % 10);
        lemma_u32_dec_parse_roundtrip(n / 10, bound);
        lemma_u32_dec_nonempty(n / 10);
        assert(spec_parse_dec(sp, 0, bound) == Some(n as u32 / 10));
        lemma_digit_roundtrip(n % 10);
        lemma_parse_dec_push(sp, c, 0, bound);
        assert(n / 10 <= bound / 10);
        assert(10 * ((n / 10) as int) <= bound - (n % 10)) by {
            assert(10 * (n as int / 10) + n as int % 10 == n);
        }
        assert(spec_parse_dec(sp.push(c), 0, bound) == Some((10 * (n / 10) + n % 10) as u32));
        assert((10 * (n / 10) + n % 10) as u32 == n);
        assert(spec_u32_dec(n) == sp.push(c));
        assert(spec_parse_dec(spec_u32_dec(n), 0, bound) == Some(n));
    }
}

/// A decimal spelling is never empty.
proof fn lemma_u32_dec_nonempty(n: u32)
    ensures
        spec_u32_dec(n).len() >= 1,
    decreases n,
{
    if n >= 10 {
        lemma_u32_dec_nonempty(n / 10);
    }
}

/// Append the canonical decimal spelling of `n` to `out`.
pub fn append_u32_dec(out: &mut String, n: u32)
    ensures
        final(out)@ == old(out)@ + spec_u32_dec(n),
    decreases n,
{
    if n < 10 {
        out.append(digit_str(n));
    } else {
        append_u32_dec(out, n / 10);
        out.append(digit_str(n % 10));
        assert(final(out)@ =~= old(out)@ + spec_u32_dec(n));
    }
}

} // verus!
