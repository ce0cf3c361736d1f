//! The JSON wire form of a [`RunnerState`]: each variant externally
//! tagged with its fields in declaration order, memories as their
//! suffixed strings, durations as millisecond integers, and strings with
//! the usual short escapes plus `\u00..` for other control characters.
//!
//! `state_json` is the canonical text.  The reader accepts exactly that
//! canonical form, in both directions of its contract: a returned state's
//! canonical text is the input, and a rejection means no state has the
//! input as its canonical text.

use vstd::prelude::*;

use crate::memory::{memory_display, Memory};
use crate::numerals::{decimal_of, digit_char, parse_u64_range, push_decimal};
use crate::state::RunnerState;
use crate::strings::{chars_eq, chars_to_string, str_to_chars};

verus! {

/// The lowercase hex digit of a value below sixteen.
pub open spec fn hex_char(d: int) -> char {
    if d < 10 {
        digit_char(d)
    } else if d == 10 { 'a' }
    else if d == 11 { 'b' }
    else if d == 12 { 'c' }
    else if d == 13 { 'd' }
    else if d == 14 { 'e' }
    else { 'f' }
}

/// How one character appears inside a JSON string literal.
pub open spec fn escape_char(c: char) -> Seq<char> {
    if c == '"' {
        seq!['\\', '"']
    } else if c == '\\' {
        seq!['\\', '\\']
    } else if c == '\u{8}' {
        seq!['\\', 'b']
    } else if c == '\t' {
        seq!['\\', 't']
    } else if c == '\n' {
        seq!['\\', 'n']
    } else if c == '\u{c}' {
        seq!['\\', 'f']
    } else if c == '\r' {
        seq!['\\', 'r']
    } else if (c as u32) < 32 {
        seq!['\\', 'u', '0', '0', hex_char((c as u32 / 16) as int), hex_char((c as u32 % 16) as int)]
    } else {
        seq![c]
    }
}

/// A whole string escaped.
pub open spec fn escape_string(s: Seq<char>) -> Seq<char>
    decreases s.len(),
{
    if s.len() == 0 {
        Seq::<char>::empty()
    } else {
        escape_string(s.drop_last()) + escape_char(s.last())
    }
}

/// A JSON string literal.
pub open spec fn json_string(s: Seq<char>) -> Seq<char> {
    seq!['"'] + escape_string(s) + seq!['"']
}

/// A JSON integer, possibly negative.
pub open spec fn json_i32(n: i32) -> Seq<char> {
    if n >= 0 {
        decimal_of(n as nat)
    } else {
        seq!['-'] + decimal_of((-(n as int)) as nat)
    }
}

/// The canonical JSON text of a state.
pub open spec fn state_json(s: RunnerState) -> Seq<char> {
    match s {
        RunnerState::Success { stdout, max_memory_usage, ms_time_elapsed } => "{\"Success\":{\"stdout\":"@
            + json_string(stdout@) + ",\"max_memory_usage\":"@ + json_string(
            memory_display(max_memory_usage),
        ) + ",\"ms_time_elapsed\":"@ + decimal_of(ms_time_elapsed.0 as nat) + "}}"@,
        RunnerState::RuntimeError { stderr, exit_code, max_memory_usage, ms_time_elapsed } => "{\"RuntimeError\":{\"stderr\":"@
            + json_string(stderr@) + ",\"exit_code\":"@ + json_i32(exit_code)
            + ",\"max_memory_usage\":"@ + json_string(memory_display(max_memory_usage))
            + ",\"ms_time_elapsed\":"@ + decimal_of(ms_time_elapsed.0 as nat) + "}}"@,
        RunnerState::Timeout { ms_time_elapsed } => "{\"Timeout\":{\"ms_time_elapsed\":"@
            + decimal_of(ms_time_elapsed.0 as nat) + "}}"@,
        RunnerState::MemoryLimit { max_memory_usage } => "{\"MemoryLimit\":{\"max_memory_usage\":"@
            + json_string(memory_display(max_memory_usage)) + "}}"@,
        RunnerState::CompileError { stderr } => "{\"CompileError\":{\"stderr\":"@ + json_string(
            stderr@,
        ) + "}}"@,
        RunnerState::InternalError => "\"InternalError\""@,
    }
}

/// The leading characters that identify each variant's wire text.
proof fn lemma_state_json_shape(s: RunnerState)
    ensures
        state_json(s).len() > 2,
        (s matches RunnerState::InternalError) <==> state_json(s)[0] == '"',
        (s matches RunnerState::Success { .. }) ==> state_json(s)[2] == 'S',
        (s matches RunnerState::RuntimeError { .. }) ==> state_json(s)[2] == 'R',
        (s matches RunnerState::Timeout { .. }) ==> state_json(s)[2] == 'T',
        (s matches RunnerState::MemoryLimit { .. }) ==> state_json(s)[2] == 'M',
        (s matches RunnerState::CompileError { .. }) ==> state_json(s)[2] == 'C',
{
    assert(('"' as u32) == 34);
    assert(('{' as u32) == 123);
    assert(('S' as u32) == 83);
    assert(('R' as u32) == 82);
    assert(('T' as u32) == 84);
    assert(('M' as u32) == 77);
    assert(('C' as u32) == 67);
    assert(('n' as u32) == 110);
    match s {
        RunnerState::Success { .. } => {
            reveal_strlit("{\"Success\":{\"stdout\":");
            assert(state_json(s)[0] == '{');
            assert(state_json(s)[2] == 'S');
        },
        RunnerState::RuntimeError { .. } => {
            reveal_strlit("{\"RuntimeError\":{\"stderr\":");
            assert(state_json(s)[0] == '{');
            assert(state_json(s)[2] == 'R');
        },
        RunnerState::Timeout { .. } => {
            reveal_strlit("{\"Timeout\":{\"ms_time_elapsed\":");
            assert(state_json(s)[0] == '{');
            assert(state_json(s)[2] == 'T');
        },
        RunnerState::MemoryLimit { .. } => {
            reveal_strlit("{\"MemoryLimit\":{\"max_memory_usage\":");
            assert(state_json(s)[0] == '{');
            assert(state_json(s)[2] == 'M');
        },
        RunnerState::CompileError { .. } => {
            reveal_strlit("{\"CompileError\":{\"stderr\":");
            assert(state_json(s)[0] == '{');
            assert(state_json(s)[2] == 'C');
        },
        RunnerState::InternalError => {
            reveal_strlit("\"InternalError\"");
            assert(state_json(s)[0] == '"');
            assert(state_json(s)[2] == 'n');
        },
    }
}

/// The wire tag is faithful: two states with the same JSON text are the
/// same variant.  In particular a state read back from a written one is
/// never reported under another outcome.
pub proof fn lemma_state_json_tag_faithful(a: RunnerState, b: RunnerState)
    requires
        state_json(a) == state_json(b),
    ensures
        (a matches RunnerState::Success { .. }) <==> (b matches RunnerState::Success { .. }),
        (a matches RunnerState::RuntimeError { .. }) <==> (b matches RunnerState::RuntimeError { .. }),
        (a matches RunnerState::Timeout { .. }) <==> (b matches RunnerState::Timeout { .. }),
        (a matches RunnerState::MemoryLimit { .. }) <==> (b matches RunnerState::MemoryLimit { .. }),
        (a matches RunnerState::CompileError { .. }) <==> (b matches RunnerState::CompileError { .. }),
        (a matches RunnerState::InternalError) <==> (b matches RunnerState::InternalError),
{
    lemma_state_json_shape(a);
    lemma_state_json_shape(b);
}

/// Millisecond values are carried exactly: two timeouts with the same
/// wire text elapsed for the same duration.
pub proof fn lemma_timeout_json_exact(t1: crate::time::MsTime, t2: crate::time::MsTime)
    requires
        state_json(RunnerState::Timeout { ms_time_elapsed: t1 }) == state_json(
            RunnerState::Timeout { ms_time_elapsed: t2 },
        ),
    ensures
        t1 == t2,
{
    reveal_strlit("{\"Timeout\":{\"ms_time_elapsed\":");
    reveal_strlit("}}");
    let p = "{\"Timeout\":{\"ms_time_elapsed\":"@;
    let close = "}}"@;
    let d1 = decimal_of(t1.0 as nat);
    let d2 = decimal_of(t2.0 as nat);
    crate::numerals::lemma_decimal_of(t1.0 as nat);
    crate::numerals::lemma_decimal_of(t2.0 as nat);
    let x = p + d1 + close;
    let y = p + d2 + close;
    assert(x == y);
    assert(d1.len() == d2.len());
    assert forall|i: int| 0 <= i < d1.len() implies d1[i] == d2[i] by {
        assert(x[p.len() + i] == d1[i]);
        assert(y[p.len() + i] == d2[i]);
    }
    assert(d1 =~= d2);
    assert(t1.0 == t2.0);
}

/// The characters that have a two-character short escape.
pub open spec fn has_short_escape(c: char) -> bool {
    c == '"' || c == '\\' || c == '\u{8}' || c == '\t' || c == '\n' || c == '\u{c}' || c == '\r'
}

/// The characters that do not stand for themselves in a string literal.
pub open spec fn is_escaped(c: char) -> bool {
    has_short_escape(c) || (c as u32) < 32
}

/// The sixteen hex digit characters are distinct.
proof fn lemma_hex_char_injective(a: int, b: int)
    requires
        0 <= a < 16,
        0 <= b < 16,
        hex_char(a) == hex_char(b),
    ensures
        a == b,
{
    assert(('0' as u32) == 48);
    assert(('1' as u32) == 49);
    assert(('2' as u32) == 50);
    assert(('3' as u32) == 51);
    assert(('4' as u32) == 52);
    assert(('5' as u32) == 53);
    assert(('6' as u32) == 54);
    assert(('7' as u32) == 55);
    assert(('8' as u32) == 56);
    assert(('9' as u32) == 57);
    assert(('a' as u32) == 97);
    assert(('b' as u32) == 98);
    assert(('c' as u32) == 99);
    assert(('d' as u32) == 100);
    assert(('e' as u32) == 101);
    assert(('f' as u32) == 102);
}

/// The first character of an escape form: the character itself when it
/// stands for itself, a backslash otherwise.
proof fn lemma_escape_char_first(c: char)
    ensures
        !is_escaped(c) ==> escape_char(c) == seq![c],
        is_escaped(c) ==> escape_char(c).len() >= 2 && escape_char(c)[0] == '\\',
        has_short_escape(c) ==> escape_char(c).len() == 2,
        is_escaped(c) && !has_short_escape(c) ==> escape_char(c).len() == 6
            && escape_char(c)[1] == 'u',
{
    assert(('\u{8}' as u32) == 8);
    assert(('\t' as u32) == 9);
    assert(('\n' as u32) == 10);
    assert(('\u{c}' as u32) == 12);
    assert(('\r' as u32) == 13);
    assert(('"' as u32) == 34);
    assert(('\\' as u32) == 92);
}

/// An escape form determines the character it encodes and what follows
/// it: no escape form is a prefix of another.
#[verifier::rlimit(100)]
proof fn lemma_escape_decode(c1: char, c2: char, r1: Seq<char>, r2: Seq<char>)
    requires
        escape_char(c1) + r1 == escape_char(c2) + r2,
    ensures
        c1 == c2,
        r1 == r2,
{
    lemma_escape_char_first(c1);
    lemma_escape_char_first(c2);
    let e1 = escape_char(c1);
    let e2 = escape_char(c2);
    let x = e1 + r1;
    assert(('"' as u32) == 34);
    assert(('\\' as u32) == 92);
    assert(('b' as u32) == 98);
    assert(('t' as u32) == 116);
    assert(('n' as u32) == 110);
    assert(('f' as u32) == 102);
    assert(('r' as u32) == 114);
    assert(('u' as u32) == 117);
    if !is_escaped(c1) && !is_escaped(c2) {
        assert(x[0] == c1);
        assert((e2 + r2)[0] == c2);
        assert(r1 =~= x.skip(1));
        assert(r2 =~= x.skip(1));
    } else if !is_escaped(c1) {
        // the right side opens an escape, so the left's character would
        // have to be the backslash, which is itself escaped
        assert(x[0] == c1);
        assert((e2 + r2)[0] == '\\');
        assert(is_escaped('\\'));
        assert(false);
    } else if !is_escaped(c2) {
        assert(x[0] == '\\');
        assert((e2 + r2)[0] == c2);
        assert(is_escaped('\\'));
        assert(false);
    } else if has_short_escape(c1) && has_short_escape(c2) {
        assert(x[1] == e1[1]);
        assert((e2 + r2)[1] == e2[1]);
        assert(c1 == c2);
        assert(r1 =~= x.skip(2));
        assert(r2 =~= x.skip(2));
    } else if has_short_escape(c1) {
        // a short letter on the left, 'u' on the right
        assert(x[1] == e1[1]);
        assert((e2 + r2)[1] == 'u');
        assert(false);
    } else if has_short_escape(c2) {
        assert(x[1] == 'u');
        assert((e2 + r2)[1] == e2[1]);
        assert(false);
    } else {
        // both are six-character forms: the two hex digits decide
        let v1 = c1 as u32;
        let v2 = c2 as u32;
        assert(x[4] == hex_char((v1 / 16) as int));
        assert(x[5] == hex_char((v1 % 16) as int));
        assert((e2 + r2)[4] == hex_char((v2 / 16) as int));
        assert((e2 + r2)[5] == hex_char((v2 % 16) as int));
        lemma_hex_char_injective((v1 / 16) as int, (v2 / 16) as int);
        lemma_hex_char_injective((v1 % 16) as int, (v2 % 16) as int);
        assert(v1 == v2) by {
            vstd::arithmetic::div_mod::lemma_fundamental_div_mod(v1 as int, 16);
            vstd::arithmetic::div_mod::lemma_fundamental_div_mod(v2 as int, 16);
        }
        assert(c1 == c2);
        assert(r1 =~= x.skip(6));
        assert(r2 =~= x.skip(6));
    }
}

/// An escaped string read from its front: the first character's escape
/// form, then the rest.
proof fn lemma_escape_string_cons(s: Seq<char>)
    requires
        s.len() > 0,
    ensures
        escape_string(s) == escape_char(s[0]) + escape_string(s.drop_first()),
    decreases s.len(),
{
    if s.len() == 1 {
        assert(s.drop_last() =~= Seq::<char>::empty());
        assert(s.drop_first() =~= Seq::<char>::empty());
        assert(s.last() == s[0]);
        assert(escape_string(s) =~= escape_char(s[0]) + escape_string(s.drop_first()));
    } else {
        let t = s.drop_last();
        lemma_escape_string_cons(t);
        assert(t[0] == s[0]);
        assert(t.drop_first() =~= s.drop_first().drop_last());
        assert(s.drop_first().len() > 0);
        assert(s.drop_first().last() == s.last());
        assert(escape_string(s.drop_first()) == escape_string(s.drop_first().drop_last())
            + escape_char(s.drop_first().last()));
        assert(escape_string(s) =~= escape_char(s[0]) + escape_string(s.drop_first()));
    }
}

/// A quoted, escaped string determines its contents and what follows
/// its closing quote.
proof fn lemma_json_string_decode(a: Seq<char>, b: Seq<char>, r1: Seq<char>, r2: Seq<char>)
    requires
        escape_string(a) + seq!['"'] + r1 == escape_string(b) + seq!['"'] + r2,
    ensures
        a == b,
        r1 == r2,
    decreases a.len(),
{
    assert(('"' as u32) == 34);
    assert(('\\' as u32) == 92);
    let x = escape_string(a) + seq!['"'] + r1;
    if a.len() == 0 && b.len() == 0 {
        assert(r1 =~= x.skip(1));
        assert(r2 =~= x.skip(1));
    } else if a.len() == 0 {
        lemma_escape_string_cons(b);
        lemma_escape_char_first(b[0]);
        assert(x[0] == '"');
        assert((escape_string(b) + seq!['"'] + r2)[0] == escape_char(b[0])[0]);
        if is_escaped(b[0]) {
            assert(escape_char(b[0])[0] == '\\');
            assert(false);
        } else {
            assert(escape_char(b[0])[0] == b[0]);
            assert(is_escaped('"'));
            assert(false);
        }
    } else if b.len() == 0 {
        lemma_escape_string_cons(a);
        lemma_escape_char_first(a[0]);
        assert((escape_string(b) + seq!['"'] + r2)[0] == '"');
        assert(x[0] == escape_char(a[0])[0]);
        if is_escaped(a[0]) {
            assert(escape_char(a[0])[0] == '\\');
            assert(false);
        } else {
            assert(escape_char(a[0])[0] == a[0]);
            assert(is_escaped('"'));
            assert(false);
        }
    } else {
        lemma_escape_string_cons(a);
        lemma_escape_string_cons(b);
        let ta = escape_string(a.drop_first()) + seq!['"'] + r1;
        let tb = escape_string(b.drop_first()) + seq!['"'] + r2;
        assert(escape_string(a) + seq!['"'] + r1 =~= escape_char(a[0]) + ta);
        assert(escape_string(b) + seq!['"'] + r2 =~= escape_char(b[0]) + tb);
        lemma_escape_decode(a[0], b[0], ta, tb);
        lemma_json_string_decode(a.drop_first(), b.drop_first(), r1, r2);
        assert(a.len() == b.len());
        assert forall|i: int| 0 <= i < a.len() implies a[i] == b[i] by {
            if i > 0 {
                assert(a.drop_first()[i - 1] == a[i]);
                assert(b.drop_first()[i - 1] == b[i]);
            }
        }
        assert(a =~= b);
    }
}

/// A numeral followed by a non-digit determines its value and what
/// follows it.
proof fn lemma_decimal_decode(n1: nat, n2: nat, r1: Seq<char>, r2: Seq<char>)
    requires
        decimal_of(n1) + r1 == decimal_of(n2) + r2,
        r1.len() > 0,
        r2.len() > 0,
        !crate::numerals::is_digit(r1[0]),
        !crate::numerals::is_digit(r2[0]),
    ensures
        n1 == n2,
        r1 == r2,
{
    crate::numerals::lemma_decimal_of(n1);
    crate::numerals::lemma_decimal_of(n2);
    let d1 = decimal_of(n1);
    let d2 = decimal_of(n2);
    let x = d1 + r1;
    if d1.len() < d2.len() {
        assert(x[d1.len() as int] == r1[0]);
        assert((d2 + r2)[d1.len() as int] == d2[d1.len() as int]);
        assert(crate::numerals::is_digit(d2[d1.len() as int]));
        assert(false);
    }
    if d2.len() < d1.len() {
        assert(x[d2.len() as int] == d1[d2.len() as int]);
        assert((d2 + r2)[d2.len() as int] == r2[0]);
        assert(crate::numerals::is_digit(d1[d2.len() as int]));
        assert(false);
    }
    assert forall|i: int| 0 <= i < d1.len() implies d1[i] == d2[i] by {
        assert(x[i] == d1[i]);
        assert((d2 + r2)[i] == d2[i]);
    }
    assert(d1 =~= d2);
    assert(crate::numerals::numeral_value(d1) == crate::numerals::numeral_value(d2));
    assert(r1 =~= x.skip(d1.len() as int));
    assert(r2 =~= x.skip(d1.len() as int));
}

/// A possibly signed integer followed by a non-digit determines its
/// value and what follows it.
proof fn lemma_json_i32_decode(n1: i32, n2: i32, r1: Seq<char>, r2: Seq<char>)
    requires
        json_i32(n1) + r1 == json_i32(n2) + r2,
        r1.len() > 0,
        r2.len() > 0,
        !crate::numerals::is_digit(r1[0]),
        !crate::numerals::is_digit(r2[0]),
    ensures
        n1 == n2,
        r1 == r2,
{
    assert(('-' as u32) == 45);
    assert(('0' as u32) == 48);
    assert(('9' as u32) == 57);
    if n1 >= 0 && n2 >= 0 {
        lemma_decimal_decode(n1 as nat, n2 as nat, r1, r2);
    } else if n1 < 0 && n2 < 0 {
        let m1 = (-(n1 as int)) as nat;
        let m2 = (-(n2 as int)) as nat;
        let x = seq!['-'] + (decimal_of(m1) + r1);
        assert(json_i32(n1) + r1 =~= x);
        assert(json_i32(n2) + r2 =~= seq!['-'] + (decimal_of(m2) + r2));
        assert(decimal_of(m1) + r1 =~= x.drop_first());
        assert(decimal_of(m2) + r2 =~= x.drop_first());
        lemma_decimal_decode(m1, m2, r1, r2);
    } else if n1 >= 0 {
        crate::numerals::lemma_decimal_of(n1 as nat);
        let x = json_i32(n1) + r1;
        assert(x[0] == decimal_of(n1 as nat)[0]);
        assert((json_i32(n2) + r2)[0] == '-');
        assert(crate::numerals::is_digit(decimal_of(n1 as nat)[0]));
        assert(false);
    } else {
        crate::numerals::lemma_decimal_of(n2 as nat);
        let x = json_i32(n1) + r1;
        assert(x[0] == '-');
        assert((json_i32(n2) + r2)[0] == decimal_of(n2 as nat)[0]);
        assert(crate::numerals::is_digit(decimal_of(n2 as nat)[0]));
        assert(false);
    }
}

/// Equal display strings denote memories equal at their display unit.
proof fn lemma_memory_display_determines(m1: Memory, m2: Memory)
    requires
        memory_display(m1) == memory_display(m2),
    ensures
        normalize_memory(m1) == normalize_memory(m2),
{
    crate::memory::lemma_memory_display_round_trip(m1);
    crate::memory::lemma_memory_display_round_trip(m2);
}

/// A memory truncated to the unit its display string carries.
pub open spec fn normalize_memory(m: Memory) -> Memory {
    Memory((m.0 / crate::memory::display_unit(m) * crate::memory::display_unit(m)) as u64)
}

/// A state with its memory fields truncated to their display units —
/// exactly what the wire text can carry of them.
pub open spec fn normalize_state(s: RunnerState) -> RunnerState {
    match s {
        RunnerState::Success { stdout, max_memory_usage, ms_time_elapsed } => RunnerState::Success {
            stdout,
            max_memory_usage: normalize_memory(max_memory_usage),
            ms_time_elapsed,
        },
        RunnerState::RuntimeError { stderr, exit_code, max_memory_usage, ms_time_elapsed } => RunnerState::RuntimeError {
            stderr,
            exit_code,
            max_memory_usage: normalize_memory(max_memory_usage),
            ms_time_elapsed,
        },
        RunnerState::MemoryLimit { max_memory_usage } => RunnerState::MemoryLimit {
            max_memory_usage: normalize_memory(max_memory_usage),
        },
        _ => s,
    }
}

/// Characters with the same code point are the same character.
proof fn lemma_char_code_injective(c1: char, c2: char)
    requires
        c1 as u32 == c2 as u32,
    ensures
        c1 == c2,
{
}

/// The character codes the decoder's case analysis rests on.
proof fn lemma_escape_codes()
    ensures
        ('"' as u32) == 34,
        ('\\' as u32) == 92,
        ('/' as u32) == 47,
        ('+' as u32) == 43,
        ('-' as u32) == 45,
        ('0' as u32) == 48,
        ('9' as u32) == 57,
        ('b' as u32) == 98,
        ('t' as u32) == 116,
        ('n' as u32) == 110,
        ('f' as u32) == 102,
        ('r' as u32) == 114,
        ('u' as u32) == 117,
        ('}' as u32) == 125,
        (',' as u32) == 44,
        ('\u{8}' as u32) == 8,
        ('\t' as u32) == 9,
        ('\n' as u32) == 10,
        ('\u{c}' as u32) == 12,
        ('\r' as u32) == 13,
{
}

/// Inside a string literal with `k` characters already decoded, the
/// remaining text begins with the next character's escape form, or with
/// the closing quote when everything is decoded; never with a bare
/// quote otherwise.
proof fn lemma_string_remaining(s0: Seq<char>, k: int, rest: Seq<char>, rem: Seq<char>)
    requires
        0 <= k <= s0.len(),
        rem == escape_string(s0.skip(k)) + seq!['"'] + rest,
    ensures
        rem.len() > 0,
        k == s0.len() ==> rem == seq!['"'] + rest && rem[0] == '"',
        k < s0.len() ==> rem == escape_char(s0[k]) + (escape_string(s0.skip(k + 1)) + seq!['"']
            + rest) && rem[0] == escape_char(s0[k])[0] && rem[0] != '"'
            && rem.len() >= escape_char(s0[k]).len() + 1,
{
    lemma_escape_codes();
    if k == s0.len() {
        assert(s0.skip(k) =~= Seq::<char>::empty());
        assert(rem =~= seq!['"'] + rest);
    } else {
        let tail = s0.skip(k);
        lemma_escape_string_cons(tail);
        assert(tail[0] == s0[k]);
        assert(tail.drop_first() =~= s0.skip(k + 1));
        lemma_escape_char_first(s0[k]);
        assert(rem =~= escape_char(s0[k]) + (escape_string(s0.skip(k + 1)) + seq!['"'] + rest));
        if is_escaped(s0[k]) {
            assert(escape_char(s0[k])[0] == '\\');
        } else {
            assert(escape_char(s0[k]) == seq![s0[k]]);
            assert(is_escaped('"'));
        }
    }
}

/// The memory a display string denotes displays the same way: truncating
/// to the display unit does not change the display.
proof fn lemma_normalize_memory_display(m: Memory)
    ensures
        memory_display(normalize_memory(m)) == memory_display(m),
{
    let u = crate::memory::display_unit(m);
    let q = m.0 / u;
    vstd::arithmetic::div_mod::lemma_fundamental_div_mod(m.0 as int, u as int);
    if m.0 >= 1048576 {
        assert(u == 1048576);
        assert(q * 1048576 <= m.0);
        assert(q >= 1);
        assert(normalize_memory(m).0 == q * 1048576);
        assert(normalize_memory(m).0 >= 1048576);
        vstd::arithmetic::div_mod::lemma_fundamental_div_mod_converse(
            (q * 1048576) as int,
            1048576,
            q as int,
            0,
        );
        assert(normalize_memory(m).0 / 1048576 == q);
    } else if m.0 >= 1024 {
        assert(u == 1024);
        assert(q * 1024 <= m.0);
        assert(q >= 1);
        assert(normalize_memory(m).0 == q * 1024);
        assert(normalize_memory(m).0 >= 1024);
        assert(normalize_memory(m).0 < 1048576);
        vstd::arithmetic::div_mod::lemma_fundamental_div_mod_converse(
            (q * 1024) as int,
            1024,
            q as int,
            0,
        );
        assert(normalize_memory(m).0 / 1024 == q);
    } else {
        assert(u == 1);
        assert(normalize_memory(m).0 == m.0);
    }
}

/// Strips an equal prefix from equal concatenations.
proof fn lemma_strip_prefix(p: Seq<char>, u: Seq<char>, v: Seq<char>)
    requires
        p + u == p + v,
    ensures
        u == v,
{
    assert(u =~= (p + u).skip(p.len() as int));
    assert(v =~= (p + u).skip(p.len() as int));
}

/// Success texts determine stdout, the memory at its display unit, and
/// the elapsed time.
#[verifier::rlimit(100)]
proof fn lemma_success_json_determines(
    o1: String,
    m1: Memory,
    t1: crate::time::MsTime,
    o2: String,
    m2: Memory,
    t2: crate::time::MsTime,
)
    requires
        state_json(
            (RunnerState::Success { stdout: o1, max_memory_usage: m1, ms_time_elapsed: t1 }),
        ) == state_json(
            (RunnerState::Success { stdout: o2, max_memory_usage: m2, ms_time_elapsed: t2 }),
        ),
    ensures
        o1@ == o2@,
        normalize_memory(m1) == normalize_memory(m2),
        t1 == t2,
{
    let a = RunnerState::Success { stdout: o1, max_memory_usage: m1, ms_time_elapsed: t1 };
    let b = RunnerState::Success { stdout: o2, max_memory_usage: m2, ms_time_elapsed: t2 };
    assert(('}' as u32) == 125);
    assert(('0' as u32) == 48);
    assert(('9' as u32) == 57);
    reveal_strlit("}}");
    reveal_strlit("{\"Success\":{\"stdout\":");
    reveal_strlit(",\"max_memory_usage\":");
    reveal_strlit(",\"ms_time_elapsed\":");
    let l4 = "}}"@;
    let l1 = "{\"Success\":{\"stdout\":"@;
    let l2 = ",\"max_memory_usage\":"@;
    let l3 = ",\"ms_time_elapsed\":"@;
    let d1 = decimal_of(t1.0 as nat);
    let d2 = decimal_of(t2.0 as nat);
    let w1 = l3 + (d1 + l4);
    let w2 = l3 + (d2 + l4);
    let v1 = escape_string(memory_display(m1)) + seq!['"'] + w1;
    let v2 = escape_string(memory_display(m2)) + seq!['"'] + w2;
    let r1 = (l2 + seq!['"']) + v1;
    let r2 = (l2 + seq!['"']) + v2;
    let u1 = escape_string(o1@) + seq!['"'] + r1;
    let u2 = escape_string(o2@) + seq!['"'] + r2;
    assert(state_json(a) =~= (l1 + seq!['"']) + u1);
    assert(state_json(b) =~= (l1 + seq!['"']) + u2);
    lemma_strip_prefix(l1 + seq!['"'], u1, u2);
    lemma_json_string_decode(o1@, o2@, r1, r2);
    lemma_strip_prefix(l2 + seq!['"'], v1, v2);
    lemma_json_string_decode(memory_display(m1), memory_display(m2), w1, w2);
    lemma_memory_display_determines(m1, m2);
    lemma_strip_prefix(l3, d1 + l4, d2 + l4);
    lemma_decimal_decode(t1.0 as nat, t2.0 as nat, l4, l4);
}

/// Runtime-error texts determine stderr, the exit code, the memory at
/// its display unit, and the elapsed time.
#[verifier::rlimit(100)]
#[verifier::spinoff_prover]
proof fn lemma_runtime_error_json_determines(
    e1: String,
    c1: i32,
    m1: Memory,
    t1: crate::time::MsTime,
    e2: String,
    c2: i32,
    m2: Memory,
    t2: crate::time::MsTime,
)
    requires
        state_json(
            (RunnerState::RuntimeError {
                stderr: e1,
                exit_code: c1,
                max_memory_usage: m1,
                ms_time_elapsed: t1,
            }),
        ) == state_json(
            (RunnerState::RuntimeError {
                stderr: e2,
                exit_code: c2,
                max_memory_usage: m2,
                ms_time_elapsed: t2,
            }),
        ),
    ensures
        e1@ == e2@,
        c1 == c2,
        normalize_memory(m1) == normalize_memory(m2),
        t1 == t2,
{
    let a = RunnerState::RuntimeError {
        stderr: e1,
        exit_code: c1,
        max_memory_usage: m1,
        ms_time_elapsed: t1,
    };
    let b = RunnerState::RuntimeError {
        stderr: e2,
        exit_code: c2,
        max_memory_usage: m2,
        ms_time_elapsed: t2,
    };
    assert(('}' as u32) == 125);
    assert((',' as u32) == 44);
    assert(('0' as u32) == 48);
    assert(('9' as u32) == 57);
    reveal_strlit("}}");
    reveal_strlit("{\"RuntimeError\":{\"stderr\":");
    reveal_strlit(",\"exit_code\":");
    reveal_strlit(",\"max_memory_usage\":");
    reveal_strlit(",\"ms_time_elapsed\":");
    let l4 = "}}"@;
    let l1 = "{\"RuntimeError\":{\"stderr\":"@;
    let lc = ",\"exit_code\":"@;
    let l2 = ",\"max_memory_usage\":"@;
    let l3 = ",\"ms_time_elapsed\":"@;
    let d1 = decimal_of(t1.0 as nat);
    let d2 = decimal_of(t2.0 as nat);
    let w1 = l3 + (d1 + l4);
    let w2 = l3 + (d2 + l4);
    let v1 = escape_string(memory_display(m1)) + seq!['"'] + w1;
    let v2 = escape_string(memory_display(m2)) + seq!['"'] + w2;
    let q1 = (l2 + seq!['"']) + v1;
    let q2 = (l2 + seq!['"']) + v2;
    let n1 = json_i32(c1) + q1;
    let n2 = json_i32(c2) + q2;
    let r1 = lc + n1;
    let r2 = lc + n2;
    let u1 = escape_string(e1@) + seq!['"'] + r1;
    let u2 = escape_string(e2@) + seq!['"'] + r2;
    assert(state_json(a) =~= (l1 + seq!['"']) + u1);
    assert(state_json(b) =~= (l1 + seq!['"']) + u2);
    lemma_strip_prefix(l1 + seq!['"'], u1, u2);
    lemma_json_string_decode(e1@, e2@, r1, r2);
    lemma_strip_prefix(lc, n1, n2);
    assert(q1[0] == ',');
    assert(q2[0] == ',');
    lemma_json_i32_decode(c1, c2, q1, q2);
    lemma_strip_prefix(l2 + seq!['"'], v1, v2);
    lemma_json_string_decode(memory_display(m1), memory_display(m2), w1, w2);
    lemma_memory_display_determines(m1, m2);
    lemma_strip_prefix(l3, d1 + l4, d2 + l4);
    lemma_decimal_decode(t1.0 as nat, t2.0 as nat, l4, l4);
}

/// Memory-limit texts determine the memory at its display unit.
#[verifier::rlimit(100)]
proof fn lemma_memory_limit_json_determines(m1: Memory, m2: Memory)
    requires
        state_json((RunnerState::MemoryLimit { max_memory_usage: m1 })) == state_json(
            (RunnerState::MemoryLimit { max_memory_usage: m2 }),
        ),
    ensures
        normalize_memory(m1) == normalize_memory(m2),
{
    let a = RunnerState::MemoryLimit { max_memory_usage: m1 };
    let b = RunnerState::MemoryLimit { max_memory_usage: m2 };
    reveal_strlit("}}");
    reveal_strlit("{\"MemoryLimit\":{\"max_memory_usage\":");
    let l4 = "}}"@;
    let l1 = "{\"MemoryLimit\":{\"max_memory_usage\":"@;
    let u1 = escape_string(memory_display(m1)) + seq!['"'] + l4;
    let u2 = escape_string(memory_display(m2)) + seq!['"'] + l4;
    assert(state_json(a) =~= (l1 + seq!['"']) + u1);
    assert(state_json(b) =~= (l1 + seq!['"']) + u2);
    lemma_strip_prefix(l1 + seq!['"'], u1, u2);
    lemma_json_string_decode(memory_display(m1), memory_display(m2), l4, l4);
    lemma_memory_display_determines(m1, m2);
}

/// Compile-error texts determine the diagnostics.
#[verifier::rlimit(100)]
proof fn lemma_compile_error_json_determines(e1: String, e2: String)
    requires
        state_json((RunnerState::CompileError { stderr: e1 })) == state_json(
            (RunnerState::CompileError { stderr: e2 }),
        ),
    ensures
        e1@ == e2@,
{
    let a = RunnerState::CompileError { stderr: e1 };
    let b = RunnerState::CompileError { stderr: e2 };
    reveal_strlit("}}");
    reveal_strlit("{\"CompileError\":{\"stderr\":");
    let l4 = "}}"@;
    let l1 = "{\"CompileError\":{\"stderr\":"@;
    let u1 = escape_string(e1@) + seq!['"'] + l4;
    let u2 = escape_string(e2@) + seq!['"'] + l4;
    assert(state_json(a) =~= (l1 + seq!['"']) + u1);
    assert(state_json(b) =~= (l1 + seq!['"']) + u2);
    lemma_strip_prefix(l1 + seq!['"'], u1, u2);
    lemma_json_string_decode(e1@, e2@, l4, l4);
}

/// The wire text determines the state: two states with the same JSON
/// text agree on every field, with memory fields compared at the display
/// unit the text carries.  Together with the reader's contract this
/// makes the wire form faithful: a state read back from a written one is
/// the written one, its memories truncated to their display units.
pub proof fn lemma_state_json_determines_state(a: RunnerState, b: RunnerState)
    requires
        state_json(a) == state_json(b),
    ensures
        crate::state::state_eq(normalize_state(a), normalize_state(b)),
{
    lemma_state_json_tag_faithful(a, b);
    match (a, b) {
        (
            RunnerState::Success { stdout: o1, max_memory_usage: m1, ms_time_elapsed: t1 },
            RunnerState::Success { stdout: o2, max_memory_usage: m2, ms_time_elapsed: t2 },
        ) => {
            lemma_success_json_determines(o1, m1, t1, o2, m2, t2);
        },
        (
            RunnerState::RuntimeError { stderr: e1, exit_code: c1, max_memory_usage: m1, ms_time_elapsed: t1 },
            RunnerState::RuntimeError { stderr: e2, exit_code: c2, max_memory_usage: m2, ms_time_elapsed: t2 },
        ) => {
            lemma_runtime_error_json_determines(e1, c1, m1, t1, e2, c2, m2, t2);
        },
        (
            RunnerState::Timeout { ms_time_elapsed: t1 },
            RunnerState::Timeout { ms_time_elapsed: t2 },
        ) => {
            lemma_timeout_json_exact(t1, t2);
        },
        (
            RunnerState::MemoryLimit { max_memory_usage: m1 },
            RunnerState::MemoryLimit { max_memory_usage: m2 },
        ) => {
            lemma_memory_limit_json_determines(m1, m2);
        },
        (
            RunnerState::CompileError { stderr: e1 },
            RunnerState::CompileError { stderr: e2 },
        ) => {
            lemma_compile_error_json_determines(e1, e2);
        },
        (RunnerState::InternalError, RunnerState::InternalError) => {},
        _ => {
            assert(false);
        },
    }
}

/// The lowercase hex digit character of a value below sixteen.
fn hex_to_char(d: u8) -> (c: char)
    requires
        d < 16,
    ensures
        c == hex_char(d as int),
{
    match d {
        0 => '0',
        1 => '1',
        2 => '2',
        3 => '3',
        4 => '4',
        5 => '5',
        6 => '6',
        7 => '7',
        8 => '8',
        9 => '9',
        10 => 'a',
        11 => 'b',
        12 => 'c',
        13 => 'd',
        14 => 'e',
        _ => 'f',
    }
}

/// Appends the escaped form of one character.
fn push_escaped_char(out: &mut Vec<char>, c: char)
    ensures
        final(out)@ == old(out)@ + escape_char(c),
{
    if c == '"' {
        out.push('\\');
        out.push('"');
    } else if c == '\\' {
        out.push('\\');
        out.push('\\');
    } else if c == '\u{8}' {
        out.push('\\');
        out.push('b');
    } else if c == '\t' {
        out.push('\\');
        out.push('t');
    } else if c == '\n' {
        out.push('\\');
        out.push('n');
    } else if c == '\u{c}' {
        out.push('\\');
        out.push('f');
    } else if c == '\r' {
        out.push('\\');
        out.push('r');
    } else if (c as u32) < 32 {
        let v = c as u32;
        out.push('\\');
        out.push('u');
        out.push('0');
        out.push('0');
        out.push(hex_to_char((v / 16) as u8));
        out.push(hex_to_char((v % 16) as u8));
    } else {
        out.push(c);
    }
    assert(out@ =~= old(out)@ + escape_char(c));
}

/// Appends a whole JSON string literal, quotes included.
fn push_json_string(out: &mut Vec<char>, s: &str)
    ensures
        final(out)@ == old(out)@ + json_string(s@),
{
    let cs = str_to_chars(s);
    out.push('"');
    let n = cs.len();
    let mut i: usize = 0;
    assert(escape_string(s@.subrange(0, 0)) =~= Seq::<char>::empty());
    while i < n
        invariant
            i <= n,
            n == cs@.len(),
            cs@ == s@,
            out@ == old(out)@ + seq!['"'] + escape_string(s@.subrange(0, i as int)),
        decreases n - i,
    {
        let ghost done = s@.subrange(0, i as int);
        push_escaped_char(out, cs[i]);
        proof {
            assert(s@.subrange(0, i + 1 as int).drop_last() =~= done);
            assert(s@.subrange(0, i + 1 as int).last() == s@[i as int]);
            assert(out@ =~= old(out)@ + seq!['"'] + escape_string(s@.subrange(0, i + 1 as int)));
        }
        i = i + 1;
    }
    assert(s@.subrange(0, n as int) =~= s@);
    out.push('"');
    assert(out@ =~= old(out)@ + json_string(s@));
}

/// Appends a JSON integer.
fn push_json_i32(out: &mut Vec<char>, n: i32)
    ensures
        final(out)@ == old(out)@ + json_i32(n),
{
    if n >= 0 {
        push_decimal(n as u64, out);
        assert(out@ =~= old(out)@ + json_i32(n));
    } else {
        out.push('-');
        let magnitude = (-(n as i64)) as u64;
        push_decimal(magnitude, out);
        assert(out@ =~= old(out)@ + json_i32(n));
    }
}

/// The canonical JSON text of a state, as characters.
fn state_json_chars(s: &RunnerState) -> (r: Vec<char>)
    ensures
        r@ == state_json(*s),
{
    let mut out: Vec<char> = Vec::new();
    match s {
        RunnerState::Success { stdout, max_memory_usage, ms_time_elapsed } => {
            crate::strings::push_chars(&mut out, "{\"Success\":{\"stdout\":");
            push_json_string(&mut out, stdout.as_str());
            crate::strings::push_chars(&mut out, ",\"max_memory_usage\":");
            let mem = max_memory_usage.to_string();
            push_json_string(&mut out, mem.as_str());
            crate::strings::push_chars(&mut out, ",\"ms_time_elapsed\":");
            push_decimal(ms_time_elapsed.as_ms(), &mut out);
            crate::strings::push_chars(&mut out, "}}");
        },
        RunnerState::RuntimeError { stderr, exit_code, max_memory_usage, ms_time_elapsed } => {
            crate::strings::push_chars(&mut out, "{\"RuntimeError\":{\"stderr\":");
            push_json_string(&mut out, stderr.as_str());
            crate::strings::push_chars(&mut out, ",\"exit_code\":");
            push_json_i32(&mut out, *exit_code);
            crate::strings::push_chars(&mut out, ",\"max_memory_usage\":");
            let mem = max_memory_usage.to_string();
            push_json_string(&mut out, mem.as_str());
            crate::strings::push_chars(&mut out, ",\"ms_time_elapsed\":");
            push_decimal(ms_time_elapsed.as_ms(), &mut out);
            crate::strings::push_chars(&mut out, "}}");
        },
        RunnerState::Timeout { ms_time_elapsed } => {
            crate::strings::push_chars(&mut out, "{\"Timeout\":{\"ms_time_elapsed\":");
            push_decimal(ms_time_elapsed.as_ms(), &mut out);
            crate::strings::push_chars(&mut out, "}}");
        },
        RunnerState::MemoryLimit { max_memory_usage } => {
            crate::strings::push_chars(&mut out, "{\"MemoryLimit\":{\"max_memory_usage\":");
            let mem = max_memory_usage.to_string();
            push_json_string(&mut out, mem.as_str());
            crate::strings::push_chars(&mut out, "}}");
        },
        RunnerState::CompileError { stderr } => {
            crate::strings::push_chars(&mut out, "{\"CompileError\":{\"stderr\":");
            push_json_string(&mut out, stderr.as_str());
            crate::strings::push_chars(&mut out, "}}");
        },
        RunnerState::InternalError => {
            crate::strings::push_chars(&mut out, "\"InternalError\"");
        },
    }
    assert(out@ =~= state_json(*s));
    out
}

/// Position `j` after literal `lit` matched at `i`, if and only if the
/// literal stands there.
fn expect_lit(cs: &Vec<char>, i: usize, lit: &str) -> (r: Option<usize>)
    requires
        i <= cs@.len(),
    ensures
        match r {
            Some(j) => j == i + lit@.len() && j <= cs@.len() && cs@.subrange(i as int, j as int)
                == lit@,
            None => !(i + lit@.len() <= cs@.len() && cs@.subrange(
                i as int,
                i + lit@.len(),
            ) == lit@),
        },
{
    let ls = str_to_chars(lit);
    let m = ls.len();
    let n = cs.len();
    if n - i < m {
        return None;
    }
    let mut k: usize = 0;
    while k < m
        invariant
            k <= m,
            m == ls@.len(),
            ls@ == lit@,
            n == cs@.len(),
            i + m <= n,
            forall|t: int| 0 <= t < k ==> cs@[i + t] == lit@[t],
        decreases m - k,
    {
        if cs[i + k] != ls[k] {
            proof {
                if cs@.subrange(i as int, i + m) == lit@ {
                    assert(cs@.subrange(i as int, i + m)[k as int] == cs@[i + k]);
                }
            }
            return None;
        }
        k = k + 1;
    }
    assert(cs@.subrange(i as int, i + m) =~= lit@);
    Some(i + m)
}

/// The value of one hex digit character, if it is one in either case.
/// Exactly the canonical lowercase digits of `hex_char` are reported as
/// canonical.
fn hex_val(c: char) -> (r: Option<u8>)
    ensures
        r matches Some(d) ==> d < 16,
        forall|d: int| 0 <= d < 16 && c == hex_char(d) ==> r == Some(d as u8),
{
    proof {
        lemma_escape_codes();
        assert(('1' as u32) == 49);
        assert(('2' as u32) == 50);
        assert(('3' as u32) == 51);
        assert(('4' as u32) == 52);
        assert(('5' as u32) == 53);
        assert(('6' as u32) == 54);
        assert(('7' as u32) == 55);
        assert(('8' as u32) == 56);
        assert(('a' as u32) == 97);
        assert(('c' as u32) == 99);
        assert(('d' as u32) == 100);
        assert(('e' as u32) == 101);
    }
    let v = c as u32;
    if 48 <= v && v <= 57 {
        Some((v - 48) as u8)
    } else if 97 <= v && v <= 102 {
        Some((v - 87) as u8)
    } else if 65 <= v && v <= 70 {
        Some((v - 55) as u8)
    } else {
        None
    }
}

/// Decodes a JSON string literal starting at the opening quote of
/// position `i`; yields the decoded text and the position after the
/// closing quote.
///
/// Whenever the text from `i` onward is a canonical string literal
/// followed by anything, the decoder accepts it and returns exactly its
/// contents and extent.
#[verifier::rlimit(100)]
#[verifier::spinoff_prover]
fn decode_json_string(cs: &Vec<char>, i: usize) -> (r: Option<(String, usize)>)
    requires
        i <= cs@.len(),
    ensures
        r matches Some(p) ==> p.1 <= cs@.len(),
        forall|s0: Seq<char>, rest: Seq<char>|
            cs@.subrange(i as int, cs@.len() as int) == #[trigger] (json_string(s0) + rest) ==> (
            r matches Some(p) && p.0@ == s0 && p.1 == i + json_string(s0).len()),
{
    let ghost whole = cs@.subrange(i as int, cs@.len() as int);
    let n = cs.len();
    if i >= n || cs[i] != '"' {
        proof {
            assert forall|s0: Seq<char>, rest: Seq<char>|
                whole == #[trigger] (json_string(s0) + rest) implies false by {
                lemma_escape_codes();
                assert((json_string(s0) + rest)[0] == '"');
                assert(whole.len() >= 2);
                assert(whole[0] == cs@[i as int]);
            }
        }
        return None;
    }
    let mut out: Vec<char> = Vec::new();
    let mut j: usize = i + 1;
    proof {
        assert forall|s0: Seq<char>, rest: Seq<char>|
            whole == #[trigger] (json_string(s0) + rest) implies (out@.len() <= s0.len()
            && out@ == s0.take(out@.len() as int) && j - i == 1 + escape_string(
            s0.take(out@.len() as int),
        ).len() && cs@.subrange(j as int, n as int) == escape_string(s0.skip(out@.len() as int))
            + seq!['"'] + rest) by {
            assert(s0.take(0) =~= Seq::<char>::empty());
            assert(s0.skip(0) =~= s0);
            assert(escape_string(Seq::<char>::empty()).len() == 0);
            assert(cs@.subrange(i + 1, n as int) =~= whole.skip(1));
            assert(whole.skip(1) =~= escape_string(s0) + seq!['"'] + rest);
        }
    }
    while j < n
        invariant
            i < j <= n,
            n == cs@.len(),
            whole == cs@.subrange(i as int, n as int),
            forall|s0: Seq<char>, rest: Seq<char>|
                whole == #[trigger] (json_string(s0) + rest) ==> (out@.len() <= s0.len()
                && out@ == s0.take(out@.len() as int) && j - i == 1 + escape_string(
                s0.take(out@.len() as int),
            ).len() && cs@.subrange(j as int, n as int) == escape_string(
                s0.skip(out@.len() as int),
            ) + seq!['"'] + rest),
        decreases n - j,
    {
        let ghost out0 = out@;
        let ghost j0 = j as int;
        let c = cs[j];
        if c == '"' {
            let result = chars_to_string(&out);
            proof {
                assert forall|s0: Seq<char>, rest: Seq<char>|
                    whole == #[trigger] (json_string(s0) + rest) implies (result@ == s0 && j + 1
                    == i + json_string(s0).len()) by {
                    let k = out0.len() as int;
                    let rem = cs@.subrange(j0, n as int);
                    lemma_string_remaining(s0, k, rest, rem);
                    assert(rem[0] == c);
                    if k < s0.len() {
                        assert(false);
                    }
                    assert(out0 == s0.take(s0.len() as int));
                    assert(s0.take(s0.len() as int) =~= s0);
                    assert(json_string(s0).len() == 2 + escape_string(s0).len());
                }
            }
            return Some((result, j + 1));
        }
        if c == '\\' {
            if j + 1 >= n {
                proof {
                    assert forall|s0: Seq<char>, rest: Seq<char>|
                        whole == #[trigger] (json_string(s0) + rest) implies false by {
                        let k = out0.len() as int;
                        let rem = cs@.subrange(j0, n as int);
                        lemma_string_remaining(s0, k, rest, rem);
                        assert(rem[0] == '\\');
                        assert(k < s0.len());
                        lemma_escape_char_first(s0[k]);
                        assert(is_escaped(s0[k]));
                        assert(rem.len() >= 3);
                    }
                }
                return None;
            }
            let e = cs[j + 1];
            if e == '"' || e == '\\' || e == 'b' || e == 'f' || e == 'n' || e == 'r' || e == 't' {
                let decoded: char = if e == '"' {
                    '"'
                } else if e == '\\' {
                    '\\'
                } else if e == 'b' {
                    '\u{8}'
                } else if e == 'f' {
                    '\u{c}'
                } else if e == 'n' {
                    '\n'
                } else if e == 'r' {
                    '\r'
                } else {
                    '\t'
                };
                out.push(decoded);
                j = j + 2;
                proof {
                    assert forall|s0: Seq<char>, rest: Seq<char>|
                        whole == #[trigger] (json_string(s0) + rest) implies (out@.len()
                        <= s0.len() && out@ == s0.take(out@.len() as int) && j - i == 1
                        + escape_string(s0.take(out@.len() as int)).len() && cs@.subrange(
                        j as int,
                        n as int,
                    ) == escape_string(s0.skip(out@.len() as int)) + seq!['"'] + rest) by {
                        let k = out0.len() as int;
                        let rem = cs@.subrange(j0, n as int);
                        lemma_string_remaining(s0, k, rest, rem);
                        assert(rem[0] == '\\');
                        assert(k < s0.len());
                        lemma_escape_char_first(s0[k]);
                        lemma_escape_codes();
                        assert(is_escaped(s0[k]));
                        assert(rem[1] == escape_char(s0[k])[1]);
                        // the letter pins the escaped character
                        assert(has_short_escape(s0[k]));
                        assert(s0[k] == decoded);
                        assert(escape_char(s0[k]).len() == 2);
                        // one more decoded character
                        assert(out@ =~= s0.take(k + 1)) by {
                            assert(s0.take(k + 1).drop_last() =~= s0.take(k));
                        }
                        assert(s0.take(k + 1).drop_last() =~= s0.take(k));
                        assert(s0.take(k + 1).last() == s0[k]);
                        assert(escape_string(s0.take(k + 1)) == escape_string(s0.take(k))
                            + escape_char(s0[k]));
                        assert(cs@.subrange(j as int, n as int) =~= rem.skip(2));
                        assert(rem.skip(2) =~= escape_string(s0.skip(k + 1)) + seq!['"'] + rest);
                    }
                }
            } else if e == 'u' {
                if n - j < 6 {
                    proof {
                        assert forall|s0: Seq<char>, rest: Seq<char>|
                            whole == #[trigger] (json_string(s0) + rest) implies false by {
                            let k = out0.len() as int;
                            let rem = cs@.subrange(j0, n as int);
                            lemma_string_remaining(s0, k, rest, rem);
                            assert(k < s0.len());
                            lemma_escape_char_first(s0[k]);
                            lemma_escape_codes();
                            assert(is_escaped(s0[k]));
                            assert(rem[1] == escape_char(s0[k])[1]);
                            assert(!has_short_escape(s0[k]));
                            assert(escape_char(s0[k]).len() == 6);
                            assert(rem.len() >= 7);
                        }
                    }
                    return None;
                }
                let h0 = hex_val(cs[j + 2]);
                let h1 = hex_val(cs[j + 3]);
                let h2 = hex_val(cs[j + 4]);
                let h3 = hex_val(cs[j + 5]);
                proof {
                    assert forall|s0: Seq<char>, rest: Seq<char>|
                        whole == #[trigger] (json_string(s0) + rest) implies (h0 == Some(0u8)
                        && h1 == Some(0u8) && h2 is Some && h3 is Some) by {
                        let k = out0.len() as int;
                        let rem = cs@.subrange(j0, n as int);
                        lemma_string_remaining(s0, k, rest, rem);
                        assert(k < s0.len());
                        lemma_escape_char_first(s0[k]);
                        lemma_escape_codes();
                        assert(is_escaped(s0[k]));
                        assert(rem[1] == escape_char(s0[k])[1]);
                        assert(!has_short_escape(s0[k]));
                        let v = s0[k] as u32;
                        assert(escape_char(s0[k]) == seq![
                            '\\',
                            'u',
                            '0',
                            '0',
                            hex_char((v / 16) as int),
                            hex_char((v % 16) as int),
                        ]);
                        assert(rem[2] == '0' && rem[3] == '0');
                        assert(rem[4] == hex_char((v / 16) as int));
                        assert(rem[5] == hex_char((v % 16) as int));
                        assert(cs@[j0 + 2] == '0');
                        assert(hex_char(0) == '0');
                        assert(0 <= v / 16 < 16 && 0 <= v % 16 < 16);
                    }
                }
                let (d0, d1, d2, d3) = match (h0, h1, h2, h3) {
                    (Some(a), Some(b), Some(c2), Some(d)) => (a, b, c2, d),
                    _ => {
                        return None;
                    },
                };
                let value: u32 = (d0 as u32) * 4096 + (d1 as u32) * 256 + (d2 as u32) * 16 + (
                d3 as u32);
                if value > 255 {
                    proof {
                        assert forall|s0: Seq<char>, rest: Seq<char>|
                            whole == #[trigger] (json_string(s0) + rest) implies false by {
                            let k = out0.len() as int;
                            let rem = cs@.subrange(j0, n as int);
                            lemma_string_remaining(s0, k, rest, rem);
                            assert(k < s0.len());
                            lemma_escape_char_first(s0[k]);
                            lemma_escape_codes();
                            assert(is_escaped(s0[k]) && !has_short_escape(s0[k]));
                            let v = s0[k] as u32;
                            assert(rem[4] == hex_char((v / 16) as int));
                            assert(rem[5] == hex_char((v % 16) as int));
                            assert(cs@[j0 + 4] == hex_char((v / 16) as int));
                            assert(cs@[j0 + 5] == hex_char((v % 16) as int));
                            assert(0 <= v / 16 < 16 && 0 <= v % 16 < 16);
                            assert(h2 == Some((v / 16) as u8));
                            assert(h3 == Some((v % 16) as u8));
                            assert(d0 == 0 && d1 == 0);
                            assert(value == v);
                        }
                    }
                    return None;
                }
                out.push((value as u8) as char);
                j = j + 6;
                proof {
                    assert forall|s0: Seq<char>, rest: Seq<char>|
                        whole == #[trigger] (json_string(s0) + rest) implies (out@.len()
                        <= s0.len() && out@ == s0.take(out@.len() as int) && j - i == 1
                        + escape_string(s0.take(out@.len() as int)).len() && cs@.subrange(
                        j as int,
                        n as int,
                    ) == escape_string(s0.skip(out@.len() as int)) + seq!['"'] + rest) by {
                        let k = out0.len() as int;
                        let rem = cs@.subrange(j0, n as int);
                        lemma_string_remaining(s0, k, rest, rem);
                        assert(k < s0.len());
                        lemma_escape_char_first(s0[k]);
                        lemma_escape_codes();
                        assert(rem[0] == c);
                        assert(escape_char(s0[k])[0] == rem[0]);
                        if !is_escaped(s0[k]) {
                            assert(escape_char(s0[k]) == seq![s0[k]]);
                            assert(is_escaped('\\'));
                            assert(false);
                        }
                        assert(rem[1] == escape_char(s0[k])[1]);
                        assert(rem[1] == cs@[j0 + 1]);
                        if has_short_escape(s0[k]) {
                            assert(escape_char(s0[k])[1] != 'u');
                            assert(false);
                        }
                        assert(is_escaped(s0[k]) && !has_short_escape(s0[k]));
                        let v = s0[k] as u32;
                        assert(rem[4] == hex_char((v / 16) as int));
                        assert(rem[5] == hex_char((v % 16) as int));
                        assert(cs@[j0 + 4] == hex_char((v / 16) as int));
                        assert(cs@[j0 + 5] == hex_char((v % 16) as int));
                        assert(0 <= v / 16 < 16 && 0 <= v % 16 < 16);
                        assert(h2 == Some((v / 16) as u8));
                        assert(h3 == Some((v % 16) as u8));
                        assert(d0 == 0 && d1 == 0);
                        vstd::arithmetic::div_mod::lemma_fundamental_div_mod(v as int, 16);
                        assert(value == v);
                        // the decoded character is the escaped one
                        assert(((value as u8) as char) as u32 == v);
                        assert(((value as u8) as char) as u32 == s0[k] as u32);
                        lemma_char_code_injective((value as u8) as char, s0[k]);
                        assert((value as u8) as char == s0[k]);
                        assert(escape_char(s0[k]).len() == 6);
                        assert(out@ =~= s0.take(k + 1)) by {
                            assert(s0.take(k + 1).drop_last() =~= s0.take(k));
                        }
                        assert(s0.take(k + 1).drop_last() =~= s0.take(k));
                        assert(s0.take(k + 1).last() == s0[k]);
                        assert(escape_string(s0.take(k + 1)) == escape_string(s0.take(k))
                            + escape_char(s0[k]));
                        assert(cs@.subrange(j as int, n as int) =~= rem.skip(6));
                        assert(rem.skip(6) =~= escape_string(s0.skip(k + 1)) + seq!['"'] + rest);
                    }
                }
            } else if e == '/' {
                // accepted by permissive JSON readers, but never canonical
                out.push('/');
                j = j + 2;
                proof {
                    assert forall|s0: Seq<char>, rest: Seq<char>|
                        whole == #[trigger] (json_string(s0) + rest) implies false by {
                        let k = out0.len() as int;
                        let rem = cs@.subrange(j0, n as int);
                        lemma_string_remaining(s0, k, rest, rem);
                        assert(k < s0.len());
                        lemma_escape_char_first(s0[k]);
                        lemma_escape_codes();
                        assert(is_escaped(s0[k]));
                        assert(rem[1] == escape_char(s0[k])[1]);
                    }
                }
            } else {
                proof {
                    assert forall|s0: Seq<char>, rest: Seq<char>|
                        whole == #[trigger] (json_string(s0) + rest) implies false by {
                        let k = out0.len() as int;
                        let rem = cs@.subrange(j0, n as int);
                        lemma_string_remaining(s0, k, rest, rem);
                        assert(k < s0.len());
                        lemma_escape_char_first(s0[k]);
                        lemma_escape_codes();
                        assert(is_escaped(s0[k]));
                        assert(rem[1] == escape_char(s0[k])[1]);
                    }
                }
                return None;
            }
        } else {
            out.push(c);
            j = j + 1;
            proof {
                assert forall|s0: Seq<char>, rest: Seq<char>|
                    whole == #[trigger] (json_string(s0) + rest) implies (out@.len() <= s0.len()
                    && out@ == s0.take(out@.len() as int) && j - i == 1 + escape_string(
                    s0.take(out@.len() as int),
                ).len() && cs@.subrange(j as int, n as int) == escape_string(
                    s0.skip(out@.len() as int),
                ) + seq!['"'] + rest) by {
                    let k = out0.len() as int;
                    let rem = cs@.subrange(j0, n as int);
                    lemma_string_remaining(s0, k, rest, rem);
                    assert(rem[0] == c);
                    assert(k < s0.len());
                    lemma_escape_char_first(s0[k]);
                    lemma_escape_codes();
                    if is_escaped(s0[k]) {
                        assert(rem[0] == '\\');
                        assert(false);
                    }
                    assert(escape_char(s0[k]) == seq![s0[k]]);
                    assert(s0[k] == c);
                    assert(out@ =~= s0.take(k + 1)) by {
                        assert(s0.take(k + 1).drop_last() =~= s0.take(k));
                    }
                    assert(s0.take(k + 1).drop_last() =~= s0.take(k));
                    assert(s0.take(k + 1).last() == s0[k]);
                    assert(escape_string(s0.take(k + 1)) == escape_string(s0.take(k))
                        + escape_char(s0[k]));
                    assert(cs@.subrange(j as int, n as int) =~= rem.skip(1));
                    assert(rem.skip(1) =~= escape_string(s0.skip(k + 1)) + seq!['"'] + rest);
                }
            }
        }
    }
    proof {
        assert forall|s0: Seq<char>, rest: Seq<char>|
            whole == #[trigger] (json_string(s0) + rest) implies false by {
            let k = out@.len() as int;
            let rem = cs@.subrange(j as int, n as int);
            lemma_string_remaining(s0, k, rest, rem);
            assert(rem.len() == 0);
        }
    }
    None
}

/// Decodes a run of digits starting at `i` as a `u64`.
///
/// Whenever the text from `i` onward is a canonical numeral followed by
/// a non-digit (or nothing), the decoder accepts it and returns exactly
/// its value and extent.
#[verifier::rlimit(100)]
fn decode_u64(cs: &Vec<char>, i: usize) -> (r: Option<(u64, usize)>)
    requires
        i <= cs@.len(),
    ensures
        r matches Some(p) ==> i <= p.1 <= cs@.len(),
        forall|n0: nat, rest: Seq<char>|
            (cs@.subrange(i as int, cs@.len() as int) == #[trigger] (decimal_of(n0) + rest) && (
            rest.len() == 0 || !crate::numerals::is_digit(rest[0])) && n0 <= u64::MAX) ==> (
            r matches Some(p) && p.0 == n0 && p.1 == i + decimal_of(n0).len()),
{
    let ghost whole = cs@.subrange(i as int, cs@.len() as int);
    let n = cs.len();
    let mut k: usize = i;
    let mut stop: bool = false;
    while k < n && !stop
        invariant
            i <= k <= n,
            n == cs@.len(),
            forall|t: int| i <= t < k ==> crate::numerals::is_digit(#[trigger] cs@[t]),
            stop ==> k < n && !crate::numerals::is_digit(cs@[k as int]),
        decreases n - k, (if stop { 0int } else { 1int }),
    {
        let c = cs[k];
        if '0' <= c && c <= '9' {
            k = k + 1;
        } else {
            stop = true;
        }
    }
    proof {
        assert forall|n0: nat, rest: Seq<char>|
            (whole == #[trigger] (decimal_of(n0) + rest) && (rest.len() == 0
            || !crate::numerals::is_digit(rest[0])) && n0 <= u64::MAX) implies (i < k
            && k == i + decimal_of(n0).len() && cs@.subrange(i as int, k as int) == decimal_of(
            n0,
        )) by {
            crate::numerals::lemma_decimal_of(n0);
            let d = decimal_of(n0);
            assert forall|t: int| 0 <= t < d.len() implies cs@[i + t] == #[trigger] d[t] by {
                assert(whole[t] == (decimal_of(n0) + rest)[t]);
                assert((decimal_of(n0) + rest)[t] == d[t]);
                assert(whole[t] == cs@[i + t]);
            }
            // the scan stops exactly at the end of the numeral
            if k < i + d.len() {
                assert(crate::numerals::is_digit(d[k - i]));
                assert(cs@[i + (k - i)] == d[k - i]);
                assert(cs@[k as int] == d[k - i]);
                assert(k < n);
                assert(false);
            }
            if k > i + d.len() {
                assert(crate::numerals::is_digit(cs@[i + d.len()]));
                if rest.len() == 0 {
                    assert(whole.len() == d.len());
                } else {
                    assert(whole[d.len() as int] == rest[0]);
                }
                assert(false);
            }
            assert(cs@.subrange(i as int, k as int) =~= d);
        }
    }
    if k == i {
        return None;
    }
    match parse_u64_range(cs, i, k) {
        Ok(v) => {
            proof {
                assert forall|n0: nat, rest: Seq<char>|
                    (whole == #[trigger] (decimal_of(n0) + rest) && (rest.len() == 0
                    || !crate::numerals::is_digit(rest[0])) && n0 <= u64::MAX) implies (v == n0)
                    by {
                    crate::numerals::lemma_decimal_of(n0);
                    lemma_escape_codes();
                    let d = decimal_of(n0);
                    assert(crate::numerals::is_digit(d[0]));
                    assert(d[0] != '+');
                    assert(crate::numerals::numeral_body(d) == d);
                }
            }
            Some((v, k))
        },
        Err(_) => {
            proof {
                assert forall|n0: nat, rest: Seq<char>|
                    (whole == #[trigger] (decimal_of(n0) + rest) && (rest.len() == 0
                    || !crate::numerals::is_digit(rest[0])) && n0 <= u64::MAX) implies false by {
                    crate::numerals::lemma_decimal_of(n0);
                    lemma_escape_codes();
                    let d = decimal_of(n0);
                    assert(crate::numerals::is_digit(d[0]));
                    assert(d[0] != '+');
                    assert(crate::numerals::numeral_body(d) == d);
                }
            }
            None
        },
    }
}

/// Decodes an optionally negative run of digits starting at `i` as an
/// `i32`, with the same completeness for canonical signed numerals.
#[verifier::rlimit(100)]
fn decode_i32(cs: &Vec<char>, i: usize) -> (r: Option<(i32, usize)>)
    requires
        i <= cs@.len(),
    ensures
        r matches Some(p) ==> i <= p.1 <= cs@.len(),
        forall|c0: i32, rest: Seq<char>|
            (cs@.subrange(i as int, cs@.len() as int) == #[trigger] (json_i32(c0) + rest) && (
            rest.len() == 0 || !crate::numerals::is_digit(rest[0]))) ==> (r matches Some(p)
            && p.0 == c0 && p.1 == i + json_i32(c0).len()),
{
    let ghost whole = cs@.subrange(i as int, cs@.len() as int);
    let n = cs.len();
    if i < n && cs[i] == '-' {
        proof {
            assert forall|c0: i32, rest: Seq<char>|
                (whole == #[trigger] (json_i32(c0) + rest) && (rest.len() == 0
                || !crate::numerals::is_digit(rest[0]))) implies (c0 < 0 && cs@.subrange(
                i + 1,
                n as int,
            ) == decimal_of((-(c0 as int)) as nat) + rest) by {
                lemma_escape_codes();
                if c0 >= 0 {
                    crate::numerals::lemma_decimal_of(c0 as nat);
                    assert(whole[0] == decimal_of(c0 as nat)[0]);
                    assert(crate::numerals::is_digit(whole[0]));
                    assert(whole[0] == cs@[i as int]);
                    assert(false);
                }
                assert(cs@.subrange(i + 1, n as int) =~= whole.skip(1));
                assert(whole.skip(1) =~= decimal_of((-(c0 as int)) as nat) + rest);
            }
        }
        match decode_u64(cs, i + 1) {
            Some((v, j)) => {
                if v <= 2147483648 {
                    proof {
                        assert forall|c0: i32, rest: Seq<char>|
                            (whole == #[trigger] (json_i32(c0) + rest) && (rest.len() == 0
                            || !crate::numerals::is_digit(rest[0]))) implies (((-(
                        v as i64)) as i32) == c0 && j == i + json_i32(c0).len()) by {
                            assert(v == (-(c0 as int)) as nat);
                        }
                    }
                    Some(((-(v as i64)) as i32, j))
                } else {
                    proof {
                        assert forall|c0: i32, rest: Seq<char>|
                            (whole == #[trigger] (json_i32(c0) + rest) && (rest.len() == 0
                            || !crate::numerals::is_digit(rest[0]))) implies false by {
                            assert(v == (-(c0 as int)) as nat);
                        }
                    }
                    None
                }
            },
            None => {
                None
            },
        }
    } else {
        proof {
            assert forall|c0: i32, rest: Seq<char>|
                (whole == #[trigger] (json_i32(c0) + rest) && (rest.len() == 0
                || !crate::numerals::is_digit(rest[0]))) implies (c0 >= 0 && cs@.subrange(
                i as int,
                n as int,
            ) == decimal_of(c0 as nat) + rest && c0 as nat <= u64::MAX) by {
                lemma_escape_codes();
                if c0 < 0 {
                    assert(json_i32(c0).len() >= 1);
                    assert(json_i32(c0)[0] == '-');
                    assert(whole[0] == json_i32(c0)[0]);
                    assert(whole.len() >= 1);
                    assert(i < n);
                    assert(whole[0] == cs@[i as int]);
                    assert(false);
                }
            }
        }
        match decode_u64(cs, i) {
            Some((v, j)) => {
                if v <= 2147483647 {
                    Some((v as i32, j))
                } else {
                    proof {
                        assert forall|c0: i32, rest: Seq<char>|
                            (whole == #[trigger] (json_i32(c0) + rest) && (rest.len() == 0
                            || !crate::numerals::is_digit(rest[0]))) implies false by {
                            assert(v == c0 as nat);
                        }
                    }
                    None
                }
            },
            None => {
                None
            },
        }
    }
}

/// Decodes a JSON string literal at `i` and parses it as a memory.
///
/// Whenever the text from `i` onward is the canonical display string of
/// some memory followed by anything, the decoder accepts it and returns
/// that memory truncated to its display unit — which displays the same.
fn decode_memory(cs: &Vec<char>, i: usize) -> (r: Option<(Memory, usize)>)
    requires
        i <= cs@.len(),
    ensures
        r matches Some(p) ==> p.1 <= cs@.len(),
        forall|m0: Memory, rest: Seq<char>|
            cs@.subrange(i as int, cs@.len() as int) == #[trigger] (json_string(
                memory_display(m0),
            ) + rest) ==> (r matches Some(p) && p.0 == normalize_memory(m0) && memory_display(
            p.0,
        ) == memory_display(m0) && p.1 == i + json_string(memory_display(m0)).len()),
{
    let ghost whole = cs@.subrange(i as int, cs@.len() as int);
    match decode_json_string(cs, i) {
        Some((text, j)) => {
            match Memory::from_str(text.as_str()) {
                Ok(m) => {
                    proof {
                        assert forall|m0: Memory, rest: Seq<char>|
                            whole == #[trigger] (json_string(memory_display(m0)) + rest) implies (
                            m == normalize_memory(m0) && memory_display(m) == memory_display(m0)
                            && j == i + json_string(memory_display(m0)).len()) by {
                            assert(text@ == memory_display(m0));
                            crate::memory::lemma_memory_display_round_trip(m0);
                            lemma_normalize_memory_display(m0);
                        }
                    }
                    Some((m, j))
                },
                Err(_) => {
                    proof {
                        assert forall|m0: Memory, rest: Seq<char>|
                            whole == #[trigger] (json_string(memory_display(m0)) + rest) implies false by {
                            assert(text@ == memory_display(m0));
                            crate::memory::lemma_memory_display_round_trip(m0);
                        }
                    }
                    None
                },
            }
        },
        None => {
            None
        },
    }
}

/// Decodes a Success state, committing on its opening tag; complete for
/// canonical Success texts.
#[verifier::rlimit(100)]
#[verifier::spinoff_prover]
fn decode_success(cs: &Vec<char>) -> (r: Option<RunnerState>)
    ensures
        r is Some ==> "{\"Success\":{\"stdout\":"@.len() <= cs@.len() && cs@.subrange(
            0,
            "{\"Success\":{\"stdout\":"@.len() as int,
        ) == "{\"Success\":{\"stdout\":"@,
        (exists|st: RunnerState|
            cs@ == #[trigger] state_json(st) && st matches RunnerState::Success { .. }) ==> (
        r matches Some(c) && state_json(c) == cs@),
{
    let n = cs.len();
    let ghost ok = exists|st: RunnerState|
        cs@ == state_json(st) && (st matches RunnerState::Success { .. });
    let ghost gst = choose|st: RunnerState|
        cs@ == state_json(st) && (st matches RunnerState::Success { .. });
    let ghost go: Seq<char> = match gst {
        RunnerState::Success { stdout, .. } => stdout@,
        _ => Seq::<char>::empty(),
    };
    let ghost gm: Memory = match gst {
        RunnerState::Success { max_memory_usage, .. } => max_memory_usage,
        _ => Memory(0),
    };
    let ghost gt: nat = match gst {
        RunnerState::Success { ms_time_elapsed, .. } => ms_time_elapsed.0 as nat,
        _ => 0nat,
    };
    let ghost l1 = "{\"Success\":{\"stdout\":"@;
    let ghost l2 = ",\"max_memory_usage\":"@;
    let ghost l3 = ",\"ms_time_elapsed\":"@;
    let ghost close = "}}"@;
    proof {
        if ok {
            assert(cs@ == state_json(gst));
            assert(state_json(gst) == l1 + json_string(go) + l2 + json_string(memory_display(gm))
                + l3 + decimal_of(gt) + close);
            assert(gt <= u64::MAX);
        }
    }
    let j0 = match expect_lit(cs, 0, "{\"Success\":{\"stdout\":") {
        Some(j) => j,
        None => {
            proof {
                if ok {
                    assert(l1.len() <= cs@.len());
                    assert(cs@.subrange(0, l1.len() as int) =~= l1);
                }
            }
            return None;
        },
    };
    proof {
        if ok {
            assert(cs@.subrange(j0 as int, n as int) =~= json_string(go) + (l2 + json_string(
                memory_display(gm),
            ) + l3 + decimal_of(gt) + close));
        }
    }
    let (stdout, j1) = match decode_json_string(cs, j0) {
        Some(p) => p,
        None => {
            proof {
                if ok {
                    assert(false);
                }
            }
            return None;
        },
    };
    proof {
        if ok {
            assert(stdout@ == go && j1 == j0 + json_string(go).len());
            assert(cs@.subrange(j1 as int, n as int) =~= l2 + (json_string(memory_display(gm)) + (
            l3 + (decimal_of(gt) + close))));
            assert(j1 + l2.len() <= n);
            assert(cs@.subrange(j1 as int, j1 + l2.len()) =~= l2);
        }
    }
    let j2 = match expect_lit(cs, j1, ",\"max_memory_usage\":") {
        Some(j) => j,
        None => {
            proof {
                if ok {
                    assert(false);
                }
            }
            return None;
        },
    };
    proof {
        if ok {
            assert(j2 == j1 + l2.len());
            assert(cs@.subrange(j2 as int, n as int) =~= json_string(memory_display(gm)) + (l3 + (
            decimal_of(gt) + close)));
        }
    }
    let (mem, j3) = match decode_memory(cs, j2) {
        Some(p) => p,
        None => {
            proof {
                if ok {
                    assert(false);
                }
            }
            return None;
        },
    };
    proof {
        if ok {
            assert(memory_display(mem) == memory_display(gm));
            assert(j3 == j2 + json_string(memory_display(gm)).len());
            assert(cs@.subrange(j3 as int, n as int) =~= l3 + (decimal_of(gt) + close));
            assert(j3 + l3.len() <= n);
            assert(cs@.subrange(j3 as int, j3 + l3.len()) =~= l3);
        }
    }
    let j4 = match expect_lit(cs, j3, ",\"ms_time_elapsed\":") {
        Some(j) => j,
        None => {
            proof {
                if ok {
                    assert(false);
                }
            }
            return None;
        },
    };
    proof {
        if ok {
            assert(j4 == j3 + l3.len());
            assert(cs@.subrange(j4 as int, n as int) =~= decimal_of(gt) + close);
            reveal_strlit("}}");
            lemma_escape_codes();
            assert(close.len() == 2);
            assert(close[0] == '}');
            assert(!crate::numerals::is_digit(close[0]));
        }
    }
    let (ms, j5) = match decode_u64(cs, j4) {
        Some(p) => p,
        None => {
            proof {
                if ok {
                    assert(false);
                }
            }
            return None;
        },
    };
    proof {
        if ok {
            assert(ms == gt && j5 == j4 + decimal_of(gt).len());
            assert(cs@.subrange(j5 as int, n as int) =~= close);
            assert(j5 + close.len() <= n);
            assert(cs@.subrange(j5 as int, j5 + close.len()) =~= close);
        }
    }
    let j6 = match expect_lit(cs, j5, "}}") {
        Some(j) => j,
        None => {
            proof {
                if ok {
                    reveal_strlit("}}");
                    assert(false);
                }
            }
            return None;
        },
    };
    if j6 != n {
        proof {
            if ok {
                reveal_strlit("}}");
                assert(j6 == j5 + close.len());
                assert(j6 == n);
            }
        }
        return None;
    }
    let result = RunnerState::Success {
        stdout,
        max_memory_usage: mem,
        ms_time_elapsed: crate::time::MsTime(ms),
    };
    proof {
        if ok {
            assert(state_json(result) == l1 + json_string(stdout@) + l2 + json_string(
                memory_display(mem),
            ) + l3 + decimal_of(ms as nat) + close);
            assert(state_json(result) == cs@);
        }
    }
    Some(result)
}

/// Decodes a RuntimeError state, committing on its opening tag;
/// complete for canonical RuntimeError texts.
#[verifier::rlimit(100)]
#[verifier::spinoff_prover]
fn decode_runtime_error(cs: &Vec<char>) -> (r: Option<RunnerState>)
    ensures
        r is Some ==> "{\"RuntimeError\":{\"stderr\":"@.len() <= cs@.len() && cs@.subrange(
            0,
            "{\"RuntimeError\":{\"stderr\":"@.len() as int,
        ) == "{\"RuntimeError\":{\"stderr\":"@,
        (exists|st: RunnerState|
            cs@ == #[trigger] state_json(st) && st matches RunnerState::RuntimeError { .. }) ==> (
        r matches Some(c) && state_json(c) == cs@),
{
    let n = cs.len();
    let ghost ok = exists|st: RunnerState|
        cs@ == state_json(st) && (st matches RunnerState::RuntimeError { .. });
    let ghost gst = choose|st: RunnerState|
        cs@ == state_json(st) && (st matches RunnerState::RuntimeError { .. });
    let ghost ge: Seq<char> = match gst {
        RunnerState::RuntimeError { stderr, .. } => stderr@,
        _ => Seq::<char>::empty(),
    };
    let ghost gc: i32 = match gst {
        RunnerState::RuntimeError { exit_code, .. } => exit_code,
        _ => 0,
    };
    let ghost gm: Memory = match gst {
        RunnerState::RuntimeError { max_memory_usage, .. } => max_memory_usage,
        _ => Memory(0),
    };
    let ghost gt: nat = match gst {
        RunnerState::RuntimeError { ms_time_elapsed, .. } => ms_time_elapsed.0 as nat,
        _ => 0nat,
    };
    let ghost l1 = "{\"RuntimeError\":{\"stderr\":"@;
    let ghost lc = ",\"exit_code\":"@;
    let ghost l2 = ",\"max_memory_usage\":"@;
    let ghost l3 = ",\"ms_time_elapsed\":"@;
    let ghost close = "}}"@;
    proof {
        if ok {
            assert(cs@ == state_json(gst));
            assert(state_json(gst) == l1 + json_string(ge) + lc + json_i32(gc) + l2 + json_string(
                memory_display(gm),
            ) + l3 + decimal_of(gt) + close);
            assert(gt <= u64::MAX);
        }
    }
    let j0 = match expect_lit(cs, 0, "{\"RuntimeError\":{\"stderr\":") {
        Some(j) => j,
        None => {
            proof {
                if ok {
                    assert(l1.len() <= cs@.len());
                    assert(cs@.subrange(0, l1.len() as int) =~= l1);
                }
            }
            return None;
        },
    };
    proof {
        if ok {
            assert(cs@.subrange(j0 as int, n as int) =~= json_string(ge) + (lc + json_i32(gc) + l2
                + json_string(memory_display(gm)) + l3 + decimal_of(gt) + close));
        }
    }
    let (stderr, j1) = match decode_json_string(cs, j0) {
        Some(p) => p,
        None => {
            proof {
                if ok {
                    assert(false);
                }
            }
            return None;
        },
    };
    proof {
        if ok {
            assert(stderr@ == ge && j1 == j0 + json_string(ge).len());
            assert(cs@.subrange(j1 as int, n as int) =~= lc + (json_i32(gc) + (l2 + (json_string(
                memory_display(gm),
            ) + (l3 + (decimal_of(gt) + close))))));
            assert(j1 + lc.len() <= n);
            assert(cs@.subrange(j1 as int, j1 + lc.len()) =~= lc);
        }
    }
    let j2 = match expect_lit(cs, j1, ",\"exit_code\":") {
        Some(j) => j,
        None => {
            proof {
                if ok {
                    assert(false);
                }
            }
            return None;
        },
    };
    proof {
        if ok {
            assert(j2 == j1 + lc.len());
            assert(cs@.subrange(j2 as int, n as int) =~= json_i32(gc) + (l2 + (json_string(
                memory_display(gm),
            ) + (l3 + (decimal_of(gt) + close)))));
            reveal_strlit(",\"max_memory_usage\":");
            lemma_escape_codes();
            assert(l2[0] == ',');
            assert((l2 + (json_string(memory_display(gm)) + (l3 + (decimal_of(gt) + close))))[0]
                == ',');
            assert(!crate::numerals::is_digit(
                (l2 + (json_string(memory_display(gm)) + (l3 + (decimal_of(gt) + close))))[0],
            ));
        }
    }
    let (code, j3) = match decode_i32(cs, j2) {
        Some(p) => p,
        None => {
            proof {
                if ok {
                    assert(false);
                }
            }
            return None;
        },
    };
    proof {
        if ok {
            assert(code == gc && j3 == j2 + json_i32(gc).len());
            assert(cs@.subrange(j3 as int, n as int) =~= l2 + (json_string(memory_display(gm)) + (
            l3 + (decimal_of(gt) + close))));
            assert(j3 + l2.len() <= n);
            assert(cs@.subrange(j3 as int, j3 + l2.len()) =~= l2);
        }
    }
    let j4 = match expect_lit(cs, j3, ",\"max_memory_usage\":") {
        Some(j) => j,
        None => {
            proof {
                if ok {
                    assert(false);
                }
            }
            return None;
        },
    };
    proof {
        if ok {
            assert(j4 == j3 + l2.len());
            assert(cs@.subrange(j4 as int, n as int) =~= json_string(memory_display(gm)) + (l3 + (
            decimal_of(gt) + close)));
        }
    }
    let (mem, j5) = match decode_memory(cs, j4) {
        Some(p) => p,
        None => {
            proof {
                if ok {
                    assert(false);
                }
            }
            return None;
        },
    };
    proof {
        if ok {
            assert(memory_display(mem) == memory_display(gm));
            assert(j5 == j4 + json_string(memory_display(gm)).len());
            assert(cs@.subrange(j5 as int, n as int) =~= l3 + (decimal_of(gt) + close));
            assert(j5 + l3.len() <= n);
            assert(cs@.subrange(j5 as int, j5 + l3.len()) =~= l3);
        }
    }
    let j6 = match expect_lit(cs, j5, ",\"ms_time_elapsed\":") {
        Some(j) => j,
        None => {
            proof {
                if ok {
                    assert(false);
                }
            }
            return None;
        },
    };
    proof {
        if ok {
            assert(j6 == j5 + l3.len());
            assert(cs@.subrange(j6 as int, n as int) =~= decimal_of(gt) + close);
            reveal_strlit("}}");
            lemma_escape_codes();
            assert(close.len() == 2);
            assert(close[0] == '}');
            assert(!crate::numerals::is_digit(close[0]));
        }
    }
    let (ms, j7) = match decode_u64(cs, j6) {
        Some(p) => p,
        None => {
            proof {
                if ok {
                    assert(false);
                }
            }
            return None;
        },
    };
    proof {
        if ok {
            assert(ms == gt && j7 == j6 + decimal_of(gt).len());
            assert(cs@.subrange(j7 as int, n as int) =~= close);
            assert(j7 + close.len() <= n);
            assert(cs@.subrange(j7 as int, j7 + close.len()) =~= close);
        }
    }
    let j8 = match expect_lit(cs, j7, "}}") {
        Some(j) => j,
        None => {
            proof {
                if ok {
                    reveal_strlit("}}");
                    assert(false);
                }
            }
            return None;
        },
    };
    if j8 != n {
        proof {
            if ok {
                reveal_strlit("}}");
                assert(j8 == j7 + close.len());
                assert(j8 == n);
            }
        }
        return None;
    }
    let result = RunnerState::RuntimeError {
        stderr,
        exit_code: code,
        max_memory_usage: mem,
        ms_time_elapsed: crate::time::MsTime(ms),
    };
    proof {
        if ok {
            assert(state_json(result) == l1 + json_string(stderr@) + lc + json_i32(code) + l2
                + json_string(memory_display(mem)) + l3 + decimal_of(ms as nat) + close);
            assert(state_json(result) == cs@);
        }
    }
    Some(result)
}

/// Decodes a Timeout state, committing on its opening tag; complete for
/// canonical Timeout texts.
#[verifier::rlimit(100)]
#[verifier::spinoff_prover]
fn decode_timeout(cs: &Vec<char>) -> (r: Option<RunnerState>)
    ensures
        r is Some ==> "{\"Timeout\":{\"ms_time_elapsed\":"@.len() <= cs@.len() && cs@.subrange(
            0,
            "{\"Timeout\":{\"ms_time_elapsed\":"@.len() as int,
        ) == "{\"Timeout\":{\"ms_time_elapsed\":"@,
        (exists|st: RunnerState|
            cs@ == #[trigger] state_json(st) && st matches RunnerState::Timeout { .. }) ==> (
        r matches Some(c) && state_json(c) == cs@),
{
    let n = cs.len();
    let ghost ok = exists|st: RunnerState|
        cs@ == state_json(st) && (st matches RunnerState::Timeout { .. });
    let ghost gst = choose|st: RunnerState|
        cs@ == state_json(st) && (st matches RunnerState::Timeout { .. });
    let ghost gt: nat = match gst {
        RunnerState::Timeout { ms_time_elapsed } => ms_time_elapsed.0 as nat,
        _ => 0nat,
    };
    let ghost l1 = "{\"Timeout\":{\"ms_time_elapsed\":"@;
    let ghost close = "}}"@;
    proof {
        if ok {
            assert(cs@ == state_json(gst));
            assert(state_json(gst) == l1 + decimal_of(gt) + close);
            assert(gt <= u64::MAX);
        }
    }
    let j0 = match expect_lit(cs, 0, "{\"Timeout\":{\"ms_time_elapsed\":") {
        Some(j) => j,
        None => {
            proof {
                if ok {
                    assert(l1.len() <= cs@.len());
                    assert(cs@.subrange(0, l1.len() as int) =~= l1);
                }
            }
            return None;
        },
    };
    proof {
        if ok {
            assert(cs@.subrange(j0 as int, n as int) =~= decimal_of(gt) + close);
            reveal_strlit("}}");
            lemma_escape_codes();
            assert(close.len() == 2);
            assert(close[0] == '}');
            assert(!crate::numerals::is_digit(close[0]));
        }
    }
    let (ms, j1) = match decode_u64(cs, j0) {
        Some(p) => p,
        None => {
            proof {
                if ok {
                    assert(false);
                }
            }
            return None;
        },
    };
    proof {
        if ok {
            assert(ms == gt && j1 == j0 + decimal_of(gt).len());
            assert(cs@.subrange(j1 as int, n as int) =~= close);
            assert(j1 + close.len() <= n);
            assert(cs@.subrange(j1 as int, j1 + close.len()) =~= close);
        }
    }
    let j2 = match expect_lit(cs, j1, "}}") {
        Some(j) => j,
        None => {
            proof {
                if ok {
                    reveal_strlit("}}");
                    assert(false);
                }
            }
            return None;
        },
    };
    if j2 != n {
        proof {
            if ok {
                reveal_strlit("}}");
                assert(j2 == j1 + close.len());
                assert(j2 == n);
            }
        }
        return None;
    }
    let result = RunnerState::Timeout { ms_time_elapsed: crate::time::MsTime(ms) };
    proof {
        if ok {
            assert(state_json(result) == l1 + decimal_of(ms as nat) + close);
            assert(state_json(result) == cs@);
        }
    }
    Some(result)
}

/// Decodes a MemoryLimit state, committing on its opening tag; complete
/// for canonical MemoryLimit texts.
#[verifier::rlimit(100)]
#[verifier::spinoff_prover]
fn decode_memory_limit(cs: &Vec<char>) -> (r: Option<RunnerState>)
    ensures
        r is Some ==> "{\"MemoryLimit\":{\"max_memory_usage\":"@.len() <= cs@.len()
            && cs@.subrange(
            0,
            "{\"MemoryLimit\":{\"max_memory_usage\":"@.len() as int,
        ) == "{\"MemoryLimit\":{\"max_memory_usage\":"@,
        (exists|st: RunnerState|
            cs@ == #[trigger] state_json(st) && st matches RunnerState::MemoryLimit { .. }) ==> (
        r matches Some(c) && state_json(c) == cs@),
{
    let n = cs.len();
    let ghost ok = exists|st: RunnerState|
        cs@ == state_json(st) && (st matches RunnerState::MemoryLimit { .. });
    let ghost gst = choose|st: RunnerState|
        cs@ == state_json(st) && (st matches RunnerState::MemoryLimit { .. });
    let ghost gm: Memory = match gst {
        RunnerState::MemoryLimit { max_memory_usage } => max_memory_usage,
        _ => Memory(0),
    };
    let ghost l1 = "{\"MemoryLimit\":{\"max_memory_usage\":"@;
    let ghost close = "}}"@;
    proof {
        if ok {
            assert(cs@ == state_json(gst));
            assert(state_json(gst) == l1 + json_string(memory_display(gm)) + close);
        }
    }
    let j0 = match expect_lit(cs, 0, "{\"MemoryLimit\":{\"max_memory_usage\":") {
        Some(j) => j,
        None => {
            proof {
                if ok {
                    assert(l1.len() <= cs@.len());
                    assert(cs@.subrange(0, l1.len() as int) =~= l1);
                }
            }
            return None;
        },
    };
    proof {
        if ok {
            assert(cs@.subrange(j0 as int, n as int) =~= json_string(memory_display(gm)) + close);
        }
    }
    let (mem, j1) = match decode_memory(cs, j0) {
        Some(p) => p,
        None => {
            proof {
                if ok {
                    assert(false);
                }
            }
            return None;
        },
    };
    proof {
        if ok {
            assert(memory_display(mem) == memory_display(gm));
            assert(j1 == j0 + json_string(memory_display(gm)).len());
            assert(cs@.subrange(j1 as int, n as int) =~= close);
            assert(j1 + close.len() <= n);
            assert(cs@.subrange(j1 as int, j1 + close.len()) =~= close);
        }
    }
    let j2 = match expect_lit(cs, j1, "}}") {
        Some(j) => j,
        None => {
            proof {
                if ok {
                    reveal_strlit("}}");
                    assert(false);
                }
            }
            return None;
        },
    };
    if j2 != n {
        proof {
            if ok {
                reveal_strlit("}}");
                assert(j2 == j1 + close.len());
                assert(j2 == n);
            }
        }
        return None;
    }
    let result = RunnerState::MemoryLimit { max_memory_usage: mem };
    proof {
        if ok {
            assert(state_json(result) == l1 + json_string(memory_display(mem)) + close);
            assert(state_json(result) == cs@);
        }
    }
    Some(result)
}

/// Decodes a CompileError state, committing on its opening tag;
/// complete for canonical CompileError texts.
#[verifier::rlimit(100)]
#[verifier::spinoff_prover]
fn decode_compile_error(cs: &Vec<char>) -> (r: Option<RunnerState>)
    ensures
        r is Some ==> "{\"CompileError\":{\"stderr\":"@.len() <= cs@.len() && cs@.subrange(
            0,
            "{\"CompileError\":{\"stderr\":"@.len() as int,
        ) == "{\"CompileError\":{\"stderr\":"@,
        (exists|st: RunnerState|
            cs@ == #[trigger] state_json(st) && st matches RunnerState::CompileError { .. }) ==> (
        r matches Some(c) && state_json(c) == cs@),
{
    let n = cs.len();
    let ghost ok = exists|st: RunnerState|
        cs@ == state_json(st) && (st matches RunnerState::CompileError { .. });
    let ghost gst = choose|st: RunnerState|
        cs@ == state_json(st) && (st matches RunnerState::CompileError { .. });
    let ghost ge: Seq<char> = match gst {
        RunnerState::CompileError { stderr } => stderr@,
        _ => Seq::<char>::empty(),
    };
    let ghost l1 = "{\"CompileError\":{\"stderr\":"@;
    let ghost close = "}}"@;
    proof {
        if ok {
            assert(cs@ == state_json(gst));
            assert(state_json(gst) == l1 + json_string(ge) + close);
        }
    }
    let j0 = match expect_lit(cs, 0, "{\"CompileError\":{\"stderr\":") {
        Some(j) => j,
        None => {
            proof {
                if ok {
                    assert(l1.len() <= cs@.len());
                    assert(cs@.subrange(0, l1.len() as int) =~= l1);
                }
            }
            return None;
        },
    };
    proof {
        if ok {
            assert(cs@.subrange(j0 as int, n as int) =~= json_string(ge) + close);
        }
    }
    let (stderr, j1) = match decode_json_string(cs, j0) {
        Some(p) => p,
        None => {
            proof {
                if ok {
                    assert(false);
                }
            }
            return None;
        },
    };
    proof {
        if ok {
            assert(stderr@ == ge && j1 == j0 + json_string(ge).len());
            assert(cs@.subrange(j1 as int, n as int) =~= close);
            assert(j1 + close.len() <= n);
            assert(cs@.subrange(j1 as int, j1 + close.len()) =~= close);
        }
    }
    let j2 = match expect_lit(cs, j1, "}}") {
        Some(j) => j,
        None => {
            proof {
                if ok {
                    reveal_strlit("}}");
                    assert(false);
                }
            }
            return None;
        },
    };
    if j2 != n {
        proof {
            if ok {
                reveal_strlit("}}");
                assert(j2 == j1 + close.len());
                assert(j2 == n);
            }
        }
        return None;
    }
    let result = RunnerState::CompileError { stderr };
    proof {
        if ok {
            assert(state_json(result) == l1 + json_string(stderr@) + close);
            assert(state_json(result) == cs@);
        }
    }
    Some(result)
}

/// Decodes a candidate state from the whole text; the caller re-encodes
/// the candidate to check it against the input.  Complete: a canonical
/// text always decodes, to a state with that same canonical text.
#[verifier::rlimit(100)]
#[verifier::spinoff_prover]
fn decode_state(cs: &Vec<char>) -> (r: Option<RunnerState>)
    ensures
        (exists|st: RunnerState| cs@ == #[trigger] state_json(st)) ==> (r matches Some(c)
            && state_json(c) == cs@),
{
    let ghost any = exists|st: RunnerState| cs@ == state_json(st);
    let ghost gany = choose|st: RunnerState| cs@ == state_json(st);
    let n = cs.len();
    if let Some(j) = expect_lit(cs, 0, "\"InternalError\"") {
        if j == n {
            proof {
                reveal_strlit("\"InternalError\"");
                assert(cs@ =~= "\"InternalError\""@);
                assert(state_json(RunnerState::InternalError) == cs@);
            }
            return Some(RunnerState::InternalError);
        }
        proof {
            if any {
                lemma_state_json_shape(gany);
                lemma_escape_codes();
                reveal_strlit("\"InternalError\"");
                assert(cs@.subrange(0, "\"InternalError\""@.len() as int)
                    == "\"InternalError\""@);
                assert(cs@.subrange(0, "\"InternalError\""@.len() as int)[0] == cs@[0]);
                assert(cs@[0] == '"');
                match gany {
                    RunnerState::InternalError => {
                        assert(cs@ == state_json(gany));
                        assert(cs@.len() == "\"InternalError\""@.len());
                        assert(j == n);
                    },
                    _ => {
                        assert(state_json(gany)[0] != '"');
                    },
                }
                assert(false);
            }
        }
        return None;
    }
    if let Some(c) = decode_success(cs) {
        proof {
            if any {
                lemma_state_json_shape(gany);
                lemma_escape_codes();
                reveal_strlit("{\"Success\":{\"stdout\":");
                let l1 = "{\"Success\":{\"stdout\":"@;
                assert(cs@.subrange(0, l1.len() as int) == l1);
                assert(cs@.subrange(0, l1.len() as int)[0] == cs@[0]);
                assert(cs@.subrange(0, l1.len() as int)[2] == cs@[2]);
                assert(cs@[0] == l1[0] && cs@[2] == l1[2]);
                assert(cs@[0] == '{' && cs@[2] == 'S');
                match gany {
                    RunnerState::Success { .. } => {
                        assert(cs@ == state_json(gany) && (gany
                            matches RunnerState::Success { .. }));
                    },
                    RunnerState::InternalError => {
                        assert(state_json(gany)[0] == '"');
                        assert(false);
                    },
                    _ => {
                        assert(state_json(gany)[2] != 'S');
                        assert(false);
                    },
                }
            }
        }
        return Some(c);
    }
    if let Some(c) = decode_runtime_error(cs) {
        proof {
            if any {
                lemma_state_json_shape(gany);
                lemma_escape_codes();
                reveal_strlit("{\"RuntimeError\":{\"stderr\":");
                let l1 = "{\"RuntimeError\":{\"stderr\":"@;
                assert(cs@.subrange(0, l1.len() as int) == l1);
                assert(cs@.subrange(0, l1.len() as int)[0] == cs@[0]);
                assert(cs@.subrange(0, l1.len() as int)[2] == cs@[2]);
                assert(cs@[0] == l1[0] && cs@[2] == l1[2]);
                assert(cs@[0] == '{' && cs@[2] == 'R');
                match gany {
                    RunnerState::RuntimeError { .. } => {
                        assert(cs@ == state_json(gany) && (gany
                            matches RunnerState::RuntimeError { .. }));
                    },
                    RunnerState::InternalError => {
                        assert(state_json(gany)[0] == '"');
                        assert(false);
                    },
                    _ => {
                        assert(state_json(gany)[2] != 'R');
                        assert(false);
                    },
                }
            }
        }
        return Some(c);
    }
    if let Some(c) = decode_timeout(cs) {
        proof {
            if any {
                lemma_state_json_shape(gany);
                lemma_escape_codes();
                reveal_strlit("{\"Timeout\":{\"ms_time_elapsed\":");
                let l1 = "{\"Timeout\":{\"ms_time_elapsed\":"@;
                assert(cs@.subrange(0, l1.len() as int) == l1);
                assert(cs@.subrange(0, l1.len() as int)[0] == cs@[0]);
                assert(cs@.subrange(0, l1.len() as int)[2] == cs@[2]);
                assert(cs@[0] == l1[0] && cs@[2] == l1[2]);
                assert(cs@[0] == '{' && cs@[2] == 'T');
                match gany {
                    RunnerState::Timeout { .. } => {
                        assert(cs@ == state_json(gany) && (gany
                            matches RunnerState::Timeout { .. }));
                    },
                    RunnerState::InternalError => {
                        assert(state_json(gany)[0] == '"');
                        assert(false);
                    },
                    _ => {
                        assert(state_json(gany)[2] != 'T');
                        assert(false);
                    },
                }
            }
        }
        return Some(c);
    }
    if let Some(c) = decode_memory_limit(cs) {
        proof {
            if any {
                lemma_state_json_shape(gany);
                lemma_escape_codes();
                reveal_strlit("{\"MemoryLimit\":{\"max_memory_usage\":");
                let l1 = "{\"MemoryLimit\":{\"max_memory_usage\":"@;
                assert(cs@.subrange(0, l1.len() as int) == l1);
                assert(cs@.subrange(0, l1.len() as int)[0] == cs@[0]);
                assert(cs@.subrange(0, l1.len() as int)[2] == cs@[2]);
                assert(cs@[0] == l1[0] && cs@[2] == l1[2]);
                assert(cs@[0] == '{' && cs@[2] == 'M');
                match gany {
                    RunnerState::MemoryLimit { .. } => {
                        assert(cs@ == state_json(gany) && (gany
                            matches RunnerState::MemoryLimit { .. }));
                    },
                    RunnerState::InternalError => {
                        assert(state_json(gany)[0] == '"');
                        assert(false);
                    },
                    _ => {
                        assert(state_json(gany)[2] != 'M');
                        assert(false);
                    },
                }
            }
        }
        return Some(c);
    }
    if let Some(c) = decode_compile_error(cs) {
        proof {
            if any {
                lemma_state_json_shape(gany);
                lemma_escape_codes();
                reveal_strlit("{\"CompileError\":{\"stderr\":");
                let l1 = "{\"CompileError\":{\"stderr\":"@;
                assert(cs@.subrange(0, l1.len() as int) == l1);
                assert(cs@.subrange(0, l1.len() as int)[0] == cs@[0]);
                assert(cs@.subrange(0, l1.len() as int)[2] == cs@[2]);
                assert(cs@[0] == l1[0] && cs@[2] == l1[2]);
                assert(cs@[0] == '{' && cs@[2] == 'C');
                match gany {
                    RunnerState::CompileError { .. } => {
                        assert(cs@ == state_json(gany) && (gany
                            matches RunnerState::CompileError { .. }));
                    },
                    RunnerState::InternalError => {
                        assert(state_json(gany)[0] == '"');
                        assert(false);
                    },
                    _ => {
                        assert(state_json(gany)[2] != 'C');
                        assert(false);
                    },
                }
            }
        }
        return Some(c);
    }
    proof {
        if any {
            lemma_state_json_shape(gany);
            match gany {
                RunnerState::Success { .. } => {
                    assert(cs@ == state_json(gany) && (gany matches RunnerState::Success { .. }));
                },
                RunnerState::RuntimeError { .. } => {
                    assert(cs@ == state_json(gany) && (gany
                        matches RunnerState::RuntimeError { .. }));
                },
                RunnerState::Timeout { .. } => {
                    assert(cs@ == state_json(gany) && (gany matches RunnerState::Timeout { .. }));
                },
                RunnerState::MemoryLimit { .. } => {
                    assert(cs@ == state_json(gany) && (gany
                        matches RunnerState::MemoryLimit { .. }));
                },
                RunnerState::CompileError { .. } => {
                    assert(cs@ == state_json(gany) && (gany
                        matches RunnerState::CompileError { .. }));
                },
                RunnerState::InternalError => {
                    reveal_strlit("\"InternalError\"");
                    assert(cs@ == "\"InternalError\""@);
                    assert(cs@.subrange(0, "\"InternalError\""@.len() as int)
                        =~= "\"InternalError\""@);
                },
            }
            assert(false);
        }
    }
    None
}

impl RunnerState {
    /// The canonical JSON text of this state.
    pub fn to_json(&self) -> (r: String)
        ensures
            r@ == state_json(*self),
    {
        let cs = state_json_chars(self);
        chars_to_string(&cs)
    }

    /// Reads a state back from its canonical JSON text.
    ///
    /// Two-sided: a returned state is one whose canonical text is exactly
    /// the input — the decoded candidate is re-encoded and admitted only
    /// if the two agree — and a rejection means no state's canonical text
    /// is the input, so every canonical text is accepted.
    pub fn from_json(s: &str) -> (r: Option<RunnerState>)
        ensures
            r matches Some(st) ==> s@ == state_json(st),
            r is None ==> forall|st: RunnerState| s@ != state_json(st),
    {
        let cs = str_to_chars(s);
        match decode_state(&cs) {
            Some(st) => {
                let ser = state_json_chars(&st);
                if chars_eq(&cs, &ser) {
                    Some(st)
                } else {
                    proof {
                        assert forall|st0: RunnerState| s@ != state_json(st0) by {
                            if s@ == state_json(st0) {
                                assert(false);
                            }
                        }
                    }
                    None
                }
            },
            None => {
                proof {
                    assert forall|st0: RunnerState| s@ != state_json(st0) by {
                        if s@ == state_json(st0) {
                            assert(false);
                        }
                    }
                }
                None
            },
        }
    }
}

} // verus!
