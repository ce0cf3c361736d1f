//! Decimal numerals: the spec-level meaning of digit strings, a verified
//! formatter and a verified parser for `u64` values.
//!
//! Everything here works on sequences of characters; the rest of the crate
//! builds memory sizes, durations and command lines on top of it.

use vstd::prelude::*;

verus! {

/// `c` is a decimal digit.
pub open spec fn is_digit(c: char) -> bool {
    '0' <= c && c <= '9'
}

/// The value of a single decimal digit.
pub open spec fn digit_value(c: char) -> int {
    c as int - '0' as int
}

/// Every character of `s` is a decimal digit.
pub open spec fn all_digits(s: Seq<char>) -> bool {
    forall|i: int| 0 <= i < s.len() ==> is_digit(#[trigger] s[i])
}

/// The number denoted by a digit string, most significant digit first.
pub open spec fn numeral_value(s: Seq<char>) -> int
    decreases s.len(),
{
    if s.len() == 0 {
        0
    } else {
        numeral_value(s.drop_last()) * 10 + digit_value(s.last())
    }
}

/// The digit character for a value below ten.
pub open spec fn digit_char(d: int) -> char {
    if d == 0 { '0' }
    else if d == 1 { '1' }
    else if d == 2 { '2' }
    else if d == 3 { '3' }
    else if d == 4 { '4' }
    else if d == 5 { '5' }
    else if d == 6 { '6' }
    else if d == 7 { '7' }
    else if d == 8 { '8' }
    else { '9' }
}

/// The canonical decimal numeral of `n`: no sign, no leading zero.
pub open spec fn decimal_of(n: nat) -> Seq<char>
    decreases n,
{
    if n < 10 {
        seq![digit_char(n as int)]
    } else {
        decimal_of(n / 10).push(digit_char((n % 10) as int))
    }
}

/// A numeral as `str::parse::<u64>` reads it: an optional leading plus
/// sign followed by at least one digit.  `numeral_body` strips the sign.
pub open spec fn numeral_body(s: Seq<char>) -> Seq<char> {
    if s.len() > 0 && s[0] == '+' {
        s.drop_first()
    } else {
        s
    }
}

/// `s` is a well-formed decimal numeral (ignoring overflow).
pub open spec fn is_numeral(s: Seq<char>) -> bool {
    numeral_body(s).len() > 0 && all_digits(numeral_body(s))
}

/// `s` is a numeral whose value fits in a `u64`.
pub open spec fn parses_to_u64(s: Seq<char>) -> bool {
    is_numeral(s) && numeral_value(numeral_body(s)) <= u64::MAX as int
}

/// Why a string failed to parse as a `u64`.
#[derive(Debug, Clone, Copy, PartialEq, Eq, Structural)]
pub enum ParseNumberError {
    /// The string was empty.
    Empty,
    /// The string held a character that is not part of a numeral.
    Invalid,
    /// The numeral denotes a value above `u64::MAX`.
    Overflow,
}

/// Digit characters denote their digit.
pub proof fn lemma_digit_char_value(d: int)
    requires
        0 <= d < 10,
    ensures
        is_digit(digit_char(d)),
        digit_value(digit_char(d)) == d,
{
}

/// The canonical numeral of `n` is made of digits, is never empty, never
/// starts with a zero unless it is exactly "0", and denotes `n`.
pub proof fn lemma_decimal_of(n: nat)
    ensures
        decimal_of(n).len() >= 1,
        all_digits(decimal_of(n)),
        numeral_value(decimal_of(n)) == n,
        n >= 10 ==> decimal_of(n).len() >= 2,
        decimal_of(n)[0] == '0' ==> n == 0,
    decreases n,
{
    if n < 10 {
        lemma_digit_char_value(n as int);
        let single = seq![digit_char(n as int)];
        assert(single.drop_last() =~= Seq::<char>::empty());
        assert(numeral_value(Seq::<char>::empty()) == 0);
        assert(single.last() == digit_char(n as int));
    } else {
        lemma_decimal_of(n / 10);
        lemma_digit_char_value((n % 10) as int);
        let prefix = decimal_of(n / 10);
        let d = digit_char((n % 10) as int);
        assert(decimal_of(n) == prefix.push(d));
        assert(prefix.push(d).drop_last() =~= prefix);
        assert(prefix.push(d).last() == d);
        assert(numeral_value(decimal_of(n)) == numeral_value(prefix) * 10 + (n % 10));
        assert(numeral_value(prefix) == n / 10);
        assert((n / 10) * 10 + n % 10 == n) by {
            vstd::arithmetic::div_mod::lemma_fundamental_div_mod(n as int, 10);
        }
        assert(forall|i: int| 0 <= i < decimal_of(n).len() ==> is_digit(#[trigger] decimal_of(n)[i]));
    }
}

/// Appends the canonical decimal numeral of `n` to `out`.
pub fn push_decimal(n: u64, out: &mut Vec<char>)
    ensures
        final(out)@ == old(out)@ + decimal_of(n as nat),
    decreases n,
{
    if n < 10 {
        out.push(digit_to_char((n % 10) as u8));
        assert(out@ =~= old(out)@ + decimal_of(n as nat));
    } else {
        push_decimal(n / 10, out);
        out.push(digit_to_char((n % 10) as u8));
        assert(out@ =~= old(out)@ + decimal_of(n as nat));
    }
}

/// The canonical decimal numeral of `n`, as a fresh character vector.
pub fn format_u64(n: u64) -> (r: Vec<char>)
    ensures
        r@ == decimal_of(n as nat),
{
    let mut out: Vec<char> = Vec::new();
    push_decimal(n, &mut out);
    assert(out@ =~= decimal_of(n as nat));
    out
}

/// The digit character of a value below ten.
fn digit_to_char(d: u8) -> (c: char)
    requires
        d < 10,
    ensures
        c == digit_char(d as int),
{
    match d {
        0 => '0',
        1 => '1',
        2 => '2',
        3 => '3',
        4 => '4',
        5 => '5',
        6 => '6',
        7 => '7',
        8 => '8',
        _ => '9',
    }
}

/// The digit value of a digit character.
fn char_to_digit(c: char) -> (r: Option<u8>)
    ensures
        match r {
            Some(d) => is_digit(c) && d == digit_value(c) && d < 10,
            None => !is_digit(c),
        },
{
    let v = c as u32;
    if 48 <= v && v <= 57 {
        Some((v - 48) as u8)
    } else {
        None
    }
}

/// Growing a numeral by one digit multiplies its value by ten and adds
/// the digit; a value that already overflows keeps overflowing.
proof fn lemma_numeral_step(s: Seq<char>, i: int)
    requires
        0 <= i < s.len(),
    ensures
        numeral_value(s.subrange(0, i + 1)) == numeral_value(s.subrange(0, i)) * 10 + digit_value(s[i]),
{
    let t = s.subrange(0, i + 1);
    assert(t.drop_last() =~= s.subrange(0, i));
    assert(t.last() == s[i]);
}

/// Parses the characters of `s` from `a` (inclusive) to `b` (exclusive) as
/// `str::parse::<u64>` would: an optional leading `+`, then digits.
///
/// The result is pinned down exactly: `Ok(n)` precisely when the range is a
/// numeral whose value is `n` and fits in a `u64`; each error names the
/// reason.
pub fn parse_u64_range(s: &Vec<char>, a: usize, b: usize) -> (r: Result<u64, ParseNumberError>)
    requires
        a <= b <= s@.len(),
    ensures
        ({
            let t = s@.subrange(a as int, b as int);
            match r {
                Ok(n) => is_numeral(t) && numeral_value(numeral_body(t)) == n as int,
                Err(ParseNumberError::Empty) => t.len() == 0,
                Err(ParseNumberError::Invalid) => t.len() > 0 && !is_numeral(t),
                Err(ParseNumberError::Overflow) => is_numeral(t) && numeral_value(numeral_body(t)) > u64::MAX as int,
            }
        }),
{
    let ghost t = s@.subrange(a as int, b as int);
    if a == b {
        return Err(ParseNumberError::Empty);
    }
    // skip one leading plus sign
    let start: usize = if s[a] == '+' { a + 1 } else { a };
    let ghost body = t.subrange((start - a) as int, (b - a) as int);
    proof {
        assert(numeral_body(t) =~= body);
    }
    if start == b {
        assert(t.len() > 0 && numeral_body(t).len() == 0);
        return Err(ParseNumberError::Invalid);
    }
    let mut acc: u64 = 0;
    let mut over: bool = false;
    let mut i: usize = start;
    while i < b
        invariant
            start <= i <= b <= s@.len(),
            a <= start,
            start < b,
            t == s@.subrange(a as int, b as int),
            t.len() > 0,
            numeral_body(t) == body,
            body == s@.subrange(start as int, b as int),
            all_digits(body.subrange(0, i - start)),
            !over ==> acc as int == numeral_value(body.subrange(0, i - start)),
            over ==> numeral_value(body.subrange(0, i - start)) > u64::MAX as int,
        decreases b - i,
    {
        let ghost done = body.subrange(0, i - start);
        let c = s[i];
        assert(body[i - start] == c);
        match char_to_digit(c) {
            None => {
                assert(!is_digit(body[i - start]));
                assert(!all_digits(body));
                return Err(ParseNumberError::Invalid);
            },
            Some(d) => {
                proof {
                    lemma_numeral_step(body, i - start);
                    assert(body.subrange(0, i - start + 1) =~= done.push(c));
                }
                if over {
                    proof {
                        assert(numeral_value(body.subrange(0, i - start + 1)) == numeral_value(done) * 10 + d);
                        assert(numeral_value(done) * 10 > u64::MAX as int * 10) by (nonlinear_arith)
                            requires numeral_value(done) > u64::MAX as int;
                        assert(numeral_value(body.subrange(0, i - start + 1)) > u64::MAX as int);
                    }
                } else {
                    match acc.checked_mul(10) {
                        Some(m) => {
                            match m.checked_add(d as u64) {
                                Some(v) => {
                                    acc = v;
                                },
                                None => {
                                    over = true;
                                },
                            }
                        },
                        None => {
                            over = true;
                        },
                    }
                    proof {
                        assert(numeral_value(body.subrange(0, i - start + 1)) == numeral_value(done) * 10 + d);
                    }
                }
                assert(all_digits(body.subrange(0, i - start + 1))) by {
                    assert(forall|j: int| 0 <= j < i - start + 1 ==> is_digit(#[trigger] body.subrange(0, i - start + 1)[j]));
                }
                i = i + 1;
            },
        }
    }
    proof {
        assert(body.subrange(0, (b - start) as int) =~= body);
    }
    if over {
        Err(ParseNumberError::Overflow)
    } else {
        Ok(acc)
    }
}

/// Parses a whole character vector as a `u64`.
pub fn parse_u64(s: &Vec<char>) -> (r: Result<u64, ParseNumberError>)
    ensures
        match r {
            Ok(n) => is_numeral(s@) && numeral_value(numeral_body(s@)) == n as int,
            Err(ParseNumberError::Empty) => s@.len() == 0,
            Err(ParseNumberError::Invalid) => s@.len() > 0 && !is_numeral(s@),
            Err(ParseNumberError::Overflow) => is_numeral(s@) && numeral_value(numeral_body(s@)) > u64::MAX as int,
        },
{
    let n = s.len();
    let r = parse_u64_range(s, 0, n);
    proof {
        assert(s@.subrange(0, s@.len() as int) =~= s@);
    }
    r
}

} // verus!
