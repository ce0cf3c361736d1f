//! Byte counts with whole-unit constructors and a suffixed string form.
//!
//! A `Memory` serializes as its largest whole unit — megabytes if at least
//! one, else kilobytes if at least one, else bytes — and parses back from
//! a numeral followed by a `B`, `K` or `M` suffix.

use vstd::prelude::*;
use vstd::string::StrSliceExecFns;

use crate::numerals::{
    decimal_of, is_numeral, lemma_decimal_of, numeral_body, numeral_value, parse_u64_range,
    push_decimal,
};
use crate::strings::{chars_to_string, str_to_chars};

verus! {

pub const KILOBYTE: u64 = 1024;

pub const MEGABYTE: u64 = 1024 * 1024;

/// A number of bytes.
#[derive(Debug, Clone, Copy, PartialEq, Eq, PartialOrd, Ord, Hash, Structural)]
pub struct Memory(pub u64);

/// Why a string failed to parse as a `Memory`.
#[derive(Debug, Clone)]
pub enum FromStrMemoryError {
    /// The unit suffix is not `B`, `K` or `M`; holds the suffix.
    InvalidSuffix(String),
    /// The numeral does not denote a `u64` byte count; holds the numeral.
    InvalidNumber(String),
    /// The string has fewer than two characters; holds the whole string.
    ShortLength(String),
}

/// Value equality of two parse errors: same reason, same offending text.
pub open spec fn memory_error_eq(a: FromStrMemoryError, b: FromStrMemoryError) -> bool {
    match (a, b) {
        (FromStrMemoryError::InvalidSuffix(x), FromStrMemoryError::InvalidSuffix(y)) => x@ == y@,
        (FromStrMemoryError::InvalidNumber(x), FromStrMemoryError::InvalidNumber(y)) => x@ == y@,
        (FromStrMemoryError::ShortLength(x), FromStrMemoryError::ShortLength(y)) => x@ == y@,
        _ => false,
    }
}

impl PartialEq for FromStrMemoryError {
    fn eq(&self, other: &Self) -> (r: bool)
        ensures
            r == memory_error_eq(*self, *other),
    {
        match (self, other) {
            (FromStrMemoryError::InvalidSuffix(x), FromStrMemoryError::InvalidSuffix(y)) => crate::strings::string_eq(x, y),
            (FromStrMemoryError::InvalidNumber(x), FromStrMemoryError::InvalidNumber(y)) => crate::strings::string_eq(x, y),
            (FromStrMemoryError::ShortLength(x), FromStrMemoryError::ShortLength(y)) => crate::strings::string_eq(x, y),
            _ => false,
        }
    }
}

impl vstd::std_specs::cmp::PartialEqSpecImpl for FromStrMemoryError {
    open spec fn obeys_eq_spec() -> bool {
        true
    }

    open spec fn eq_spec(&self, other: &FromStrMemoryError) -> bool {
        memory_error_eq(*self, *other)
    }
}

impl Eq for FromStrMemoryError {

}

/// The byte multiplier of a unit suffix.
pub open spec fn suffix_unit(c: char) -> Option<u64> {
    if c == 'B' {
        Some(1u64)
    } else if c == 'K' {
        Some(1024u64)
    } else if c == 'M' {
        Some(1048576u64)
    } else {
        None
    }
}

/// The memory a string denotes: a numeral, then a unit suffix.
pub open spec fn memory_parse(s: Seq<char>) -> Option<Memory> {
    if s.len() < 2 {
        None
    } else {
        let num = s.drop_last();
        if is_numeral(num) && numeral_value(numeral_body(num)) <= u64::MAX as int {
            match suffix_unit(s.last()) {
                Some(unit) => {
                    let total = numeral_value(numeral_body(num)) * unit;
                    if total <= u64::MAX as int {
                        Some(Memory(total as u64))
                    } else {
                        None
                    }
                },
                None => None,
            }
        } else {
            None
        }
    }
}

/// The unit a memory is displayed in.
pub open spec fn display_unit(m: Memory) -> u64 {
    if m.0 >= 1048576 {
        1048576u64
    } else if m.0 >= 1024 {
        1024u64
    } else {
        1u64
    }
}

/// The suffixed string form of a memory.
pub open spec fn memory_display(m: Memory) -> Seq<char> {
    if m.0 >= 1048576 {
        decimal_of((m.0 / 1048576) as nat) + seq!['M']
    } else if m.0 >= 1024 {
        decimal_of((m.0 / 1024) as nat) + seq!['K']
    } else {
        decimal_of(m.0 as nat) + seq!['B']
    }
}

impl Memory {
    pub fn new_bytes(memory: u64) -> (r: Self)
        ensures
            r.0 == memory,
    {
        Memory(memory)
    }

    pub fn new_kilobytes(memory: u64) -> (r: Self)
        requires
            memory * 1024 <= u64::MAX,
        ensures
            r.0 == memory * 1024,
    {
        Memory(memory * 1024)
    }

    pub fn new_megabytes(memory: u64) -> (r: Self)
        requires
            memory * 1048576 <= u64::MAX,
        ensures
            r.0 == memory * 1048576,
    {
        Memory(memory * 1024 * 1024)
    }

    pub fn as_bytes(&self) -> (r: u64)
        ensures
            r == self.0,
    {
        self.0
    }

    pub fn as_kilobytes(&self) -> (r: u64)
        ensures
            r == self.0 / 1024,
    {
        self.0 / 1024
    }

    pub fn as_megabytes(&self) -> (r: u64)
        ensures
            r == self.0 / 1048576,
    {
        self.0 / (1024 * 1024)
    }

    /// This memory grown by a whole number of megabytes.
    pub fn add_megabytes(&self, megabytes: u64) -> (r: Self)
        requires
            self.0 + megabytes * 1048576 <= u64::MAX,
        ensures
            r.0 == self.0 + megabytes * 1048576,
    {
        Memory(self.0 + megabytes * 1048576)
    }

    /// The suffixed string form: megabytes if at least one, else kilobytes
    /// if at least one, else bytes.
    pub fn to_string(&self) -> (r: String)
        ensures
            r@ == memory_display(*self),
    {
        let mut out: Vec<char> = Vec::new();
        if self.0 >= MEGABYTE {
            push_decimal(self.0 / MEGABYTE, &mut out);
            out.push('M');
        } else if self.0 >= KILOBYTE {
            push_decimal(self.0 / KILOBYTE, &mut out);
            out.push('K');
        } else {
            push_decimal(self.0, &mut out);
            out.push('B');
        }
        assert(out@ =~= memory_display(*self));
        chars_to_string(&out)
    }

    /// Parses a suffixed memory string.
    ///
    /// Exactly the strings of `memory_parse` are accepted; each rejection
    /// names its reason and carries the offending part of the input.
    pub fn from_str(s: &str) -> (r: Result<Memory, FromStrMemoryError>)
        ensures
            ({
                let t = s@;
                match r {
                    Ok(m) => memory_parse(t) == Some(m),
                    Err(e) => memory_parse(t) is None && match e {
                        FromStrMemoryError::ShortLength(x) => t.len() < 2 && x@ == t,
                        FromStrMemoryError::InvalidNumber(x) => t.len() >= 2 && x@ == t.drop_last()
                            && (!(is_numeral(t.drop_last())
                                    && numeral_value(numeral_body(t.drop_last())) <= u64::MAX as int)
                                || (suffix_unit(t.last()) is Some
                                    && numeral_value(numeral_body(t.drop_last()))
                                        * suffix_unit(t.last()).unwrap() > u64::MAX as int)),
                        FromStrMemoryError::InvalidSuffix(x) => t.len() >= 2
                            && is_numeral(t.drop_last())
                            && numeral_value(numeral_body(t.drop_last())) <= u64::MAX as int
                            && suffix_unit(t.last()) is None
                            && x@ == seq![t.last()],
                    },
                }
            }),
    {
        let cs = str_to_chars(s);
        let n = cs.len();
        if n < 2 {
            return Err(FromStrMemoryError::ShortLength(s.to_owned()));
        }
        proof {
            assert(cs@.subrange(0, n - 1 as int) =~= s@.drop_last());
        }
        let num = match parse_u64_range(&cs, 0, n - 1) {
            Ok(v) => v,
            Err(_) => {
                return Err(FromStrMemoryError::InvalidNumber(s.substring_char(0, n - 1).to_owned()));
            },
        };
        let suffix = cs[n - 1];
        assert(suffix == s@.last());
        let unit: u64 = match suffix {
            'B' => 1,
            'K' => 1024,
            'M' => 1048576,
            _ => {
                return Err(FromStrMemoryError::InvalidSuffix(s.substring_char(n - 1, n).to_owned()));
            },
        };
        assert(suffix_unit(s@.last()) == Some(unit));
        match num.checked_mul(unit) {
            Some(total) => Ok(Memory(total)),
            None => Err(FromStrMemoryError::InvalidNumber(s.substring_char(0, n - 1).to_owned())),
        }
    }
}

/// Parsing a memory's string form yields the memory truncated to its
/// display unit.
pub proof fn lemma_memory_display_round_trip(m: Memory)
    ensures
        memory_parse(memory_display(m)) == Some(Memory((m.0 / display_unit(m) * display_unit(m)) as u64)),
{
    let unit = display_unit(m);
    let q = (m.0 / unit) as nat;
    lemma_decimal_of(q);
    let num = decimal_of(q);
    let s = memory_display(m);
    let suf = s.last();
    assert(s == num + seq![suf]);
    assert(s.drop_last() =~= num);
    assert(s.len() >= 2);
    // the numeral starts with a digit, so there is no sign to strip
    assert(num[0] != '+');
    assert(numeral_body(num) == num);
    assert(is_numeral(num));
    assert(numeral_value(numeral_body(num)) == q);
    assert(suffix_unit(suf) == Some(unit));
    assert(q * unit <= m.0) by {
        vstd::arithmetic::div_mod::lemma_fundamental_div_mod(m.0 as int, unit as int);
    }
    assert(memory_parse(s) == Some(Memory((q * unit) as u64)));
}

/// A memory that is a whole number of its display unit round-trips
/// through its string form unchanged.
pub proof fn lemma_memory_display_round_trip_exact(m: Memory)
    requires
        m.0 % display_unit(m) == 0,
    ensures
        memory_parse(memory_display(m)) == Some(m),
{
    lemma_memory_display_round_trip(m);
    let unit = display_unit(m);
    assert(m.0 / unit * unit == m.0) by {
        vstd::arithmetic::div_mod::lemma_fundamental_div_mod(m.0 as int, unit as int);
    }
}

} // verus!
