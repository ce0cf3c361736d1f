//! Conversions between `String`/`&str` and character vectors.
//!
//! The crate's parsing and formatting logic works on `Vec<char>`; these
//! helpers cross between that representation and the string types at the
//! public boundaries.

use vstd::prelude::*;
use vstd::string::StrSliceExecFns;

verus! {

/// Relies on `core::iter::Iterator::collect` for `String`: collecting
/// characters concatenates exactly those characters, in order.
#[verifier::external_body]
pub fn chars_to_string(v: &Vec<char>) -> (r: String)
    ensures
        r@ == v@,
{
    v.iter().collect()
}

/// The characters of `s`, in order.
pub fn str_to_chars(s: &str) -> (r: Vec<char>)
    ensures
        r@ == s@,
{
    let n = s.unicode_len();
    let mut out: Vec<char> = Vec::new();
    let mut i: usize = 0;
    while i < n
        invariant
            i <= n,
            n == s@.len(),
            out@ == s@.subrange(0, i as int),
        decreases n - i,
    {
        out.push(s.get_char(i));
        assert(out@ =~= s@.subrange(0, i + 1 as int));
        i = i + 1;
    }
    assert(out@ =~= s@);
    out
}

/// Compares two strings by their characters.
pub fn string_eq(a: &String, b: &String) -> (r: bool)
    ensures
        r == (a@ == b@),
{
    String::eq(a, b)
}

/// Compares two character vectors for equality of their contents.
pub fn chars_eq(a: &Vec<char>, b: &Vec<char>) -> (r: bool)
    ensures
        r == (a@ == b@),
{
    if a.len() != b.len() {
        assert(a@ != b@);
        return false;
    }
    let n = a.len();
    let mut i: usize = 0;
    while i < n
        invariant
            i <= n,
            n == a@.len() == b@.len(),
            forall|j: int| 0 <= j < i ==> a@[j] == b@[j],
        decreases n - i,
    {
        if a[i] != b[i] {
            return false;
        }
        i = i + 1;
    }
    proof {
        assert(a@ =~= b@);
    }
    true
}

/// Appends the characters of `s` to `out`.
pub fn push_chars(out: &mut Vec<char>, s: &str)
    ensures
        final(out)@ == old(out)@ + s@,
{
    let cs = str_to_chars(s);
    let n = cs.len();
    let mut i: usize = 0;
    while i < n
        invariant
            i <= n,
            n == cs@.len(),
            cs@ == s@,
            out@ == old(out)@ + s@.subrange(0, i as int),
        decreases n - i,
    {
        out.push(cs[i]);
        assert(out@ =~= old(out)@ + s@.subrange(0, i + 1 as int));
        i = i + 1;
    }
    assert(old(out)@ + s@.subrange(0, n as int) =~= old(out)@ + s@);
}

/// The position of the first occurrence of `c` in `s`, or the length of
/// `s` when `c` does not occur.
pub open spec fn first_index(s: Seq<char>, c: char) -> int
    decreases s.len(),
{
    if s.len() == 0 {
        0
    } else if s[0] == c {
        0
    } else {
        1 + first_index(s.drop_first(), c)
    }
}

/// `first_index` is characterized by what stands before and at it.
pub proof fn lemma_first_index_is(s: Seq<char>, c: char, i: int)
    requires
        0 <= i <= s.len(),
        forall|j: int| 0 <= j < i ==> s[j] != c,
        i < s.len() ==> s[i] == c,
    ensures
        first_index(s, c) == i,
    decreases s.len(),
{
    if s.len() == 0 {
    } else if s[0] == c {
        assert(i == 0);
    } else {
        assert(i >= 1);
        let t = s.drop_first();
        assert(forall|j: int| 0 <= j < i - 1 ==> #[trigger] t[j] == s[j + 1]);
        lemma_first_index_is(t, c, i - 1);
    }
}

/// The characters of `v` from `a` (inclusive) to `b` (exclusive), as a
/// string.
pub fn chars_range_to_string(v: &Vec<char>, a: usize, b: usize) -> (r: String)
    requires
        a <= b <= v@.len(),
    ensures
        r@ == v@.subrange(a as int, b as int),
{
    let mut out: Vec<char> = Vec::new();
    let mut j: usize = a;
    while j < b
        invariant
            a <= j <= b <= v@.len(),
            out@ == v@.subrange(a as int, j as int),
        decreases b - j,
    {
        out.push(v[j]);
        assert(out@ =~= v@.subrange(a as int, j + 1 as int));
        j = j + 1;
    }
    chars_to_string(&out)
}

/// Appends one string to an argument vector.
pub fn push_string(args: &mut Vec<String>, s: String)
    ensures
        final(args).deep_view() == old(args).deep_view() + seq![s@],
{
    let ghost v = s@;
    args.push(s);
    assert(args.deep_view() =~= old(args).deep_view() + seq![v]);
}

/// The first position of `c` in `v` at or after `start`, if any.
pub fn find_from(v: &Vec<char>, start: usize, c: char) -> (r: Option<usize>)
    requires
        start <= v@.len(),
    ensures
        match r {
            Some(i) => start <= i < v@.len() && v@[i as int] == c
                && (forall|j: int| start <= j < i ==> v@[j] != c),
            None => forall|j: int| start <= j < v@.len() ==> v@[j] != c,
        },
{
    let n = v.len();
    let mut i: usize = start;
    while i < n
        invariant
            start <= i <= n,
            n == v@.len(),
            forall|j: int| start <= j < i ==> v@[j] != c,
        decreases n - i,
    {
        if v[i] == c {
            return Some(i);
        }
        i = i + 1;
    }
    None
}

} // verus!
