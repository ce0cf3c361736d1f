//! The resource accountant: the measuring wrapper's invocation, and the
//! parser for the two-line file it leaves in the workspace — peak
//! resident memory in whole kilobytes, then elapsed wall time as
//! `minutes:seconds.millis`.

use vstd::prelude::*;

use crate::env::RunnerEnv;
use crate::error::Error;
use crate::memory::Memory;
use crate::numerals::{numeral_body, numeral_value, parse_u64_range, parses_to_u64};
use crate::strings::{
    chars_range_to_string, find_from, first_index, lemma_first_index_is, push_string,
    str_to_chars,
};
use crate::time::{time_parse, MsTime};

verus! {

/// The fixed name of the accounting file inside the workspace.
pub const TIME_TXT: &'static str = "time.txt";

/// A line with its trailing carriage return removed, as `str::lines`
/// yields it.
pub open spec fn strip_cr(l: Seq<char>) -> Seq<char> {
    if l.len() > 0 && l.last() == '\r' {
        l.drop_last()
    } else {
        l
    }
}

/// What the accounting file's text denotes.
///
/// The first line is a kilobyte count that must fit in bytes in a `u64`;
/// the second is a `minutes:seconds.millis` duration.  A missing or
/// malformed line is an error naming the line.
pub open spec fn accounting_parse(s: Seq<char>) -> Result<(Memory, MsTime), Error> {
    if s.len() == 0 {
        Err(Error::MissingMemoryLine)
    } else {
        let i = first_index(s, '\n');
        let line1 = strip_cr(s.take(i));
        if !(parses_to_u64(line1) && numeral_value(numeral_body(line1)) * 1024 <= u64::MAX as int) {
            Err(Error::InvalidMemoryLine)
        } else if i >= s.len() - 1 {
            Err(Error::MissingTimeLine)
        } else {
            let rest = s.skip(i + 1);
            let line2 = strip_cr(rest.take(first_index(rest, '\n')));
            match time_parse(line2) {
                Some(t) => Ok((Memory((numeral_value(numeral_body(line1)) * 1024) as u64), t)),
                None => Err(Error::InvalidTimeLine),
            }
        }
    }
}

/// The measuring wrapper's own arguments: quiet, the two-line format,
/// and the fixed output file.
pub open spec fn spec_measure_args() -> Seq<Seq<char>> {
    seq!["--quiet"@, "--format"@, "%M\n%E"@, "--output"@, "time.txt"@]
}

/// The resource accountant: wraps a command with the measuring process.
pub struct GTime;

impl GTime {
    /// A fresh command vector that starts with the measuring wrapper.
    pub fn new_cmd(env: &RunnerEnv) -> (r: Vec<String>)
        ensures
            r.deep_view() == seq![env.nix_bin@ + "/time"@] + spec_measure_args(),
    {
        let mut args: Vec<String> = Vec::new();
        Self::write(&mut args, env);
        assert(args.deep_view() =~= seq![env.nix_bin@ + "/time"@] + spec_measure_args());
        args
    }

    /// Appends the measuring wrapper and its arguments to a command.
    pub fn write(args: &mut Vec<String>, env: &RunnerEnv)
        ensures
            final(args).deep_view() == old(args).deep_view() + seq![env.nix_bin@ + "/time"@]
                + spec_measure_args(),
    {
        push_string(args, env.time_cmd());
        push_string(args, "--quiet".to_owned());
        push_string(args, "--format".to_owned());
        push_string(args, "%M\n%E".to_owned());
        push_string(args, "--output".to_owned());
        push_string(args, "time.txt".to_owned());
        assert(args.deep_view() =~= old(args).deep_view() + seq![env.nix_bin@ + "/time"@]
            + spec_measure_args());
    }

    /// Parses the text of the accounting file.
    ///
    /// Exactly the texts of `accounting_parse` are accepted, and the
    /// result is that function's.
    #[verifier::rlimit(50)]
    pub fn parse_output(contents: &str) -> (r: Result<(Memory, MsTime), Error>)
        ensures
            r == accounting_parse(contents@),
    {
        let cs = str_to_chars(contents);
        let n = cs.len();
        if n == 0 {
            return Err(Error::MissingMemoryLine);
        }
        let i = match find_from(&cs, 0, '\n') {
            Some(i) => {
                proof {
                    lemma_first_index_is(contents@, '\n', i as int);
                }
                i
            },
            None => {
                proof {
                    lemma_first_index_is(contents@, '\n', n as int);
                }
                n
            },
        };
        let e1: usize = if i > 0 && cs[i - 1] == '\r' {
            i - 1
        } else {
            i
        };
        let ghost line1 = strip_cr(contents@.take(i as int));
        proof {
            if i > 0 && contents@[i - 1] == '\r' {
                assert(contents@.take(i as int).drop_last() =~= contents@.subrange(0, i - 1));
            }
            assert(line1 =~= contents@.subrange(0, e1 as int));
        }
        let kb = match parse_u64_range(&cs, 0, e1) {
            Ok(v) => v,
            Err(_) => {
                return Err(Error::InvalidMemoryLine);
            },
        };
        let bytes = match kb.checked_mul(1024) {
            Some(b) => b,
            None => {
                return Err(Error::InvalidMemoryLine);
            },
        };
        if i >= n - 1 {
            return Err(Error::MissingTimeLine);
        }
        let ghost rest = contents@.skip(i + 1);
        let j = match find_from(&cs, i + 1, '\n') {
            Some(j) => {
                proof {
                    assert(forall|m: int| 0 <= m < rest.len() ==> #[trigger] rest[m] == contents@[m + i + 1]);
                    lemma_first_index_is(rest, '\n', j - i - 1);
                }
                j
            },
            None => {
                proof {
                    assert(forall|m: int| 0 <= m < rest.len() ==> #[trigger] rest[m] == contents@[m + i + 1]);
                    lemma_first_index_is(rest, '\n', rest.len() as int);
                }
                n
            },
        };
        let e2: usize = if j > i + 1 && cs[j - 1] == '\r' {
            j - 1
        } else {
            j
        };
        let ghost line2 = strip_cr(rest.take(first_index(rest, '\n')));
        proof {
            assert(rest.take(first_index(rest, '\n')) =~= contents@.subrange(i + 1, j as int));
            if j > i + 1 && contents@[j - 1] == '\r' {
                assert(contents@.subrange(i + 1, j as int).drop_last() =~= contents@.subrange(
                    i + 1,
                    j - 1,
                ));
            }
            assert(line2 =~= contents@.subrange(i + 1, e2 as int));
        }
        let second = chars_range_to_string(&cs, i + 1, e2);
        match MsTime::from_str_mm_ss_ms(second.as_str()) {
            Some(t) => Ok((Memory(bytes), t)),
            None => Err(Error::InvalidTimeLine),
        }
    }
}

} // verus!
