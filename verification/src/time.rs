//! Durations with millisecond precision, and the `minutes:seconds.millis`
//! format written by the resource-measuring wrapper.

use vstd::prelude::*;

use crate::numerals::{numeral_body, numeral_value, parse_u64_range, parses_to_u64};
use crate::strings::{find_from, first_index, lemma_first_index_is, str_to_chars};

verus! {

/// A duration in whole milliseconds.
#[derive(Debug, Clone, Copy, PartialEq, Eq, PartialOrd, Ord, Hash, Structural)]
pub struct MsTime(pub u64);

/// The duration denoted by a `minutes:seconds.millis` string: the part
/// before the first colon is minutes, the part between the first colon
/// and the next colon (or the end) must be split by exactly one dot into
/// seconds and a millisecond field of at most 999.
pub open spec fn time_parse(s: Seq<char>) -> Option<MsTime> {
    let i = first_index(s, ':');
    if i == s.len() {
        None
    } else {
        let minutes_str = s.take(i);
        let rest = s.skip(i + 1);
        let seg = rest.take(first_index(rest, ':'));
        let k = first_index(seg, '.');
        if k == seg.len() {
            None
        } else if first_index(seg.skip(k + 1), '.') != seg.skip(k + 1).len() {
            None
        } else {
            let sec_str = seg.take(k);
            let ms_str = seg.skip(k + 1);
            if parses_to_u64(minutes_str) && parses_to_u64(sec_str) && parses_to_u64(ms_str) {
                let minutes = numeral_value(numeral_body(minutes_str));
                let seconds = numeral_value(numeral_body(sec_str));
                let ms = numeral_value(numeral_body(ms_str));
                if ms <= 999 && (minutes * 60 + seconds) * 1000 + ms <= u64::MAX as int {
                    Some(MsTime(((minutes * 60 + seconds) * 1000 + ms) as u64))
                } else {
                    None
                }
            } else {
                None
            }
        }
    }
}

impl MsTime {
    pub fn new(seconds: u64, ms: u64) -> (r: Self)
        requires
            seconds * 1000 + ms <= u64::MAX,
        ensures
            r.0 == seconds * 1000 + ms,
    {
        MsTime(seconds * 1000 + ms)
    }

    pub fn new_ms(ms: u64) -> (r: Self)
        ensures
            r.0 == ms,
    {
        MsTime(ms)
    }

    pub fn new_seconds(seconds: u64) -> (r: Self)
        requires
            seconds * 1000 <= u64::MAX,
        ensures
            r.0 == seconds * 1000,
    {
        MsTime(seconds * 1000)
    }

    pub fn as_ms(&self) -> (r: u64)
        ensures
            r == self.0,
    {
        self.0
    }

    /// The number of whole seconds, rounded up: a fractional second is
    /// never truncated to no enforcement at all.
    pub fn as_seconds_ceil(&self) -> (r: u64)
        ensures
            r == (self.0 + 999) / 1000,
            self.0 > 0 ==> r >= 1,
    {
        let q = self.0 / 1000;
        let rem = self.0 % 1000;
        if rem == 0 {
            assert((self.0 + 999) / 1000 == q) by {
                vstd::arithmetic::div_mod::lemma_fundamental_div_mod(self.0 as int, 1000);
            }
            q
        } else {
            assert((self.0 + 999) / 1000 == q + 1) by {
                vstd::arithmetic::div_mod::lemma_fundamental_div_mod(self.0 as int, 1000);
            }
            q + 1
        }
    }

    pub fn add_seconds(&self, seconds: u64) -> (r: Self)
        requires
            self.0 + seconds * 1000 <= u64::MAX,
        ensures
            r.0 == self.0 + seconds * 1000,
    {
        MsTime(self.0 + seconds * 1000)
    }

    pub fn add_ms(&self, ms: u64) -> (r: Self)
        requires
            self.0 + ms <= u64::MAX,
        ensures
            r.0 == self.0 + ms,
    {
        MsTime(self.0 + ms)
    }

    /// Parses a `minutes:seconds.millis` string; exactly the strings of
    /// `time_parse` are accepted.
    #[verifier::rlimit(100)]
    pub fn from_str_mm_ss_ms(s: &str) -> (r: Option<MsTime>)
        ensures
            r == time_parse(s@),
    {
        let cs = str_to_chars(s);
        let n = cs.len();
        let i = match find_from(&cs, 0, ':') {
            None => {
                proof {
                    lemma_first_index_is(s@, ':', n as int);
                }
                return None;
            },
            Some(i) => i,
        };
        proof {
            lemma_first_index_is(s@, ':', i as int);
        }
        let ghost rest = s@.skip(i + 1);
        let seg_end: usize = match find_from(&cs, i + 1, ':') {
            Some(j) => {
                proof {
                    assert(forall|m: int| 0 <= m < j - i - 1 ==> #[trigger] rest[m] == s@[m + i + 1]);
                    lemma_first_index_is(rest, ':', j - i - 1);
                }
                j
            },
            None => {
                proof {
                    assert(forall|m: int| 0 <= m < rest.len() ==> #[trigger] rest[m] == s@[m + i + 1]);
                    lemma_first_index_is(rest, ':', rest.len() as int);
                }
                n
            },
        };
        proof {
            assert(first_index(rest, ':') == seg_end - i - 1);
        }
        let ghost seg = rest.take(seg_end - i - 1);
        proof {
            assert(seg =~= s@.subrange(i + 1, seg_end as int));
        }
        // the segment must contain exactly one dot
        let k = match find_from(&cs, i + 1, '.') {
            None => {
                proof {
                    assert(forall|m: int| 0 <= m < seg.len() ==> #[trigger] seg[m] == s@[m + i + 1]);
                    lemma_first_index_is(seg, '.', seg.len() as int);
                }
                return None;
            },
            Some(k0) => {
                if k0 >= seg_end {
                    proof {
                        assert(forall|m: int| 0 <= m < seg.len() ==> #[trigger] seg[m] == s@[m + i + 1]);
                        lemma_first_index_is(seg, '.', seg.len() as int);
                    }
                    return None;
                }
                proof {
                    assert(forall|m: int| 0 <= m < seg.len() ==> #[trigger] seg[m] == s@[m + i + 1]);
                    lemma_first_index_is(seg, '.', k0 - i - 1);
                }
                k0
            },
        };
        let ghost tail = seg.skip(k - i - 1 + 1);
        proof {
            assert(tail =~= s@.subrange(k + 1, seg_end as int));
        }
        match find_from(&cs, k + 1, '.') {
            Some(k1) => {
                if k1 < seg_end {
                    proof {
                        assert(forall|m: int| 0 <= m < tail.len() ==> #[trigger] tail[m] == s@[m + k + 1]);
                        lemma_first_index_is(tail, '.', k1 - k - 1);
                    }
                    return None;
                }
                proof {
                    assert(forall|m: int| 0 <= m < tail.len() ==> #[trigger] tail[m] == s@[m + k + 1]);
                    lemma_first_index_is(tail, '.', tail.len() as int);
                }
            },
            None => {
                proof {
                    assert(forall|m: int| 0 <= m < tail.len() ==> #[trigger] tail[m] == s@[m + k + 1]);
                    lemma_first_index_is(tail, '.', tail.len() as int);
                }
            },
        }
        proof {
            assert(s@.take(i as int) =~= s@.subrange(0, i as int));
            assert(seg.take(k - i - 1) =~= s@.subrange(i + 1, k as int));
        }
        let minutes = match parse_u64_range(&cs, 0, i) {
            Ok(v) => v,
            Err(_) => {
                return None;
            },
        };
        let seconds = match parse_u64_range(&cs, i + 1, k) {
            Ok(v) => v,
            Err(_) => {
                return None;
            },
        };
        let ms = match parse_u64_range(&cs, k + 1, seg_end) {
            Ok(v) => v,
            Err(_) => {
                return None;
            },
        };
        if ms > 999 {
            return None;
        }
        let ghost total = (minutes * 60 + seconds) * 1000 + ms;
        let t1 = match minutes.checked_mul(60) {
            Some(v) => v,
            None => {
                proof {
                    assert(total > u64::MAX as int);
                }
                return None;
            },
        };
        let t2 = match t1.checked_add(seconds) {
            Some(v) => v,
            None => {
                proof {
                    assert(total > u64::MAX as int);
                }
                return None;
            },
        };
        let t3 = match t2.checked_mul(1000) {
            Some(v) => v,
            None => {
                proof {
                    assert(total > u64::MAX as int);
                }
                return None;
            },
        };
        let t4 = match t3.checked_add(ms) {
            Some(v) => v,
            None => {
                proof {
                    assert(total > u64::MAX as int);
                }
                return None;
            },
        };
        Some(MsTime(t4))
    }
}

} // verus!
