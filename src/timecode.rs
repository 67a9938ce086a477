//! Timecodes in `MM:SS:FF` form, 75 frames to the second, and their
//! conversion to and from absolute sector counts.

use vstd::prelude::*;

use crate::lexer::{copy_range, find_char, find_char_exec, lemma_find_char_bounds};

verus! {

/// Frames (sectors) in one second of disc time.
pub const FRAMES_PER_SECOND: u64 = 75;

/// Sectors in one minute of disc time.
pub const SECTORS_PER_MINUTE: u64 = 4500;

/// The largest minute field accepted, so that every sector count fits in an `i64`.
pub const MAX_MINUTES: u64 = 2000000000;

/// A time position on a disc, as written in a CUE sheet.
#[derive(Clone, Copy, Debug, PartialEq, Eq, Structural)]
pub struct Timecode {
    pub minutes: u64,
    pub seconds: u64,
    pub frames: u64,
}

impl Timecode {
    /// Seconds below 60, frames below 75, minutes within `MAX_MINUTES`.
    pub open spec fn valid(self) -> bool {
        &&& self.minutes <= MAX_MINUTES
        &&& self.seconds < 60
        &&& self.frames < FRAMES_PER_SECOND
    }

    /// The absolute sector count the timecode stands for.
    pub open spec fn sectors(self) -> nat {
        (self.minutes * SECTORS_PER_MINUTE + self.seconds * FRAMES_PER_SECOND + self.frames) as nat
    }
}

/// The largest sector count that a valid timecode reaches.
pub open spec fn max_sectors() -> nat {
    (MAX_MINUTES * SECTORS_PER_MINUTE + 59 * FRAMES_PER_SECOND + 74) as nat
}

/// The timecode of an absolute sector count.
pub open spec fn timecode_spec(sectors: nat) -> Timecode {
    Timecode {
        minutes: (sectors / SECTORS_PER_MINUTE as nat) as u64,
        seconds: ((sectors % SECTORS_PER_MINUTE as nat) / FRAMES_PER_SECOND as nat) as u64,
        frames: (sectors % FRAMES_PER_SECOND as nat) as u64,
    }
}

/// Converts a valid timecode to its absolute sector count.
pub fn sectors_of(tc: Timecode) -> (r: u64)
    requires
        tc.valid(),
    ensures
        r == tc.sectors(),
        r <= max_sectors(),
{
    tc.minutes * SECTORS_PER_MINUTE + tc.seconds * FRAMES_PER_SECOND + tc.frames
}

/// Converts an absolute sector count back to a timecode.
pub fn timecode_of(sectors: u64) -> (r: Timecode)
    ensures
        r == timecode_spec(sectors as nat),
{
    Timecode {
        minutes: sectors / SECTORS_PER_MINUTE,
        seconds: (sectors % SECTORS_PER_MINUTE) / FRAMES_PER_SECOND,
        frames: sectors % FRAMES_PER_SECOND,
    }
}

/// Round trip: converting a valid timecode to sectors and back gives the
/// same timecode.
pub proof fn lemma_timecode_round_trip(tc: Timecode)
    requires
        tc.valid(),
    ensures
        timecode_spec(tc.sectors()) == tc,
{
    let m = tc.minutes as int;
    let s = tc.seconds as int;
    let f = tc.frames as int;
    let n = m * 4500 + s * 75 + f;
    assert(n / 4500 == m && n % 4500 == s * 75 + f) by (nonlinear_arith)
        requires 0 <= s < 60, 0 <= f < 75, m >= 0, n == m * 4500 + s * 75 + f;
    assert((s * 75 + f) / 75 == s) by (nonlinear_arith)
        requires 0 <= s < 60, 0 <= f < 75;
    assert(n % 75 == f) by (nonlinear_arith)
        requires 0 <= s < 60, 0 <= f < 75, m >= 0, n == m * 4500 + s * 75 + f;
}

/// The largest bound a number may be read against.
pub const MAX_BOUND: u64 = 1000000000000000000;

pub open spec fn is_digit(c: char) -> bool {
    '0' <= c && c <= '9'
}

pub open spec fn all_digits(s: Seq<char>) -> bool {
    forall|i: int| 0 <= i < s.len() ==> is_digit(#[trigger] s[i])
}

pub open spec fn digit_value(c: char) -> nat {
    (c as u32 - '0' as u32) as nat
}

/// The value of a run of decimal digits, most significant first.
pub open spec fn digits_value(s: Seq<char>) -> nat
    decreases s.len(),
{
    if s.len() == 0 {
        0
    } else {
        digits_value(s.drop_last()) * 10 + digit_value(s.last())
    }
}

/// The number written in `s`: a non-empty run of digits whose value is at
/// most `bound`.
pub open spec fn number_spec(s: Seq<char>, bound: nat) -> Option<nat> {
    if s.len() > 0 && all_digits(s) && digits_value(s) <= bound {
        Some(digits_value(s))
    } else {
        None
    }
}

/// The timecode written in `s` as `MM:SS:FF`, when each field is in range.
pub open spec fn parse_timecode_spec(s: Seq<char>) -> Option<Timecode> {
    let i = find_char(s, 0, ':');
    let j = find_char(s, i + 1, ':');
    if j < s.len() {
        match (
            number_spec(s.subrange(0, i), MAX_MINUTES as nat),
            number_spec(s.subrange(i + 1, j), 59),
            number_spec(s.subrange(j + 1, s.len() as int), 74),
        ) {
            (Some(m), Some(sec), Some(f)) => Some(
                Timecode { minutes: m as u64, seconds: sec as u64, frames: f as u64 },
            ),
            _ => None,
        }
    } else {
        None
    }
}

proof fn lemma_digits_prefix(s: Seq<char>, k: int)
    requires
        all_digits(s),
        0 <= k <= s.len(),
    ensures
        digits_value(s.subrange(0, k)) <= digits_value(s),
    decreases s.len(),
{
    if k < s.len() {
        let t = s.drop_last();
        assert(all_digits(t)) by {
            assert forall|i: int| 0 <= i < t.len() implies is_digit(#[trigger] t[i]) by {
                assert(t[i] == s[i]);
            }
        }
        lemma_digits_prefix(t, k);
        assert(t.subrange(0, k) =~= s.subrange(0, k));
    } else {
        assert(s.subrange(0, k) =~= s);
    }
}

/// Reads the number written in `s`, when it is at most `bound`.
pub fn parse_number(s: &Vec<char>, bound: u64) -> (r: Option<u64>)
    requires
        bound <= MAX_BOUND,
    ensures
        match r {
            Some(v) => number_spec(s@, bound as nat) == Some(v as nat),
            None => number_spec(s@, bound as nat) is None,
        },
{
    let n = s.len();
    if n == 0 {
        return None;
    }
    let mut v: u64 = 0;
    let mut k: usize = 0;
    while k < n
        invariant
            k <= n == s@.len(),
            v <= bound <= MAX_BOUND,
            all_digits(s@.subrange(0, k as int)),
            v as nat == digits_value(s@.subrange(0, k as int)),
        decreases n - k,
    {
        let c = s[k];
        if !('0' <= c && c <= '9') {
            assert(!all_digits(s@));
            return None;
        }
        let d = (c as u32 - '0' as u32) as u64;
        let next = v * 10 + d;
        let ghost p = s@.subrange(0, k + 1);
        proof {
            assert(p.drop_last() =~= s@.subrange(0, k as int));
            assert(all_digits(p));
        }
        if next > bound {
            proof {
                if all_digits(s@) {
                    lemma_digits_prefix(s@, k + 1);
                }
            }
            return None;
        }
        v = next;
        k = k + 1;
    }
    proof { assert(s@.subrange(0, n as int) =~= s@); }
    Some(v)
}

/// Reads a timecode written as `MM:SS:FF`.
pub fn parse_timecode(s: &Vec<char>) -> (r: Option<Timecode>)
    ensures
        r == parse_timecode_spec(s@),
        r matches Some(tc) ==> tc.valid(),
{
    let n = s.len();
    let i = find_char_exec(s, 0, ':');
    proof { lemma_find_char_bounds(s@, 0, ':'); }
    if i >= n {
        return None;
    }
    let j = find_char_exec(s, i + 1, ':');
    proof { lemma_find_char_bounds(s@, i + 1, ':'); }
    if j >= n {
        return None;
    }
    let m = parse_number(&copy_range(s, 0, i), MAX_MINUTES);
    let sec = parse_number(&copy_range(s, i + 1, j), 59);
    let f = parse_number(&copy_range(s, j + 1, n), 74);
    match (m, sec, f) {
        (Some(m), Some(sec), Some(f)) => Some(Timecode { minutes: m, seconds: sec, frames: f }),
        _ => None,
    }
}

} // verus!
