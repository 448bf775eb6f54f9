//! Time formats: wall-clock limits in `HH:MM:SS` or `D-HH:MM:SS` form,
//! and the structured log's `YYYY-MM-DD HH:MM:SS.mmm` timestamps.

use vstd::prelude::*;
use crate::errors::JobError;
use crate::refs::find_char;

verus! {

/// A decimal digit.
pub open spec fn is_digit(c: char) -> bool {
    48 <= c as u32 && c as u32 <= 57
}

/// The value of a decimal digit.
pub open spec fn digit_val(c: char) -> nat {
    (c as u32 - 48) as nat
}

/// Whether a sequence is entirely digits, at least one.
pub open spec fn all_digits(s: Seq<char>) -> bool {
    s.len() > 0 && forall|i: int| 0 <= i < s.len() ==> is_digit(#[trigger] s[i])
}

/// The numeric value of a digit sequence.
pub open spec fn digits_val(s: Seq<char>) -> nat
    decreases s.len(),
{
    if s.len() == 0 {
        0
    } else {
        digits_val(s.take(s.len() - 1)) * 10 + digit_val(s[s.len() - 1])
    }
}

/// A two-digit field at position `i` of `s`.
pub open spec fn two_digit_at(s: Seq<char>, i: int) -> bool {
    is_digit(s[i]) && is_digit(s[i + 1])
}

/// The value of the two-digit field at position `i`.
pub open spec fn two_digit_val(s: Seq<char>, i: int) -> nat {
    digit_val(s[i]) * 10 + digit_val(s[i + 1])
}

/// A well-formed `HH:MM:SS` string: exactly two digits per field, with
/// hours up to 23 and minutes and seconds up to 59.
pub open spec fn valid_hms(s: Seq<char>) -> bool {
    &&& s.len() == 8
    &&& two_digit_at(s, 0) && s[2] == ':' && two_digit_at(s, 3) && s[5] == ':' && two_digit_at(
        s,
        6,
    )
    &&& two_digit_val(s, 0) <= 23
    &&& two_digit_val(s, 3) <= 59
    &&& two_digit_val(s, 6) <= 59
}

/// The seconds a well-formed `HH:MM:SS` string counts.
pub open spec fn hms_seconds(s: Seq<char>) -> nat {
    two_digit_val(s, 0) * 3600 + two_digit_val(s, 3) * 60 + two_digit_val(s, 6)
}

/// A well-formed time-limit string: `HH:MM:SS`, or `D-HH:MM:SS` with a
/// day count in decimal whose total seconds fit an unsigned 64-bit
/// count.
pub open spec fn valid_time(s: Seq<char>) -> bool {
    let h = find_char(s, '-', 0);
    if h == -1 {
        valid_hms(s)
    } else {
        &&& all_digits(s.subrange(0, h))
        &&& valid_hms(s.skip(h + 1))
        &&& digits_val(s.subrange(0, h)) * 86400 + hms_seconds(s.skip(h + 1)) <= u64::MAX
    }
}

/// The seconds a well-formed time-limit string counts.
pub open spec fn time_seconds(s: Seq<char>) -> nat {
    let h = find_char(s, '-', 0);
    if h == -1 {
        hms_seconds(s)
    } else {
        digits_val(s.subrange(0, h)) * 86400 + hms_seconds(s.skip(h + 1))
    }
}

/// Reads the two-digit field at `i`, bounded by `max`.
fn read_two_digits(cs: &Vec<char>, i: usize, max: u64) -> (r: Option<u64>)
    requires
        i + 2 <= cs@.len(),
    ensures
        r is Some <==> (two_digit_at(cs@, i as int) && two_digit_val(cs@, i as int) <= max),
        r matches Some(v) ==> v == two_digit_val(cs@, i as int),
{
    let n: usize = cs.len();
    let a32: u32 = cs[i] as u32;
    let b32: u32 = cs[i + 1] as u32;
    let a: u64 = a32 as u64;
    let b: u64 = b32 as u64;
    if 48 <= a && a <= 57 && 48 <= b && b <= 57 {
        proof {
            assert(a32 == cs@[i as int] as u32 && b32 == cs@[i + 1] as u32);
            assert(is_digit(cs@[i as int]) && is_digit(cs@[i + 1]));
        }
        let v: u64 = (a - 48) * 10 + (b - 48);
        proof {
            assert(v == two_digit_val(cs@, i as int));
        }
        if v <= max {
            Some(v)
        } else {
            None
        }
    } else {
        None
    }
}

/// Reads a `HH:MM:SS` suffix starting at `from`.
fn read_hms(cs: &Vec<char>, from: usize) -> (r: Option<u64>)
    requires
        from <= cs@.len(),
    ensures
        r is Some <==> valid_hms(cs@.skip(from as int)),
        r matches Some(v) ==> v == hms_seconds(cs@.skip(from as int)),
{
    let ghost t = cs@.skip(from as int);
    let n: usize = cs.len();
    if n - from != 8 {
        return None;
    }
    proof {
        assert(t.len() == 8);
        assert(t[0] == cs@[from as int]);
        assert(t[1] == cs@[from + 1]);
        assert(t[2] == cs@[from + 2]);
        assert(t[3] == cs@[from + 3]);
        assert(t[4] == cs@[from + 4]);
        assert(t[5] == cs@[from + 5]);
        assert(t[6] == cs@[from + 6]);
        assert(t[7] == cs@[from + 7]);
    }
    if !(cs[from + 2] == ':' && cs[from + 5] == ':') {
        return None;
    }
    let hh = match read_two_digits(cs, from, 23) {
        Some(v) => v,
        None => {
            return None;
        },
    };
    let mm = match read_two_digits(cs, from + 3, 59) {
        Some(v) => v,
        None => {
            return None;
        },
    };
    let ss = match read_two_digits(cs, from + 6, 59) {
        Some(v) => v,
        None => {
            return None;
        },
    };
    Some(hh * 3600 + mm * 60 + ss)
}

/// Reads a decimal day count over `cs[0..to]`, failing when the digits
/// do not fit an unsigned 64-bit count.
fn read_days(cs: &Vec<char>, to: usize) -> (r: Option<u64>)
    requires
        to <= cs@.len(),
    ensures
        r is Some ==> all_digits(cs@.subrange(0, to as int)) && (r matches Some(v) && v
            == digits_val(cs@.subrange(0, to as int))),
        r is None ==> !all_digits(cs@.subrange(0, to as int)) || digits_val(
            cs@.subrange(0, to as int),
        ) > u64::MAX,
{
    if to == 0 {
        proof {
            assert(!all_digits(cs@.subrange(0, 0)));
        }
        return None;
    }
    let mut v: u64 = 0;
    let mut i: usize = 0;
    while i < to
        invariant
            0 < to <= cs@.len(),
            i <= to,
            forall|k: int| 0 <= k < i ==> is_digit(#[trigger] cs@[k]),
            v == digits_val(cs@.subrange(0, i as int)),
        decreases to - i,
    {
        let nn: usize = cs.len();
        let c32: u32 = cs[i] as u32;
        let c: u64 = c32 as u64;
        proof {
            assert(c32 == cs@[i as int] as u32);
        }
        if !(48 <= c && c <= 57) {
            proof {
                assert(!is_digit(cs@[i as int]));
                assert(cs@.subrange(0, to as int)[i as int] == cs@[i as int]);
            }
            return None;
        }
        let d: u64 = c - 48;
        if v > (u64::MAX - d) / 10 {
            proof {
                let sub = cs@.subrange(0, i + 1);
                assert(sub.take(sub.len() - 1) =~= cs@.subrange(0, i as int));
                assert(sub[sub.len() - 1] == cs@[i as int]);
                assert(digits_val(sub) == v * 10 + d);
                assert(digits_val(sub) > u64::MAX) by (nonlinear_arith)
                    requires
                        v > (u64::MAX - d) / 10,
                        d <= 9,
                        digits_val(sub) == v * 10 + d,
                ;
                assert(cs@.subrange(0, to as int).subrange(0, i + 1) =~= sub);
                if all_digits(cs@.subrange(0, to as int)) {
                    lemma_digits_monotone(cs@.subrange(0, to as int), i + 1);
                    assert(digits_val(cs@.subrange(0, to as int)) >= digits_val(sub));
                }
            }
            return None;
        }
        proof {
            assert(v * 10 + d <= u64::MAX) by (nonlinear_arith)
                requires
                    v <= (u64::MAX - d) / 10,
                    d <= 9,
            ;
        }
        v = v * 10 + d;
        i += 1;
        proof {
            assert(is_digit(cs@[i - 1]));
            let sub = cs@.subrange(0, i as int);
            assert(sub.take(sub.len() - 1) =~= cs@.subrange(0, i - 1));
            assert(sub[sub.len() - 1] == cs@[i - 1]);
            assert(digit_val(cs@[i - 1]) == d);
        }
    }
    proof {
        assert(cs@.subrange(0, to as int) =~= cs@.subrange(0, to as int));
        assert(all_digits(cs@.subrange(0, to as int))) by {
            assert forall|k: int| 0 <= k < to implies is_digit(
                #[trigger] cs@.subrange(0, to as int)[k],
            ) by {
                assert(cs@.subrange(0, to as int)[k] == cs@[k]);
            }
        }
    }
    Some(v)
}

/// A longer all-digit prefix never counts less.
proof fn lemma_digits_monotone(s: Seq<char>, i: int)
    requires
        0 <= i <= s.len(),
        forall|k: int| 0 <= k < s.len() ==> is_digit(#[trigger] s[k]),
    ensures
        digits_val(s) >= digits_val(s.subrange(0, i)),
    decreases s.len() - i,
{
    if i == s.len() {
        assert(s.subrange(0, i) =~= s);
    } else {
        lemma_digits_monotone(s, i + 1);
        let a = s.subrange(0, i + 1);
        let b = s.subrange(0, i);
        assert(a.take(a.len() - 1) =~= b);
        assert(digits_val(a) == digits_val(b) * 10 + digit_val(a[a.len() - 1]));
        assert(digits_val(a) >= digits_val(b)) by (nonlinear_arith)
            requires
                digits_val(a) == digits_val(b) * 10 + digit_val(a[a.len() - 1]),
        ;
    }
}

/// Parses a time limit in `HH:MM:SS` or `D-HH:MM:SS` form to seconds.
/// Exactly the well-formed strings parse; anything else yields an
/// `InvalidTimeFormat` error carrying the offending text, never a
/// panic.
pub fn parse_time_to_seconds(time_str: &str) -> (r: Result<u64, JobError>)
    ensures
        r is Ok <==> valid_time(time_str@),
        r matches Ok(v) ==> v == time_seconds(time_str@),
        r matches Err(e) ==> e matches JobError::InvalidTimeFormat(s) && s@ == time_str@,
{
    let cs = crate::chars::chars_of_str(time_str);
    let n: usize = cs.len();
    // find a day separator
    let mut h: usize = 0;
    while h < n && cs[h] != '-'
        invariant
            n == cs@.len(),
            h <= n,
            forall|k: int| 0 <= k < h ==> cs@[k] != '-',
        decreases n - h,
    {
        h += 1;
    }
    proof {
        crate::refs::lemma_find_char(cs@, '-', 0);
        if h < n {
            if find_char(cs@, '-', 0) != h as int {
                let f = find_char(cs@, '-', 0);
                if f == -1 {
                    assert(cs@[h as int] != '-');
                } else if f < h {
                    assert(cs@[f] != '-');
                } else {
                    assert(cs@[h as int] != '-');
                }
                assert(false);
            }
        } else {
            if find_char(cs@, '-', 0) != -1 {
                let f = find_char(cs@, '-', 0);
                assert(cs@[f] == '-');
                assert(false);
            }
        }
    }
    if h >= n {
        // plain HH:MM:SS
        match read_hms(&cs, 0) {
            Some(v) => {
                proof {
                    assert(cs@.skip(0) =~= cs@);
                }
                Ok(v)
            },
            None => {
                proof {
                    assert(cs@.skip(0) =~= cs@);
                }
                Err(JobError::InvalidTimeFormat(String::from_str(time_str)))
            },
        }
    } else {
        // D-HH:MM:SS
        let days = match read_days(&cs, h) {
            Some(d) => d,
            None => {
                proof {
                    if valid_time(time_str@) {
                        assert(digits_val(cs@.subrange(0, h as int)) * 86400 + hms_seconds(
                            cs@.skip(h + 1),
                        ) <= u64::MAX);
                        assert(digits_val(cs@.subrange(0, h as int)) * 86400 >= digits_val(
                            cs@.subrange(0, h as int),
                        )) by (nonlinear_arith);
                    }
                }
                return Err(JobError::InvalidTimeFormat(String::from_str(time_str)));
            },
        };
        let hms = match read_hms(&cs, h + 1) {
            Some(v) => v,
            None => {
                return Err(JobError::InvalidTimeFormat(String::from_str(time_str)));
            },
        };
        if days > (u64::MAX - hms) / 86400 {
            proof {
                assert(days * 86400 + hms > u64::MAX) by (nonlinear_arith)
                    requires
                        days > (u64::MAX - hms) / 86400,
                        hms <= 86399,
                ;
            }
            return Err(JobError::InvalidTimeFormat(String::from_str(time_str)));
        }
        proof {
            assert(days * 86400 + hms <= u64::MAX) by (nonlinear_arith)
                requires
                    days <= (u64::MAX - hms) / 86400,
            ;
        }
        Ok(days * 86400 + hms)
    }
}

/// One parsed structured-log timestamp, millisecond precision, as
/// plain calendar fields.
#[derive(Clone, Copy, Debug, PartialEq, Eq, Structural)]
pub struct Timestamp {
    pub year: u32,
    pub month: u32,
    pub day: u32,
    pub hour: u32,
    pub minute: u32,
    pub second: u32,
    pub millisecond: u32,
}

/// A four-digit field at position `i`.
pub open spec fn four_digit_at(s: Seq<char>, i: int) -> bool {
    is_digit(s[i]) && is_digit(s[i + 1]) && is_digit(s[i + 2]) && is_digit(s[i + 3])
}

/// The value of the four-digit field at position `i`.
pub open spec fn four_digit_val(s: Seq<char>, i: int) -> nat {
    ((digit_val(s[i]) * 10 + digit_val(s[i + 1])) * 10 + digit_val(s[i + 2])) * 10 + digit_val(
        s[i + 3],
    )
}

/// A three-digit field at position `i`.
pub open spec fn three_digit_at(s: Seq<char>, i: int) -> bool {
    is_digit(s[i]) && is_digit(s[i + 1]) && is_digit(s[i + 2])
}

/// The value of the three-digit field at position `i`.
pub open spec fn three_digit_val(s: Seq<char>, i: int) -> nat {
    (digit_val(s[i]) * 10 + digit_val(s[i + 1])) * 10 + digit_val(s[i + 2])
}

/// A well-formed `YYYY-MM-DD HH:MM:SS.mmm` timestamp: the exact shape
/// with in-range calendar fields (months 1 to 12, days 1 to 31, hours
/// to 23, minutes and seconds to 59).
pub open spec fn valid_timestamp(s: Seq<char>) -> bool {
    &&& s.len() == 23
    &&& four_digit_at(s, 0) && s[4] == '-' && two_digit_at(s, 5) && s[7] == '-' && two_digit_at(
        s,
        8,
    )
    &&& s[10] == ' ' && two_digit_at(s, 11) && s[13] == ':' && two_digit_at(s, 14) && s[16]
        == ':' && two_digit_at(s, 17)
    &&& s[19] == '.' && three_digit_at(s, 20)
    &&& 1 <= two_digit_val(s, 5) <= 12
    &&& 1 <= two_digit_val(s, 8) <= 31
    &&& two_digit_val(s, 11) <= 23
    &&& two_digit_val(s, 14) <= 59
    &&& two_digit_val(s, 17) <= 59
}

impl Timestamp {
    /// The calendar year.
    pub fn year(&self) -> (r: u32)
        ensures
            r == self.year,
    {
        self.year
    }

    /// The calendar month, 1 to 12.
    pub fn month(&self) -> (r: u32)
        ensures
            r == self.month,
    {
        self.month
    }

    /// The day of the month.
    pub fn day(&self) -> (r: u32)
        ensures
            r == self.day,
    {
        self.day
    }

    /// The hour of the day.
    pub fn hour(&self) -> (r: u32)
        ensures
            r == self.hour,
    {
        self.hour
    }

    /// The minute of the hour.
    pub fn minute(&self) -> (r: u32)
        ensures
            r == self.minute,
    {
        self.minute
    }

    /// The second of the minute.
    pub fn second(&self) -> (r: u32)
        ensures
            r == self.second,
    {
        self.second
    }

    /// The millisecond of the second.
    pub fn millisecond(&self) -> (r: u32)
        ensures
            r == self.millisecond,
    {
        self.millisecond
    }
}

/// Reads the four-digit year field.
fn read_four_digits(cs: &Vec<char>, i: usize) -> (r: Option<u32>)
    requires
        i + 4 <= cs@.len(),
    ensures
        r is Some <==> four_digit_at(cs@, i as int),
        r matches Some(v) ==> v == four_digit_val(cs@, i as int),
{
    let n: usize = cs.len();
    let a = cs[i] as u32;
    let b = cs[i + 1] as u32;
    let c = cs[i + 2] as u32;
    let d = cs[i + 3] as u32;
    proof {
        assert(a == cs@[i as int] as u32 && b == cs@[i + 1] as u32 && c == cs@[i + 2] as u32
            && d == cs@[i + 3] as u32);
    }
    if 48 <= a && a <= 57 && 48 <= b && b <= 57 && 48 <= c && c <= 57 && 48 <= d && d <= 57 {
        Some((((a - 48) * 10 + (b - 48)) * 10 + (c - 48)) * 10 + (d - 48))
    } else {
        None
    }
}

/// Reads the three-digit millisecond field.
fn read_three_digits(cs: &Vec<char>, i: usize) -> (r: Option<u32>)
    requires
        i + 3 <= cs@.len(),
    ensures
        r is Some <==> three_digit_at(cs@, i as int),
        r matches Some(v) ==> v == three_digit_val(cs@, i as int),
{
    let n: usize = cs.len();
    let a = cs[i] as u32;
    let b = cs[i + 1] as u32;
    let c = cs[i + 2] as u32;
    proof {
        assert(a == cs@[i as int] as u32 && b == cs@[i + 1] as u32 && c == cs@[i + 2] as u32);
    }
    if 48 <= a && a <= 57 && 48 <= b && b <= 57 && 48 <= c && c <= 57 {
        Some(((a - 48) * 10 + (b - 48)) * 10 + (c - 48))
    } else {
        None
    }
}

/// Reads a two-digit field into a u32, bounded below and above.
fn read_two_digits_32(cs: &Vec<char>, i: usize, min: u32, max: u32) -> (r: Option<u32>)
    requires
        i + 2 <= cs@.len(),
    ensures
        r is Some <==> (two_digit_at(cs@, i as int) && min <= two_digit_val(cs@, i as int)
            <= max),
        r matches Some(v) ==> v == two_digit_val(cs@, i as int),
{
    let n: usize = cs.len();
    let a = cs[i] as u32;
    let b = cs[i + 1] as u32;
    proof {
        assert(a == cs@[i as int] as u32 && b == cs@[i + 1] as u32);
    }
    if 48 <= a && a <= 57 && 48 <= b && b <= 57 {
        let v: u32 = (a - 48) * 10 + (b - 48);
        proof {
            assert(v == two_digit_val(cs@, i as int));
        }
        if min <= v && v <= max {
            Some(v)
        } else {
            None
        }
    } else {
        None
    }
}

/// Parses a `YYYY-MM-DD HH:MM:SS.mmm` timestamp.  Exactly the
/// well-formed strings parse; anything else yields an
/// `InvalidTimeFormat` error carrying the offending text.
pub fn parse_timestamp(ts: &str) -> (r: Result<Timestamp, JobError>)
    ensures
        r is Ok <==> valid_timestamp(ts@),
        r matches Ok(t) ==> {
            &&& t.year == four_digit_val(ts@, 0)
            &&& t.month == two_digit_val(ts@, 5)
            &&& t.day == two_digit_val(ts@, 8)
            &&& t.hour == two_digit_val(ts@, 11)
            &&& t.minute == two_digit_val(ts@, 14)
            &&& t.second == two_digit_val(ts@, 17)
            &&& t.millisecond == three_digit_val(ts@, 20)
        },
        r matches Err(e) ==> e matches JobError::InvalidTimeFormat(s) && s@ == ts@,
{
    let cs = crate::chars::chars_of_str(ts);
    if cs.len() != 23 {
        return Err(JobError::InvalidTimeFormat(String::from_str(ts)));
    }
    if !(cs[4] == '-' && cs[7] == '-' && cs[10] == ' ' && cs[13] == ':' && cs[16] == ':'
        && cs[19] == '.') {
        return Err(JobError::InvalidTimeFormat(String::from_str(ts)));
    }
    let year = match read_four_digits(&cs, 0) {
        Some(v) => v,
        None => {
            return Err(JobError::InvalidTimeFormat(String::from_str(ts)));
        },
    };
    let month = match read_two_digits_32(&cs, 5, 1, 12) {
        Some(v) => v,
        None => {
            return Err(JobError::InvalidTimeFormat(String::from_str(ts)));
        },
    };
    let day = match read_two_digits_32(&cs, 8, 1, 31) {
        Some(v) => v,
        None => {
            return Err(JobError::InvalidTimeFormat(String::from_str(ts)));
        },
    };
    let hour = match read_two_digits_32(&cs, 11, 0, 23) {
        Some(v) => v,
        None => {
            return Err(JobError::InvalidTimeFormat(String::from_str(ts)));
        },
    };
    let minute = match read_two_digits_32(&cs, 14, 0, 59) {
        Some(v) => v,
        None => {
            return Err(JobError::InvalidTimeFormat(String::from_str(ts)));
        },
    };
    let second = match read_two_digits_32(&cs, 17, 0, 59) {
        Some(v) => v,
        None => {
            return Err(JobError::InvalidTimeFormat(String::from_str(ts)));
        },
    };
    let millisecond = match read_three_digits(&cs, 20) {
        Some(v) => v,
        None => {
            return Err(JobError::InvalidTimeFormat(String::from_str(ts)));
        },
    };
    Ok(Timestamp { year, month, day, hour, minute, second, millisecond })
}

} // verus!
