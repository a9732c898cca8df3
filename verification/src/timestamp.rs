//! Timestamps of lyric lines: `[minutes:seconds.fraction]`.
//!
//! Each of the three fields is a run of one or more decimal digits. The first
//! place of a line at which such a token stands is the line's timestamp. A
//! field counts only where all its digits are ASCII digits; the time is
//! `(minutes * 60 + seconds) * 1000 + fraction` milliseconds, the fraction
//! being taken as milliseconds whatever its width.

use vstd::prelude::*;
use crate::classes::{is_decimal_digit, is_digit, is_plain_digit};

verus! {

/// Where the run of digits that starts at `from` ends: the first place from
/// `from` on that holds no digit.
pub open spec fn digits_end(s: Seq<char>, from: int) -> int
    decreases s.len() - from,
{
    if 0 <= from < s.len() && is_digit(s[from]) {
        digits_end(s, from + 1)
    } else {
        from
    }
}

/// The places of a timestamp token within its line: of `[`, `:`, `.` and `]`.
pub struct Span {
    pub open: int,
    pub colon: int,
    pub dot: int,
    pub close: int,
}

/// The places of a timestamp token within its line.
#[derive(Clone, Copy, Debug)]
pub struct Stamp {
    pub open: usize,
    pub colon: usize,
    pub dot: usize,
    pub close: usize,
}

impl View for Stamp {
    type V = Span;

    open spec fn view(&self) -> Span {
        Span {
            open: self.open as int,
            colon: self.colon as int,
            dot: self.dot as int,
            close: self.close as int,
        }
    }
}

impl Span {
    /// The digits of the minutes field.
    pub open spec fn minutes(self, line: Seq<char>) -> Seq<char> {
        line.subrange(self.open + 1, self.colon)
    }

    /// The digits of the seconds field.
    pub open spec fn seconds(self, line: Seq<char>) -> Seq<char> {
        line.subrange(self.colon + 1, self.dot)
    }

    /// The digits of the fraction field.
    pub open spec fn fraction(self, line: Seq<char>) -> Seq<char> {
        line.subrange(self.dot + 1, self.close)
    }

    /// The line without the token.
    pub open spec fn rest(self, line: Seq<char>) -> Seq<char> {
        line.take(self.open) + line.skip(self.close + 1)
    }
}

/// The timestamp token that starts at place `at` of `line`, if one does.
pub open spec fn stamp_at(line: Seq<char>, at: int) -> Option<Span> {
    let colon = digits_end(line, at + 1);
    let dot = digits_end(line, colon + 1);
    let close = digits_end(line, dot + 1);
    if 0 <= at < line.len() && line[at] == '[' && at + 1 < colon < line.len() && line[colon] == ':'
        && colon + 1 < dot < line.len() && line[dot] == '.' && dot + 1 < close < line.len()
        && line[close] == ']' {
        Some(Span { open: at, colon, dot, close })
    } else {
        None
    }
}

/// The first timestamp token of `line` that starts at `from` or later.
pub open spec fn first_stamp_from(line: Seq<char>, from: int) -> Option<Span>
    decreases line.len() - from,
{
    if from < 0 || from >= line.len() {
        None
    } else if stamp_at(line, from) is Some {
        stamp_at(line, from)
    } else {
        first_stamp_from(line, from + 1)
    }
}

/// The first timestamp token of `line`.
pub open spec fn first_stamp(line: Seq<char>) -> Option<Span> {
    first_stamp_from(line, 0)
}

/// Whether all of `digits` are ASCII digits.
pub open spec fn all_plain(digits: Seq<char>) -> bool {
    forall|i: int| 0 <= i < digits.len() ==> is_plain_digit(#[trigger] digits[i])
}

/// The value of an ASCII digit; 0 for any other character.
pub open spec fn digit_value(c: char) -> nat {
    if is_plain_digit(c) {
        (c as u32 - '0' as u32) as nat
    } else {
        0
    }
}

/// The number that `digits` write in base ten.
pub open spec fn number(digits: Seq<char>) -> nat
    decreases digits.len(),
{
    if digits.len() == 0 {
        0
    } else {
        number(digits.drop_last()) * 10 + digit_value(digits.last())
    }
}

/// The time in milliseconds of a timestamp with these three field values.
pub open spec fn time_millis(minutes: nat, seconds: nat, fraction: nat) -> nat {
    (minutes * 60 + seconds) * 1000 + fraction
}

/// The time in milliseconds that the timestamp at `span` of `line` gives:
/// `None` where a field holds a digit beyond ASCII, or where the time is
/// beyond 64 bits.
pub open spec fn stamp_time(line: Seq<char>, span: Span) -> Option<nat> {
    let minutes = span.minutes(line);
    let seconds = span.seconds(line);
    let fraction = span.fraction(line);
    let time = time_millis(number(minutes), number(seconds), number(fraction));
    if all_plain(minutes) && all_plain(seconds) && all_plain(fraction) && time <= u64::MAX {
        Some(time)
    } else {
        None
    }
}

/// The run of digits from `from` ends at `to` where digits fill the places
/// between and none stands at `to`.
pub proof fn lemma_digits_end_is(s: Seq<char>, from: int, to: int)
    requires
        0 <= from <= to <= s.len(),
        forall|i: int| from <= i < to ==> is_digit(#[trigger] s[i]),
        to < s.len() ==> !is_digit(s[to]),
    ensures
        digits_end(s, from) == to,
    decreases to - from,
{
    if from < to {
        lemma_digits_end_is(s, from + 1, to);
    }
}

/// The first timestamp of a line from `from` on is the token that stands at
/// its own place, and no token starts between `from` and that place.
pub proof fn lemma_first_stamp_from(line: Seq<char>, from: int)
    requires
        0 <= from,
    ensures
        match first_stamp_from(line, from) {
            Some(span) => {
                &&& from <= span.open < line.len()
                &&& stamp_at(line, span.open) == Some(span)
                &&& forall|at: int| from <= at < span.open ==> stamp_at(line, at) is None
            },
            None => forall|at: int| from <= at < line.len() ==> stamp_at(line, at) is None,
        },
    decreases line.len() - from,
{
    if from < line.len() && stamp_at(line, from) is None {
        lemma_first_stamp_from(line, from + 1);
    }
}

/// A number does not shrink as digits are added to it.
pub proof fn lemma_number_grows(digits: Seq<char>, n: int)
    requires
        0 <= n <= digits.len(),
    ensures
        number(digits.take(n)) <= number(digits),
    decreases digits.len() - n,
{
    if n < digits.len() {
        lemma_number_grows(digits, n + 1);
        assert(digits.take(n + 1).drop_last() == digits.take(n));
    } else {
        assert(digits.take(n) == digits);
    }
}

/// Where the run of digits of `line` that starts at `from` ends.
pub fn scan_digits(line: &Vec<char>, from: usize) -> (end: usize)
    requires
        from <= line@.len(),
    ensures
        from <= end <= line@.len(),
        end == digits_end(line@, from as int),
{
    let mut end: usize = from;
    while end < line.len() && is_decimal_digit(line[end])
        invariant
            from <= end <= line@.len(),
            forall|i: int| from <= i < end ==> is_digit(#[trigger] line@[i]),
        decreases line@.len() - end,
    {
        end = end + 1;
    }
    proof {
        lemma_digits_end_is(line@, from as int, end as int);
    }
    end
}

/// The timestamp token that starts at place `at` of `line`, if one does.
pub fn stamp_here(line: &Vec<char>, at: usize) -> (found: Option<Stamp>)
    requires
        at < line@.len(),
    ensures
        match found {
            Some(stamp) => stamp_at(line@, at as int) == Some(stamp@),
            None => stamp_at(line@, at as int) is None,
        },
{
    let n: usize = line.len();
    if line[at] != '[' {
        return None;
    }
    let colon = scan_digits(line, at + 1);
    if colon <= at + 1 || colon >= n || line[colon] != ':' {
        return None;
    }
    let dot = scan_digits(line, colon + 1);
    if dot <= colon + 1 || dot >= n || line[dot] != '.' {
        return None;
    }
    let close = scan_digits(line, dot + 1);
    if close <= dot + 1 || close >= n || line[close] != ']' {
        return None;
    }
    Some(Stamp { open: at, colon, dot, close })
}

/// The first timestamp token of `line`.
pub fn find_stamp(line: &Vec<char>) -> (found: Option<Stamp>)
    ensures
        match found {
            Some(stamp) => first_stamp(line@) == Some(stamp@) && stamp_at(
                line@,
                stamp.open as int,
            ) == Some(stamp@),
            None => first_stamp(line@) is None,
        },
{
    let mut at: usize = 0;
    while at < line.len()
        invariant
            at <= line@.len(),
            first_stamp(line@) == first_stamp_from(line@, at as int),
        decreases line@.len() - at,
    {
        let here = stamp_here(line, at);
        if here.is_some() {
            return here;
        }
        at = at + 1;
    }
    None
}

/// The number that the digits `line[from..to]` write, where all of them are
/// ASCII digits and the number fits; `None` otherwise.
pub fn read_number(line: &Vec<char>, from: usize, to: usize) -> (value: Option<u64>)
    requires
        from <= to <= line@.len(),
    ensures
        value is Some <==> all_plain(line@.subrange(from as int, to as int)) && number(
            line@.subrange(from as int, to as int),
        ) <= u64::MAX,
        value is Some ==> value->0 == number(line@.subrange(from as int, to as int)),
{
    let ghost digits = line@.subrange(from as int, to as int);
    let mut value: u64 = 0;
    let mut i: usize = from;
    while i < to
        invariant
            from <= i <= to <= line@.len(),
            digits == line@.subrange(from as int, to as int),
            all_plain(digits.take(i - from)),
            value == number(digits.take(i - from)),
        decreases to - i,
    {
        let c = line[i];
        let ghost seen = digits.take(i - from + 1);
        assert(seen.drop_last() == digits.take(i - from));
        assert(seen.last() == c);
        if !('0' <= c && c <= '9') {
            assert(digits[i - from] == c);
            return None;
        }
        let d: u64 = (c as u32 - '0' as u32) as u64;
        if value > (u64::MAX - d) / 10 {
            proof {
                lemma_number_grows(digits, i - from + 1);
            }
            return None;
        }
        value = value * 10 + d;
        assert forall|k: int| 0 <= k < seen.len() implies is_plain_digit(#[trigger] seen[k]) by {
            if k < seen.len() - 1 {
                assert(seen[k] == digits.take(i - from)[k]);
            }
        }
        i = i + 1;
    }
    assert(digits.take(to - from) == digits);
    Some(value)
}

/// The time in milliseconds of a timestamp with these three field values,
/// where it fits.
pub fn total_millis(minutes: u64, seconds: u64, fraction: u64) -> (total: Option<u64>)
    ensures
        total is Some <==> time_millis(minutes as nat, seconds as nat, fraction as nat) <= u64::MAX,
        total is Some ==> total->0 == time_millis(
            minutes as nat,
            seconds as nat,
            fraction as nat,
        ),
{
    let wide: u128 = (minutes as u128 * 60 + seconds as u128) * 1000 + fraction as u128;
    if wide <= u64::MAX as u128 {
        Some(wide as u64)
    } else {
        None
    }
}

/// The time in milliseconds that the timestamp `stamp` of `line` gives:
/// `None` where a field holds a digit beyond ASCII or the time does not fit.
pub fn read_time(line: &Vec<char>, stamp: &Stamp) -> (time: Option<u64>)
    requires
        stamp_at(line@, stamp.open as int) == Some(stamp@),
    ensures
        time is Some <==> stamp_time(line@, stamp@) is Some,
        time is Some ==> time->0 == stamp_time(line@, stamp@)->0,
{
    let minutes = read_number(line, stamp.open + 1, stamp.colon);
    let seconds = read_number(line, stamp.colon + 1, stamp.dot);
    let fraction = read_number(line, stamp.dot + 1, stamp.close);
    match (minutes, seconds, fraction) {
        (Some(m), Some(s), Some(f)) => total_millis(m, s, f),
        _ => {
            assert(time_millis(
                number(stamp@.minutes(line@)),
                number(stamp@.seconds(line@)),
                number(stamp@.fraction(line@)),
            ) >= number(stamp@.minutes(line@))) by (nonlinear_arith);
            None
        },
    }
}

} // verus!
