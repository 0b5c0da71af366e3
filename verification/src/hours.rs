//! Classification of a commit's time of day against a working-hours window.

use vstd::prelude::*;

use crate::text::{
    chars_of, digits_number, find_char, lemma_split_first, parse_decimal, parse_digits,
    parse_number, pieces, split, split_ranges, trim, trim_range,
};

verus! {

/// Minutes since midnight of the time `hour:minute`.
pub open spec fn minutes_of(hour: u32, minute: u32) -> int {
    hour as int * 60 + minute as int
}

/// Whether `hour:minute` lies in the window from `start_hour:start_min` to
/// `end_hour:end_min`, both ends included. The window does not wrap past
/// midnight: when its end precedes its start, nothing lies in it.
pub open spec fn within_working_hours(
    hour: u32,
    minute: u32,
    start_hour: u32,
    start_min: u32,
    end_hour: u32,
    end_min: u32,
) -> bool {
    minutes_of(start_hour, start_min) <= minutes_of(hour, minute) <= minutes_of(end_hour, end_min)
}

/// Decides whether a commit made at `hour:minute` falls inside the working
/// hours, comparing minutes since midnight with both boundaries included.
pub fn is_within_working_hours(
    hour: u32,
    minute: u32,
    start_hour: u32,
    start_min: u32,
    end_hour: u32,
    end_min: u32,
) -> (within: bool)
    ensures
        within == within_working_hours(hour, minute, start_hour, start_min, end_hour, end_min),
{
    let commit_time: u64 = hour as u64 * 60 + minute as u64;
    let start_time: u64 = start_hour as u64 * 60 + start_min as u64;
    let end_time: u64 = end_hour as u64 * 60 + end_min as u64;
    start_time <= commit_time && commit_time <= end_time
}

/// The hour and the minute that a time of day spells. The time is what
/// stands before the first plus sign, cut at colons: its first two fields
/// are the hour and the minute, each a decimal number that fits in 32 bits.
/// A time with fewer than two fields, or with a field that is no such
/// number, spells nothing.
#[verifier::opaque]
pub open spec fn commit_time(time: Seq<char>) -> Option<(u32, u32)> {
    let fields = split(split(time, '+')[0], ':');
    if fields.len() >= 2 {
        match (
            parse_number(fields[0], u32::MAX as nat),
            parse_number(fields[1], u32::MAX as nat),
        ) {
            (Some(hour), Some(minute)) => Some((hour as u32, minute as u32)),
            _ => None,
        }
    } else {
        None
    }
}

/// Reads the hour and the minute from the time of day in `chars[from..to]`.
pub fn parse_commit_time_in(chars: &Vec<char>, from: usize, to: usize) -> (time: Option<
    (u32, u32),
>)
    requires
        from <= to <= chars.len(),
    ensures
        time == commit_time(chars@.subrange(from as int, to as int)),
{
    let ghost whole = chars@.subrange(from as int, to as int);
    let plus = find_char(chars, from, to, '+');
    proof {
        reveal(commit_time);
        lemma_split_first(whole, '+');
        assert(whole.take(plus - from) =~= chars@.subrange(from as int, plus as int));
    }
    let fields = split_ranges(chars, from, plus, ':');
    if fields.len() < 2 {
        return None;
    }
    let ghost parts = pieces(chars@, fields@);
    proof {
        assert(parts[0] == chars@.subrange(fields@[0].0 as int, fields@[0].1 as int));
        assert(parts[1] == chars@.subrange(fields@[1].0 as int, fields@[1].1 as int));
    }
    let (hour_from, hour_to) = fields[0];
    let (minute_from, minute_to) = fields[1];
    let hour = parse_decimal(chars, hour_from, hour_to, u32::MAX as u64);
    let minute = parse_decimal(chars, minute_from, minute_to, u32::MAX as u64);
    match (hour, minute) {
        (Some(h), Some(m)) => Some((h as u32, m as u32)),
        _ => None,
    }
}

/// Reads the hour and the minute from a time of day such as `14:05:59+02:00`.
pub fn parse_commit_time(time: &str) -> (parsed: Option<(u32, u32)>)
    ensures
        parsed == commit_time(time@),
{
    let chars = chars_of(time);
    proof {
        assert(chars@.subrange(0, chars@.len() as int) =~= time@);
    }
    parse_commit_time_in(&chars, 0, chars.len())
}

/// The time of day that a text in 24-hour form spells: an hour of at most
/// 23 and a minute of at most 59, decimal digits with a colon between.
pub open spec fn clock_24(text: Seq<char>) -> Option<(u32, u32)> {
    let fields = split(text, ':');
    if fields.len() == 2 {
        match (digits_number(fields[0], 23), digits_number(fields[1], 59)) {
            (Some(hour), Some(minute)) => Some((hour as u32, minute as u32)),
            _ => None,
        }
    } else {
        None
    }
}

/// Whether `c` is the letter `letter`, a capital, in either case.
pub open spec fn is_letter(c: char, letter: char) -> bool {
    c == letter || c as u32 == letter as u32 + 32
}

/// The time of day that a text in 12-hour form spells: an hour from 1 to 12
/// in decimal digits and `AM` or `PM`, in either case. Twelve in the morning
/// is midnight, twelve in the afternoon is noon.
pub open spec fn clock_12(text: Seq<char>) -> Option<(u32, u32)> {
    if text.len() >= 3 && is_letter(text[text.len() - 1], 'M') {
        match digits_number(text.take(text.len() - 2), 12) {
            Some(hour) => if hour == 0 {
                None
            } else if is_letter(text[text.len() - 2], 'A') {
                Some(((hour % 12) as u32, 0u32))
            } else if is_letter(text[text.len() - 2], 'P') {
                Some(((hour % 12 + 12) as u32, 0u32))
            } else {
                None
            },
            None => None,
        }
    } else {
        None
    }
}

/// The time of day that a text spells, in 24-hour or in 12-hour form.
pub open spec fn time_of_day(text: Seq<char>) -> Option<(u32, u32)> {
    match clock_24(text) {
        Some(time) => Some(time),
        None => clock_12(text),
    }
}

/// The working hours that a text spells: two times of day with a hyphen
/// between, from the start to the end, each trimmed.
pub open spec fn working_time(text: Seq<char>) -> Option<(u32, u32, u32, u32)> {
    let parts = split(text, '-');
    if parts.len() == 2 {
        match (time_of_day(trim(parts[0])), time_of_day(trim(parts[1]))) {
            (Some(start), Some(end)) => Some((start.0, start.1, end.0, end.1)),
            _ => None,
        }
    } else {
        None
    }
}

fn is_char(c: char, letter: char) -> (b: bool)
    requires
        letter == 'A' || letter == 'P' || letter == 'M',
    ensures
        b == is_letter(c, letter),
{
    let n: u32 = c as u32;
    let l: u32 = letter as u32;
    n == l || n == l + 32
}

fn read_time_of_day(chars: &Vec<char>, from: usize, to: usize) -> (time: Option<(u32, u32)>)
    requires
        from <= to <= chars.len(),
    ensures
        time == time_of_day(chars@.subrange(from as int, to as int)),
{
    let ghost text = chars@.subrange(from as int, to as int);
    let fields = split_ranges(chars, from, to, ':');
    if fields.len() == 2 {
        let (hour_from, hour_to) = fields[0];
        let (minute_from, minute_to) = fields[1];
        proof {
            let parts = pieces(chars@, fields@);
            assert(parts[0] == chars@.subrange(hour_from as int, hour_to as int));
            assert(parts[1] == chars@.subrange(minute_from as int, minute_to as int));
        }
        match (
            parse_digits(chars, hour_from, hour_to, 23),
            parse_digits(chars, minute_from, minute_to, 59),
        ) {
            (Some(hour), Some(minute)) => {
                return Some((hour as u32, minute as u32));
            },
            _ => {},
        }
    }
    if to - from >= 3 && is_char(chars[to - 1], 'M') {
        proof {
            assert(text[text.len() - 1] == chars@[to - 1]);
            assert(text[text.len() - 2] == chars@[to - 2]);
            assert(text.take(text.len() - 2) =~= chars@.subrange(from as int, to - 2));
        }
        match parse_digits(chars, from, to - 2, 12) {
            Some(hour) => {
                if hour == 0 {
                    None
                } else if is_char(chars[to - 2], 'A') {
                    Some(((hour % 12) as u32, 0))
                } else if is_char(chars[to - 2], 'P') {
                    Some(((hour % 12 + 12) as u32, 0))
                } else {
                    None
                }
            },
            None => None,
        }
    } else {
        proof {
            if text.len() >= 3 {
                assert(text[text.len() - 1] == chars@[to - 1]);
            }
        }
        None
    }
}

/// Reads working hours such as `09:00-17:00` or `9AM-5PM`: the hour and the
/// minute at which they start, and those at which they end.
pub fn parse_working_time(text: &str) -> (hours: Option<(u32, u32, u32, u32)>)
    ensures
        hours == working_time(text@),
{
    let chars = chars_of(text);
    proof {
        assert(chars@.subrange(0, chars@.len() as int) =~= text@);
    }
    let parts = split_ranges(&chars, 0, chars.len(), '-');
    if parts.len() != 2 {
        return None;
    }
    let (start_from, start_to) = parts[0];
    let (end_from, end_to) = parts[1];
    proof {
        let cut = pieces(chars@, parts@);
        assert(cut[0] == chars@.subrange(start_from as int, start_to as int));
        assert(cut[1] == chars@.subrange(end_from as int, end_to as int));
    }
    let (a, b) = trim_range(&chars, start_from, start_to);
    let (c, d) = trim_range(&chars, end_from, end_to);
    match (read_time_of_day(&chars, a, b), read_time_of_day(&chars, c, d)) {
        (Some(start), Some(end)) => Some((start.0, start.1, end.0, end.1)),
        _ => None,
    }
}

} // verus!
