//! Relative periods such as `6M`, `2Y` or `12H`: an amount and a unit, read
//! with a regular expression, and the time at which such a period began.

use vstd::prelude::*;

use crate::models::option_text;
use crate::text::{parse_i64, parse_signed, str_eq};

verus! {

/// What the regular expression `pattern` captures in `text`: the text of
/// each capture group of the leftmost match, the whole match first, and
/// nothing for a group that took no part in the match. The result is
/// nothing where `text` has no match, and where `pattern` is no regular
/// expression that can be compiled.
pub uninterp spec fn captures_of(pattern: Seq<char>, text: Seq<char>) -> Option<
    Seq<Option<Seq<char>>>,
>;

/// The view of the capture groups of a match.
pub open spec fn groups_view(groups: Option<Vec<Option<String>>>) -> Option<
    Seq<Option<Seq<char>>>,
> {
    match groups {
        Some(list) => Some(Seq::new(list@.len(), |i: int| option_text(list@[i]))),
        None => None,
    }
}

/// Compiles `pattern` with `regex::Regex::new` and matches it against `text`
/// with `regex::Regex::captures`. Nothing is proved of it: the contract
/// only gives the result its name, a function of the pattern and the text.
#[verifier::external_body]
fn regex_captures(pattern: &str, text: &str) -> (groups: Option<Vec<Option<String>>>)
    ensures
        groups_view(groups) == captures_of(pattern@, text@),
{
    match regex::Regex::new(pattern) {
        Ok(expression) => expression.captures(text).map(
            |found| found.iter().map(|group| group.map(|m| m.as_str().to_owned())).collect(),
        ),
        Err(_) => None,
    }
}

/// Reads the clock through `chrono::Local::now` and gives the seconds since
/// the epoch with `chrono::DateTime::timestamp`. Nothing is promised of the
/// result: it is the time of the call. On a system whose clock stands
/// before the epoch, `chrono` does not return from the call.
#[verifier::external_body]
fn local_now_seconds() -> (seconds: i64) {
    chrono::Local::now().timestamp()
}

/// The unit of a period.
#[derive(Debug, Clone, Copy, PartialEq, Eq)]
pub enum PeriodUnit {
    /// Years of 365 days.
    Years,
    /// Months of 30 days.
    Months,
    /// Weeks.
    Weeks,
    /// Days.
    Days,
    /// Hours.
    Hours,
}

/// A period: so many units of time.
#[derive(Debug, Clone, Copy)]
pub struct Period {
    /// How many units.
    pub amount: i64,
    /// The unit.
    pub unit: PeriodUnit,
}

/// The regular expression of a period: decimal digits and one letter of
/// `Y`, `M`, `W`, `D`, `H`, and nothing else.
pub open spec fn period_pattern() -> Seq<char> {
    "^(\\d+)([YMWDH])$"@
}

/// The unit that a letter stands for.
pub open spec fn unit_of(letter: Seq<char>) -> Option<PeriodUnit> {
    if letter == seq!['Y'] {
        Some(PeriodUnit::Years)
    } else if letter == seq!['M'] {
        Some(PeriodUnit::Months)
    } else if letter == seq!['W'] {
        Some(PeriodUnit::Weeks)
    } else if letter == seq!['D'] {
        Some(PeriodUnit::Days)
    } else if letter == seq!['H'] {
        Some(PeriodUnit::Hours)
    } else {
        None
    }
}

/// The seconds of one unit: an hour has 3600, a day 24 hours, a week 7
/// days, a month 30 days and a year 365 days.
pub open spec fn unit_seconds(unit: PeriodUnit) -> int {
    match unit {
        PeriodUnit::Years => 31_536_000,
        PeriodUnit::Months => 2_592_000,
        PeriodUnit::Weeks => 604_800,
        PeriodUnit::Days => 86_400,
        PeriodUnit::Hours => 3_600,
    }
}

/// The period that the capture groups of a match spell: the first group is
/// the amount, a decimal number that fits in 64 bits with a sign, and the
/// second the letter of the unit. Without a match, without either group, or
/// with a group that spells no such thing, there is no period.
pub open spec fn period_of(groups: Option<Seq<Option<Seq<char>>>>) -> Option<Period> {
    match groups {
        Some(list) => if list.len() > 2 {
            match (list[1], list[2]) {
                (Some(amount), Some(letter)) => match (parse_signed(amount), unit_of(letter)) {
                    (Some(n), Some(unit)) => Some(Period { amount: n as i64, unit }),
                    _ => None,
                },
                _ => None,
            }
        } else {
            None
        },
        None => None,
    }
}

/// The time, in seconds since the epoch, at which a period that ends at
/// `now` began, if that time can be held in 64 bits with a sign.
pub open spec fn start_of(now: i64, period: Period) -> Option<i64> {
    let start = now - period.amount * unit_seconds(period.unit);
    if i64::MIN <= start <= i64::MAX {
        Some(start as i64)
    } else {
        None
    }
}

/// Reads the letter of a unit.
pub fn read_unit(letter: &str) -> (unit: Option<PeriodUnit>)
    ensures
        unit == unit_of(letter@),
{
    proof {
        reveal_strlit("Y");
        reveal_strlit("M");
        reveal_strlit("W");
        reveal_strlit("D");
        reveal_strlit("H");
        assert("Y"@ =~= seq!['Y']);
        assert("M"@ =~= seq!['M']);
        assert("W"@ =~= seq!['W']);
        assert("D"@ =~= seq!['D']);
        assert("H"@ =~= seq!['H']);
    }
    if str_eq(letter, "Y") {
        Some(PeriodUnit::Years)
    } else if str_eq(letter, "M") {
        Some(PeriodUnit::Months)
    } else if str_eq(letter, "W") {
        Some(PeriodUnit::Weeks)
    } else if str_eq(letter, "D") {
        Some(PeriodUnit::Days)
    } else if str_eq(letter, "H") {
        Some(PeriodUnit::Hours)
    } else {
        None
    }
}

/// Reads a period from the capture groups of a match.
pub fn read_period(groups: &Option<Vec<Option<String>>>) -> (period: Option<Period>)
    ensures
        period == period_of(groups_view(*groups)),
{
    match groups {
        Some(list) => {
            if list.len() > 2 {
                match (&list[1], &list[2]) {
                    (Some(amount), Some(letter)) => {
                        match (parse_i64(amount.as_str()), read_unit(letter.as_str())) {
                            (Some(n), Some(unit)) => Some(Period { amount: n, unit }),
                            _ => None,
                        }
                    },
                    _ => None,
                }
            } else {
                None
            }
        },
        None => None,
    }
}

/// Computes the time at which a period that ends at `now` began, in seconds
/// since the epoch.
pub fn period_start(now: i64, period: Period) -> (start: Option<i64>)
    ensures
        start == start_of(now, period),
{
    let amount: i128 = period.amount as i128;
    let seconds: i128 = match period.unit {
        PeriodUnit::Years => amount * 31_536_000,
        PeriodUnit::Months => amount * 2_592_000,
        PeriodUnit::Weeks => amount * 604_800,
        PeriodUnit::Days => amount * 86_400,
        PeriodUnit::Hours => amount * 3_600,
    };
    let start: i128 = now as i128 - seconds;
    if start < i64::MIN as i128 || start > i64::MAX as i128 {
        None
    } else {
        Some(start as i64)
    }
}

/// Reads a period such as `6M`: decimal digits and the letter of a unit.
pub fn find_period(period: &str) -> (found: Option<Period>)
    ensures
        found == period_of(captures_of(period_pattern(), period@)),
{
    let groups = regex_captures("^(\\d+)([YMWDH])$", period);
    read_period(&groups)
}

/// Whether `start` is what a period gives at some time: nothing without a
/// period, and with one the time at which it began if it ends at some time
/// `now`, or nothing if that time cannot be held.
pub open spec fn began_at_some_time(period: Option<Period>, start: Option<i64>) -> bool {
    match period {
        Some(found) => exists|now: i64| start == #[trigger] start_of(now, found),
        None => start is None,
    }
}

/// Reads a period such as `6M` and gives the time at which a period of that
/// length that ends now began, in seconds since the epoch. There is none
/// where the text spells no period, and where that time cannot be held in
/// 64 bits with a sign. The time of the call decides which time `now` is;
/// where every time gives a start, as for a period of no length, there is
/// one.
pub fn parse_period(period: &str) -> (start: Option<i64>)
    ensures
        began_at_some_time(period_of(captures_of(period_pattern(), period@)), start),
        period_of(captures_of(period_pattern(), period@)) matches Some(found) && (forall|
            now: i64,
        | #[trigger]
            start_of(now, found) is Some) ==> start is Some,
{
    match find_period(period) {
        Some(found) => {
            let now = local_now_seconds();
            let start = period_start(now, found);
            proof {
                assert(start == start_of(now, found));
            }
            start
        },
        None => None,
    }
}

} // verus!
