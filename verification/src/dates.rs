//! The order of dates, the newest first, with the calendar of `chrono`.

use vstd::prelude::*;

use crate::ranking::{is_ranking, key_numbers, order_by_desc};
use crate::text::texts;

verus! {

/// The day that `date` names when it is read by the format `format`,
/// counted in the proleptic Gregorian calendar with the first of January of
/// the year 1 as day 1; nothing where the date cannot be read by the
/// format.
pub uninterp spec fn day_of(date: Seq<char>, format: Seq<char>) -> Option<int>;

/// Reads a date with `chrono::NaiveDate::parse_from_str` and counts its days
/// with `chrono::Datelike::num_days_from_ce`. Nothing is proved of it: the
/// contract only gives the result its name, a function of the date and the
/// format.
#[verifier::external_body]
fn parse_day(date: &str, format: &str) -> (day: Option<i32>)
    ensures
        match day {
            Some(d) => day_of(date@, format@) == Some(d as int),
            None => day_of(date@, format@) is None,
        },
{
    match chrono::NaiveDate::parse_from_str(date, format) {
        Ok(parsed) => Some(chrono::Datelike::num_days_from_ce(&parsed)),
        Err(_) => None,
    }
}

/// The rank of a day: the later the day, the larger the rank. A date that
/// could not be read ranks as the day `fallback`; without either, the rank
/// is that of day zero.
pub open spec fn day_rank(day: Option<int>, fallback: Option<int>) -> int {
    match (day, fallback) {
        (Some(d), _) => d + 0x8000_0000,
        (None, Some(d)) => d + 0x8000_0000,
        (None, None) => 0x8000_0000,
    }
}

/// The rank of the date `date`, written as year, month and day with hyphens
/// between. A date that cannot be read ranks as the first of January 2000.
pub open spec fn date_rank(date: Seq<char>) -> int {
    day_rank(day_of(date, "%Y-%m-%d"@), day_of("2000-01-01"@, "%Y-%m-%d"@))
}

/// The ranks of a list of dates, in order.
pub open spec fn date_ranks(dates: Seq<Seq<char>>) -> Seq<int> {
    Seq::new(dates.len(), |i: int| date_rank(dates[i]))
}

/// Gives the rank of a day.
pub fn rank_of(day: Option<i32>, fallback: Option<i32>) -> (rank: usize)
    ensures
        rank == day_rank(
            match day {
                Some(d) => Some(d as int),
                None => None,
            },
            match fallback {
                Some(d) => Some(d as int),
                None => None,
            },
        ),
{
    let chosen: i32 = match (day, fallback) {
        (Some(d), _) => d,
        (None, Some(d)) => d,
        (None, None) => 0,
    };
    (chosen as i64 + 0x8000_0000) as usize
}

/// Ranks the positions of a list of dates, the newest date first. Equal
/// dates, and dates that cannot be read among themselves, keep their order.
pub fn newest_first(dates: &[String]) -> (order: Vec<usize>)
    ensures
        is_ranking(date_ranks(texts(dates@)), order@),
{
    let fallback = parse_day("2000-01-01", "%Y-%m-%d");
    let mut ranks: Vec<usize> = Vec::new();
    let mut i: usize = 0;
    while i < dates.len()
        invariant
            i <= dates@.len(),
            ranks@.len() == i,
            match fallback {
                Some(d) => day_of("2000-01-01"@, "%Y-%m-%d"@) == Some(d as int),
                None => day_of("2000-01-01"@, "%Y-%m-%d"@) is None,
            },
            forall|k: int| 0 <= k < i ==> #[trigger] ranks@[k] == date_rank(dates@[k]@),
        decreases dates@.len() - i,
    {
        let day = parse_day(dates[i].as_str(), "%Y-%m-%d");
        ranks.push(rank_of(day, fallback));
        i += 1;
    }
    let order = order_by_desc(ranks.as_slice());
    proof {
        assert(key_numbers(ranks@) =~= date_ranks(texts(dates@)));
    }
    order
}

} // verus!
