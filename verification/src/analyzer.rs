//! Statistics of one repository, computed from its commit records and its
//! tracked files.

use vstd::prelude::*;

use crate::aggregate::consistent;
use crate::histogram::{
    lemma_count_le_sum, lemma_tally_push, lemma_tally_sum, sum_values, tally, Histogram,
};
use crate::hours::{
    commit_time, is_within_working_hours, parse_commit_time_in, within_working_hours,
};
use crate::models::{file_models, option_text, FileModel, RepoStats, StatsModel, TrackedFile};
use crate::text::{
    chars_of, find_char, lemma_split_first, pieces, split, string_of, texts, word_ranges, words,
};
use crate::utils::{count_files_and_lines, extensions, total_lines};

verus! {

/// The time stamp of a commit record: its second word.
pub open spec fn commit_stamp(record: Seq<char>) -> Option<Seq<char>> {
    let fields = words(record);
    if fields.len() >= 2 {
        Some(fields[1])
    } else {
        None
    }
}

/// The date of a time stamp: what stands before its first `T`.
pub open spec fn stamp_date(stamp: Seq<char>) -> Seq<char> {
    split(stamp, 'T')[0]
}

/// The hour and the minute of a time stamp: they are read from what stands
/// between its first `T` and the next one.
pub open spec fn stamp_clock(stamp: Seq<char>) -> Option<(u32, u32)> {
    let parts = split(stamp, 'T');
    if parts.len() >= 2 {
        commit_time(parts[1])
    } else {
        None
    }
}

/// The date of a commit record: the date of its time stamp.
pub open spec fn commit_date(record: Seq<char>) -> Option<Seq<char>> {
    match commit_stamp(record) {
        Some(stamp) => Some(stamp_date(stamp)),
        None => None,
    }
}

/// The hour and the minute of a commit record: those of its time stamp.
pub open spec fn commit_clock(record: Seq<char>) -> Option<(u32, u32)> {
    match commit_stamp(record) {
        Some(stamp) => stamp_clock(stamp),
        None => None,
    }
}

/// Whether a time of day counts as out of hours: working hours are set, a
/// time is given, and it lies outside them.
pub open spec fn late(clock: Option<(u32, u32)>, working_hours: Option<(u32, u32, u32, u32)>) -> bool {
    match (working_hours, clock) {
        (Some(window), Some(time)) => !within_working_hours(
            time.0,
            time.1,
            window.0,
            window.1,
            window.2,
            window.3,
        ),
        _ => false,
    }
}

/// Whether a commit record counts as made out of hours: working hours are
/// set, the record gives a time of day, and that time lies outside them.
pub open spec fn out_of_hours(record: Seq<char>, working_hours: Option<(u32, u32, u32, u32)>) -> bool {
    late(commit_clock(record), working_hours)
}

/// The dates of the commit records that have one, in order.
pub open spec fn commit_dates(records: Seq<Seq<char>>) -> Seq<Seq<char>> {
    records.filter_map(|record: Seq<char>| commit_date(record))
}

/// The number of commit records that count as made out of hours.
pub open spec fn out_of_hours_count(
    records: Seq<Seq<char>>,
    working_hours: Option<(u32, u32, u32, u32)>,
) -> nat {
    records.filter(|record: Seq<char>| out_of_hours(record, working_hours)).len()
}

/// The statistics of a repository with the commit records `records` and the
/// tracked files `files`.
pub open spec fn repo_stats(
    records: Seq<Seq<char>>,
    files: Seq<FileModel>,
    working_hours: Option<(u32, u32, u32, u32)>,
) -> StatsModel {
    StatsModel {
        commit_count: records.len(),
        out_of_hours_commits: out_of_hours_count(records, working_hours),
        file_count: files.len(),
        line_count: total_lines(files),
        commits_by_date: tally(commit_dates(records)),
        file_types: tally(extensions(files)),
    }
}

/// Without commit records there are no dates and no commits out of hours.
pub proof fn lemma_no_records(working_hours: Option<(u32, u32, u32, u32)>)
    ensures
        commit_dates(Seq::empty()) == Seq::<Seq<char>>::empty(),
        out_of_hours_count(Seq::empty(), working_hours) == 0,
{
    reveal(Seq::filter);
}

/// One more commit record adds its date, if it has one, to the dates.
pub proof fn lemma_commit_dates_push(records: Seq<Seq<char>>, record: Seq<char>)
    ensures
        commit_dates(records.push(record)) == match commit_date(record) {
            Some(date) => commit_dates(records).push(date),
            None => commit_dates(records),
        },
        commit_dates(records.push(record)).len() <= records.len() + 1,
    decreases records.len(),
{
    let more = records.push(record);
    assert(more.drop_last() =~= records);
    match commit_date(record) {
        Some(date) => {
            assert(commit_dates(records) + seq![date] =~= commit_dates(records).push(date));
        },
        None => {},
    }
    if records.len() > 0 {
        lemma_commit_dates_push(records.drop_last(), records.last());
        assert(records.drop_last().push(records.last()) =~= records);
    }
}

/// One more commit record adds one to the commits out of hours if it counts
/// as made out of hours, and nothing otherwise.
pub proof fn lemma_out_of_hours_push(
    records: Seq<Seq<char>>,
    record: Seq<char>,
    working_hours: Option<(u32, u32, u32, u32)>,
)
    ensures
        out_of_hours_count(records.push(record), working_hours) == out_of_hours_count(
            records,
            working_hours,
        ) + if out_of_hours(record, working_hours) {
            1nat
        } else {
            0nat
        },
        out_of_hours_count(records, working_hours) <= records.len(),
{
    reveal(Seq::filter);
    let more = records.push(record);
    assert(more.drop_last() =~= records);
    records.lemma_filter_len(|record: Seq<char>| out_of_hours(record, working_hours));
}

/// In the statistics of a repository no more commits are out of hours than
/// there are commits, the counts by date add up to the number of commit
/// records that have a time stamp, and so to the number of commits where
/// each record has one.
pub proof fn lemma_repo_stats_consistent(
    records: Seq<Seq<char>>,
    files: Seq<FileModel>,
    working_hours: Option<(u32, u32, u32, u32)>,
)
    ensures
        repo_stats(records, files, working_hours).out_of_hours_commits <= repo_stats(
            records,
            files,
            working_hours,
        ).commit_count,
        sum_values(repo_stats(records, files, working_hours).commits_by_date) == commit_dates(
            records,
        ).len(),
        commit_dates(records).len() <= records.len(),
        (forall|i: int| 0 <= i < records.len() ==> commit_stamp(#[trigger] records[i]) is Some)
            ==> sum_values(repo_stats(records, files, working_hours).commits_by_date)
            == repo_stats(records, files, working_hours).commit_count,
        (forall|i: int| 0 <= i < records.len() ==> commit_stamp(#[trigger] records[i]) is Some)
            ==> consistent(repo_stats(records, files, working_hours)),
    decreases records.len(),
{
    lemma_tally_sum(commit_dates(records));
    if records.len() == 0 {
        lemma_no_records(working_hours);
        assert(records =~= Seq::<Seq<char>>::empty());
    } else {
        let front = records.drop_last();
        lemma_repo_stats_consistent(front, files, working_hours);
        lemma_tally_sum(commit_dates(front));
        lemma_out_of_hours_push(front, records.last(), working_hours);
        lemma_out_of_hours_push(records, records.last(), working_hours);
        lemma_commit_dates_push(front, records.last());
        assert(front.push(records.last()) =~= records);
        if forall|i: int| 0 <= i < records.len() ==> commit_stamp(#[trigger] records[i]) is Some {
            assert forall|i: int| 0 <= i < front.len() implies commit_stamp(
                #[trigger] front[i],
            ) is Some by {
                assert(front[i] == records[i]);
            }
            assert(commit_stamp(records[records.len() - 1]) is Some);
        }
    }
}

/// Reads the time stamp in `chars[from..to]`: where its date ends, and its
/// hour and minute.
fn read_stamp(chars: &Vec<char>, from: usize, to: usize) -> (found: (usize, Option<(u32, u32)>))
    requires
        from <= to <= chars.len(),
    ensures
        from <= found.0 <= to,
        chars@.subrange(from as int, found.0 as int) == stamp_date(
            chars@.subrange(from as int, to as int),
        ),
        found.1 == stamp_clock(chars@.subrange(from as int, to as int)),
{
    let ghost stamp = chars@.subrange(from as int, to as int);
    proof {
        lemma_split_first(stamp, 'T');
    }
    let date_end = find_char(chars, from, to, 'T');
    proof {
        assert(stamp.take(date_end - from) =~= chars@.subrange(from as int, date_end as int));
    }
    if date_end == to {
        return (date_end, None);
    }
    let clock_end = find_char(chars, date_end + 1, to, 'T');
    proof {
        let rest = stamp.skip(date_end - from + 1);
        assert(rest =~= chars@.subrange(date_end + 1, to as int));
        lemma_split_first(rest, 'T');
        assert(rest.take(clock_end - date_end - 1) =~= chars@.subrange(
            date_end + 1,
            clock_end as int,
        ));
    }
    (date_end, parse_commit_time_in(chars, date_end + 1, clock_end))
}

/// Decides whether a time of day counts as out of hours.
fn is_late(clock: Option<(u32, u32)>, working_hours: Option<(u32, u32, u32, u32)>) -> (b: bool)
    ensures
        b == late(clock, working_hours),
{
    match (working_hours, clock) {
        (Some((start_hour, start_min, end_hour, end_min)), Some((hour, minute))) => {
            !is_within_working_hours(hour, minute, start_hour, start_min, end_hour, end_min)
        },
        _ => false,
    }
}

/// Reads the date of a commit record and decides whether the commit counts
/// as made out of hours.
pub fn classify_commit(record: &str, working_hours: Option<(u32, u32, u32, u32)>) -> (found: (
    Option<String>,
    bool,
))
    ensures
        option_text(found.0) == commit_date(record@),
        found.1 == out_of_hours(record@, working_hours),
{
    let chars = chars_of(record);
    proof {
        assert(chars@.subrange(0, chars@.len() as int) =~= record@);
    }
    let fields = word_ranges(&chars, 0, chars.len());
    if fields.len() < 2 {
        return (None, false);
    }
    let (from, to) = fields[1];
    proof {
        assert(pieces(chars@, fields@)[1] == chars@.subrange(from as int, to as int));
    }
    let (date_end, clock) = read_stamp(&chars, from, to);
    let date = string_of(&chars, from, date_end);
    (Some(date), is_late(clock, working_hours))
}

/// Computes the statistics of a repository from its commit records, one per
/// commit, and its tracked files. Each record counts as a commit; a record
/// with a time stamp counts under its date, and, where working hours are
/// set, as out of hours if its time of day lies outside them.
pub fn analyze_repo(
    commits: &[String],
    files: &[TrackedFile],
    working_hours: Option<(u32, u32, u32, u32)>,
) -> (stats: RepoStats)
    requires
        total_lines(file_models(files@)) <= usize::MAX,
    ensures
        stats@ == repo_stats(texts(commits@), file_models(files@), working_hours),
        stats.out_of_hours_commits <= stats.commit_count,
        sum_values(stats.commits_by_date@) <= stats.commit_count,
        (forall|i: int| 0 <= i < commits@.len() ==> commit_stamp(#[trigger] commits@[i]@) is Some)
            ==> sum_values(stats.commits_by_date@) == stats.commit_count,
{
    let ghost records = texts(commits@);
    let mut commits_by_date = Histogram::new();
    let mut out_of_hours_commits: usize = 0;
    let mut i: usize = 0;
    proof {
        assert(records.take(0) =~= Seq::<Seq<char>>::empty());
        lemma_no_records(working_hours);
        assert(commits_by_date@ =~= tally(Seq::<Seq<char>>::empty()));
    }
    while i < commits.len()
        invariant
            i <= commits@.len(),
            records == texts(commits@),
            commits_by_date@ == tally(commit_dates(records.take(i as int))),
            out_of_hours_commits == out_of_hours_count(records.take(i as int), working_hours),
        decreases commits@.len() - i,
    {
        let (date, late) = classify_commit(commits[i].as_str(), working_hours);
        let ghost seen = records.take(i as int);
        proof {
            assert(seen.push(records[i as int]) =~= records.take(i + 1));
            lemma_commit_dates_push(seen, records[i as int]);
            lemma_out_of_hours_push(seen, records[i as int], working_hours);
            if seen.len() > 0 {
                lemma_commit_dates_push(seen.drop_last(), seen.last());
                assert(seen.drop_last().push(seen.last()) =~= seen);
            }
            lemma_tally_sum(commit_dates(seen));
        }
        match date {
            Some(day) => {
                proof {
                    lemma_count_le_sum(tally(commit_dates(seen)), day@);
                    lemma_tally_push(commit_dates(seen), day@);
                }
                commits_by_date.add(day.as_str(), 1);
            },
            None => {},
        }
        if late {
            out_of_hours_commits = out_of_hours_commits + 1;
        }
        i += 1;
    }
    let (file_count, line_count, file_types) = count_files_and_lines(files);
    proof {
        assert(records.take(i as int) =~= records);
        lemma_repo_stats_consistent(records, file_models(files@), working_hours);
        assert forall|j: int| 0 <= j < records.len() implies #[trigger] records[j]
            == commits@[j]@ by {}
    }
    RepoStats {
        commit_count: commits.len(),
        out_of_hours_commits,
        file_count,
        line_count,
        commits_by_date,
        file_types,
    }
}

} // verus!
