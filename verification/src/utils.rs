//! File statistics of a repository and the most active day of a histogram.

use vstd::prelude::*;

use crate::histogram::{
    is_max_count, lemma_count_le_sum, lemma_tally_push, lemma_tally_sum, tally, Histogram,
};
use crate::models::{file_models, FileModel, RepoStats, StatsModel, TrackedFile};
use crate::text::{chars_of, pieces, split, split_ranges, string_of};

verus! {

/// The extension of a file path: what follows its last full stop, or `none`
/// for a path without a full stop.
pub open spec fn file_extension(path: Seq<char>) -> Seq<char> {
    let parts = split(path, '.');
    if parts.len() > 1 {
        parts.last()
    } else {
        "none"@
    }
}

/// The extensions of a list of tracked files, in order.
pub open spec fn extensions(files: Seq<FileModel>) -> Seq<Seq<char>> {
    Seq::new(files.len(), |i: int| file_extension(files[i].path))
}

/// The number of text lines of all the files that could be read.
pub open spec fn total_lines(files: Seq<FileModel>) -> nat
    decreases files.len(),
{
    if files.len() == 0 {
        0
    } else {
        total_lines(files.drop_last()) + match files.last().lines {
            Some(n) => n,
            None => 0,
        }
    }
}

/// A repository is active when it has at least one commit.
pub open spec fn active(stats: StatsModel) -> bool {
    stats.commit_count > 0
}

/// Decides whether a repository is active: whether it has any commit.
pub fn is_repo_active(stats: &RepoStats) -> (is_active: bool)
    ensures
        is_active == active(stats@),
{
    stats.commit_count > 0
}

/// Gives the extension of a file path, or `none` where the path has no full
/// stop.
pub fn get_file_extension(file_path: &str) -> (extension: String)
    ensures
        extension@ == file_extension(file_path@),
{
    let chars = chars_of(file_path);
    proof {
        assert(chars@.subrange(0, chars@.len() as int) =~= file_path@);
    }
    let parts = split_ranges(&chars, 0, chars.len(), '.');
    if parts.len() > 1 {
        let (from, to) = parts[parts.len() - 1];
        proof {
            assert(pieces(chars@, parts@).last() == chars@.subrange(from as int, to as int));
        }
        string_of(&chars, from, to)
    } else {
        "none".to_owned()
    }
}

/// More files have no fewer lines.
pub proof fn lemma_total_lines_grows(files: Seq<FileModel>, n: int)
    requires
        0 <= n <= files.len(),
    ensures
        total_lines(files.take(n)) <= total_lines(files),
    decreases files.len() - n,
{
    if n < files.len() {
        lemma_total_lines_grows(files.drop_last(), n);
        assert(files.drop_last().take(n) =~= files.take(n));
    } else {
        assert(files.take(n) =~= files);
    }
}

/// Decides whether the lines of all files together can be counted in a
/// `usize`.
pub fn lines_fit(files: &[TrackedFile]) -> (fit: bool)
    ensures
        fit == (total_lines(file_models(files@)) <= usize::MAX),
{
    let ghost all = file_models(files@);
    let mut total: usize = 0;
    let mut i: usize = 0;
    proof {
        assert(all.take(0) =~= Seq::<FileModel>::empty());
    }
    while i < files.len()
        invariant
            i <= files@.len(),
            all == file_models(files@),
            total == total_lines(all.take(i as int)),
        decreases files@.len() - i,
    {
        proof {
            assert(all.take(i + 1).drop_last() =~= all.take(i as int));
            assert(all.take(i + 1).last() == files@[i as int]@);
        }
        match files[i].lines {
            Some(n) => {
                if n > usize::MAX - total {
                    proof {
                        lemma_total_lines_grows(all, i + 1);
                    }
                    return false;
                }
                total = total + n;
            },
            None => {},
        }
        i += 1;
    }
    proof {
        assert(all.take(i as int) =~= all);
    }
    true
}

/// Counts the tracked files, the text lines of those that could be read, and
/// the files of each extension. A file that could not be read still counts
/// as a file and under its extension.
pub fn count_files_and_lines(files: &[TrackedFile]) -> (counts: (usize, usize, Histogram))
    requires
        total_lines(file_models(files@)) <= usize::MAX,
    ensures
        counts.0 == files@.len(),
        counts.1 == total_lines(file_models(files@)),
        counts.2@ == tally(extensions(file_models(files@))),
{
    let ghost all = file_models(files@);
    let ghost exts = extensions(all);
    let mut total: usize = 0;
    let mut file_types = Histogram::new();
    let mut i: usize = 0;
    proof {
        assert(all.take(0) =~= Seq::<FileModel>::empty());
        assert(exts.take(0) =~= Seq::<Seq<char>>::empty());
        assert(file_types@ =~= tally(exts.take(0)));
    }
    while i < files.len()
        invariant
            i <= files@.len(),
            all == file_models(files@),
            exts == extensions(all),
            total_lines(all) <= usize::MAX,
            total == total_lines(all.take(i as int)),
            file_types@ == tally(exts.take(i as int)),
        decreases files@.len() - i,
    {
        let extension = get_file_extension(files[i].path.as_str());
        proof {
            assert(all.take(i + 1).drop_last() =~= all.take(i as int));
            assert(all.take(i + 1).last() == files@[i as int]@);
            lemma_total_lines_grows(all, i + 1);
            assert(exts.take(i as int).push(extension@) =~= exts.take(i + 1));
            lemma_tally_push(exts.take(i as int), extension@);
            lemma_tally_sum(exts.take(i as int));
            lemma_count_le_sum(tally(exts.take(i as int)), extension@);
        }
        file_types.add(extension.as_str(), 1);
        match files[i].lines {
            Some(n) => {
                total = total + n;
            },
            None => {},
        }
        i += 1;
    }
    proof {
        assert(all.take(i as int) =~= all);
        assert(exts.take(i as int) =~= exts);
    }
    (files.len(), total, file_types)
}

/// Finds the day with the most commits. An empty histogram has none. Where
/// several days share the largest count, any of them may be named; where no
/// day has a commit, the day named is the empty text with the count zero.
pub fn get_max_commit_day(commits_by_date: &Histogram) -> (day: Option<(String, usize)>)
    ensures
        day.is_none() == (commits_by_date@.dom().len() == 0),
        day matches Some((date, count)) ==> {
            &&& is_max_count(commits_by_date@, count as nat)
            &&& count > 0 ==> commits_by_date@.contains_pair(date@, count as nat)
            &&& count == 0 ==> date@ == Seq::<char>::empty()
        },
{
    let entries = commits_by_date.entries();
    if entries.len() == 0 {
        return None;
    }
    let mut max_date = String::new();
    let mut max_count: usize = 0;
    let mut i: usize = 0;
    while i < entries.len()
        invariant
            i <= entries@.len(),
            forall|j: int| 0 <= j < i ==> (#[trigger] entries@[j]).1 <= max_count,
            max_count > 0 ==> exists|j: int|
                0 <= j < i && (#[trigger] entries@[j]).0@ == max_date@ && entries@[j].1
                    == max_count,
            max_count == 0 ==> max_date@ == Seq::<char>::empty(),
        decreases entries@.len() - i,
    {
        if entries[i].1 > max_count {
            max_count = entries[i].1;
            max_date = entries[i].0.clone();
        }
        i += 1;
    }
    proof {
        let m = commits_by_date@;
        assert forall|k: Seq<char>| m.dom().contains(k) implies #[trigger] m[k] <= max_count by {
            let j = choose|j: int| 0 <= j < entries@.len() && entries@[j].0@ == k;
            assert(m[entries@[j].0@] == entries@[j].1);
        }
        if max_count > 0 {
            let j = choose|j: int|
                0 <= j < i && (#[trigger] entries@[j]).0@ == max_date@ && entries@[j].1
                    == max_count;
            assert(m.dom().contains(entries@[j].0@) && m[entries@[j].0@] == entries@[j].1);
            assert(m.dom().contains(max_date@) && m[max_date@] == max_count as nat);
        }
    }
    Some((max_date, max_count))
}

/// The last segment of a path: what follows its last slash, or the whole
/// path where it has no slash.
pub open spec fn last_segment(path: Seq<char>) -> Seq<char> {
    split(path, '/').last()
}

/// Gives the last segment of a path, the name under which a repository is
/// shown where it has no other.
pub fn display_name(path: &str) -> (name: String)
    ensures
        name@ == last_segment(path@),
{
    let chars = chars_of(path);
    proof {
        assert(chars@.subrange(0, chars@.len() as int) =~= path@);
    }
    let parts = split_ranges(&chars, 0, chars.len(), '/');
    let (from, to) = parts[parts.len() - 1];
    proof {
        assert(pieces(chars@, parts@).last() == chars@.subrange(from as int, to as int));
    }
    string_of(&chars, from, to)
}

} // verus!
