//! Merging the statistics of several repositories into one total.

use vstd::prelude::*;

use crate::histogram::{
    count_of, counts_fit, lemma_merge_counts_finite, lemma_sum_merge, merge_counts, sum_values,
};
use crate::models::{stats_models, zero_stats, RepoStats, StatsModel};

verus! {

/// The statistics of two sets of repositories taken together: each number
/// is the sum of the two, and each histogram their key-wise sum.
pub open spec fn merge(a: StatsModel, b: StatsModel) -> StatsModel {
    StatsModel {
        commit_count: a.commit_count + b.commit_count,
        out_of_hours_commits: a.out_of_hours_commits + b.out_of_hours_commits,
        file_count: a.file_count + b.file_count,
        line_count: a.line_count + b.line_count,
        commits_by_date: merge_counts(a.commits_by_date, b.commits_by_date),
        file_types: merge_counts(a.file_types, b.file_types),
    }
}

/// The statistics of a list of repositories taken together.
pub open spec fn merge_all(list: Seq<StatsModel>) -> StatsModel
    decreases list.len(),
{
    if list.len() == 0 {
        zero_stats()
    } else {
        merge(merge_all(list.drop_last()), list.last())
    }
}

/// Whether every number of `stats` can be held in a `usize`.
pub open spec fn stats_fit(stats: StatsModel) -> bool {
    &&& stats.commit_count <= usize::MAX
    &&& stats.out_of_hours_commits <= usize::MAX
    &&& stats.file_count <= usize::MAX
    &&& stats.line_count <= usize::MAX
    &&& counts_fit(stats.commits_by_date)
    &&& counts_fit(stats.file_types)
}

/// Whether no number of `a` exceeds the same number of `b`.
pub open spec fn stats_le(a: StatsModel, b: StatsModel) -> bool {
    &&& a.commit_count <= b.commit_count
    &&& a.out_of_hours_commits <= b.out_of_hours_commits
    &&& a.file_count <= b.file_count
    &&& a.line_count <= b.line_count
    &&& forall|k: Seq<char>| #[trigger]
        count_of(a.commits_by_date, k) <= count_of(b.commits_by_date, k)
    &&& forall|k: Seq<char>| #[trigger] count_of(a.file_types, k) <= count_of(b.file_types, k)
}

/// Whether statistics are consistent in themselves: no more commits are out
/// of hours than there are commits, and the counts by date, finitely many,
/// add up to the number of commits.
pub open spec fn consistent(stats: StatsModel) -> bool {
    &&& stats.out_of_hours_commits <= stats.commit_count
    &&& stats.commits_by_date.dom().finite()
    &&& sum_values(stats.commits_by_date) == stats.commit_count
}

/// The merge of consistent statistics is consistent.
pub proof fn lemma_merge_consistent(a: StatsModel, b: StatsModel)
    requires
        consistent(a),
        consistent(b),
    ensures
        consistent(merge(a, b)),
{
    lemma_merge_counts_finite(a.commits_by_date, b.commits_by_date);
    lemma_sum_merge(a.commits_by_date, b.commits_by_date);
}

/// The total of a list of consistent statistics is consistent.
pub proof fn lemma_merge_all_consistent(list: Seq<StatsModel>)
    requires
        forall|i: int| 0 <= i < list.len() ==> consistent(#[trigger] list[i]),
    ensures
        consistent(merge_all(list)),
    decreases list.len(),
{
    if list.len() > 0 {
        let front = list.drop_last();
        assert forall|i: int| 0 <= i < front.len() implies consistent(#[trigger] front[i]) by {
            assert(front[i] == list[i]);
        }
        lemma_merge_all_consistent(front);
        assert(consistent(list[list.len() - 1]));
        lemma_merge_consistent(merge_all(front), list.last());
    }
}

/// Merging nothing gives the statistics that are zero throughout.
pub proof fn lemma_merge_all_empty()
    ensures
        merge_all(Seq::empty()) == zero_stats(),
{
}

/// Merging is commutative.
pub proof fn lemma_merge_commutative(a: StatsModel, b: StatsModel)
    ensures
        merge(a, b) == merge(b, a),
{
    assert(merge(a, b) =~= merge(b, a));
}

/// Merging is associative.
pub proof fn lemma_merge_associative(a: StatsModel, b: StatsModel, c: StatsModel)
    ensures
        merge(merge(a, b), c) == merge(a, merge(b, c)),
{
    assert(merge(merge(a, b), c) =~= merge(a, merge(b, c)));
}

/// The statistics that are zero throughout are the unit of merging.
pub proof fn lemma_merge_zero(a: StatsModel)
    ensures
        merge(zero_stats(), a) == a,
        merge(a, zero_stats()) == a,
{
    assert(merge(zero_stats(), a) =~= a);
    assert(merge(a, zero_stats()) =~= a);
}

/// Merging a list is merging its parts: the total of two lists, one after
/// the other, is the merge of their totals.
pub proof fn lemma_merge_all_concat(a: Seq<StatsModel>, b: Seq<StatsModel>)
    ensures
        merge_all(a + b) == merge(merge_all(a), merge_all(b)),
    decreases b.len(),
{
    if b.len() == 0 {
        assert(a + b =~= a);
        lemma_merge_zero(merge_all(a));
    } else {
        lemma_merge_all_concat(a, b.drop_last());
        assert((a + b).drop_last() =~= a + b.drop_last());
        lemma_merge_associative(merge_all(a), merge_all(b.drop_last()), b.last());
    }
}

/// The total of a list is the total of the list without one of its items,
/// merged with that item.
pub proof fn lemma_merge_all_remove(list: Seq<StatsModel>, at: int)
    requires
        0 <= at < list.len(),
    ensures
        merge_all(list) == merge(merge_all(list.remove(at)), list[at]),
{
    let front = list.take(at);
    let back = list.skip(at + 1);
    let one = seq![list[at]];
    assert(list =~= front + one + back);
    assert(list.remove(at) =~= front + back);
    assert(merge_all(one) == list[at]) by {
        assert(one.drop_last() =~= Seq::<StatsModel>::empty());
        assert(merge_all(one.drop_last()) == zero_stats());
        assert(one.last() == list[at]);
        lemma_merge_zero(list[at]);
    }
    lemma_merge_all_concat(front + one, back);
    lemma_merge_all_concat(front, one);
    lemma_merge_all_concat(front, back);
    lemma_merge_associative(merge_all(front), list[at], merge_all(back));
    lemma_merge_commutative(list[at], merge_all(back));
    lemma_merge_associative(merge_all(front), merge_all(back), list[at]);
}

/// The total of a list does not depend on the order of its items: two lists
/// that hold the same items equally often have the same total.
pub proof fn lemma_merge_all_permutation(a: Seq<StatsModel>, b: Seq<StatsModel>)
    requires
        a.to_multiset() == b.to_multiset(),
    ensures
        merge_all(a) == merge_all(b),
    decreases a.len(),
{
    a.to_multiset_ensures();
    b.to_multiset_ensures();
    if a.len() == 0 {
        assert(b =~= Seq::<StatsModel>::empty());
    } else {
        let x = a.last();
        assert(a[a.len() - 1] == x);
        assert(a.contains(x));
        assert(a.to_multiset().count(x) > 0);
        assert(b.to_multiset().count(x) > 0);
        assert(b.contains(x));
        let at = choose|i: int| 0 <= i < b.len() && b[i] == x;
        let front = a.drop_last();
        assert(front =~= a.remove(a.len() - 1));
        assert(front.to_multiset() =~= b.remove(at).to_multiset());
        lemma_merge_all_permutation(front, b.remove(at));
        lemma_merge_all_remove(b, at);
    }
}

/// A total is no smaller than the total of the first items of the list.
pub proof fn lemma_merge_all_grows(list: Seq<StatsModel>, n: int)
    requires
        0 <= n <= list.len(),
    ensures
        stats_le(merge_all(list.take(n)), merge_all(list)),
    decreases list.len() - n,
{
    if n < list.len() {
        lemma_merge_all_grows(list.drop_last(), n);
        assert(list.drop_last().take(n) =~= list.take(n));
    } else {
        assert(list.take(n) =~= list);
    }
}

/// Where a total does not fit, no larger total does.
pub proof fn lemma_stats_fit_le(a: StatsModel, b: StatsModel)
    requires
        stats_le(a, b),
        stats_fit(b),
    ensures
        stats_fit(a),
{
    assert forall|k: Seq<char>| a.commits_by_date.dom().contains(k) implies #[trigger]
        a.commits_by_date[k] <= usize::MAX by {
        assert(count_of(a.commits_by_date, k) <= count_of(b.commits_by_date, k));
    }
    assert forall|k: Seq<char>| a.file_types.dom().contains(k) implies #[trigger] a.file_types[k]
        <= usize::MAX by {
        assert(count_of(a.file_types, k) <= count_of(b.file_types, k));
    }
}

/// Merges the statistics of several repositories into one total, if every
/// number of the total fits in a `usize`.
pub fn checked_aggregate_stats(stats_vec: &[RepoStats]) -> (total: Option<RepoStats>)
    ensures
        total.is_some() == stats_fit(merge_all(stats_models(stats_vec@))),
        total matches Some(sum) ==> sum@ == merge_all(stats_models(stats_vec@)),
{
    let ghost all = stats_models(stats_vec@);
    let mut sum = RepoStats::default();
    let mut i: usize = 0;
    proof {
        assert(all.take(0) =~= Seq::<StatsModel>::empty());
    }
    while i < stats_vec.len()
        invariant
            i <= stats_vec@.len(),
            all == stats_models(stats_vec@),
            sum@ == merge_all(all.take(i as int)),
        decreases stats_vec@.len() - i,
    {
        let item = &stats_vec[i];
        let ghost next = merge_all(all.take(i + 1));
        proof {
            assert(all.take(i + 1).drop_last() =~= all.take(i as int));
            assert(all.take(i + 1).last() == item@);
            lemma_merge_all_grows(all, i + 1);
            if stats_fit(merge_all(all)) {
                lemma_stats_fit_le(next, merge_all(all));
            }
        }
        if item.commit_count > usize::MAX - sum.commit_count || item.out_of_hours_commits
            > usize::MAX - sum.out_of_hours_commits || item.file_count > usize::MAX
            - sum.file_count || item.line_count > usize::MAX - sum.line_count {
            return None;
        }
        sum.commit_count = sum.commit_count + item.commit_count;
        sum.out_of_hours_commits = sum.out_of_hours_commits + item.out_of_hours_commits;
        sum.file_count = sum.file_count + item.file_count;
        sum.line_count = sum.line_count + item.line_count;
        if !sum.commits_by_date.absorb(&item.commits_by_date) {
            return None;
        }
        if !sum.file_types.absorb(&item.file_types) {
            return None;
        }
        proof {
            assert(sum@ =~= next);
        }
        i += 1;
    }
    proof {
        assert(all.take(i as int) =~= all);
        sum.commits_by_date.lemma_bounded();
        sum.file_types.lemma_bounded();
    }
    Some(sum)
}

/// Merges the statistics of several repositories into one total: each
/// number is the sum over the repositories, each histogram their key-wise
/// sum. Merging nothing gives statistics that are zero throughout.
pub fn aggregate_stats(stats_vec: &[RepoStats]) -> (total: RepoStats)
    requires
        stats_fit(merge_all(stats_models(stats_vec@))),
    ensures
        total@ == merge_all(stats_models(stats_vec@)),
{
    checked_aggregate_stats(stats_vec).unwrap()
}

} // verus!
