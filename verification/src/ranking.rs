//! The order in which entities are listed: by commits, by files or by
//! lines, the largest first.

use vstd::prelude::*;

use crate::models::{option_text, RepoStats, StatsModel};
use crate::text::str_eq;

verus! {

/// The number by which a list is ordered.
#[derive(Debug, Clone, Copy, PartialEq, Eq)]
pub enum SortKey {
    /// The number of commits.
    Commits,
    /// The number of files.
    Files,
    /// The number of lines.
    Lines,
    /// Nothing: the list stays as it is.
    Unsorted,
}

/// The sort key that a word names: `commits`, `files` or `lines`. Any other
/// word asks for no order.
pub open spec fn sort_key_of(word: Seq<char>) -> SortKey {
    if word == "commits"@ {
        SortKey::Commits
    } else if word == "files"@ {
        SortKey::Files
    } else if word == "lines"@ {
        SortKey::Lines
    } else {
        SortKey::Unsorted
    }
}

/// The value of `stats` under a sort key; without an order every value is
/// zero.
pub open spec fn key_value(stats: StatsModel, key: SortKey) -> nat {
    match key {
        SortKey::Commits => stats.commit_count,
        SortKey::Files => stats.file_count,
        SortKey::Lines => stats.line_count,
        SortKey::Unsorted => 0,
    }
}

/// Whether `order` ranks the positions of `keys`: it holds each position
/// once, a position with a larger key comes first, and positions with equal
/// keys stay in their order.
pub open spec fn is_ranking(keys: Seq<int>, order: Seq<usize>) -> bool {
    &&& order.len() == keys.len()
    &&& forall|i: int| 0 <= i < order.len() ==> (#[trigger] order[i]) < keys.len()
    &&& forall|i: int, j: int|
        0 <= i < j < order.len() ==> {
            ||| keys[order[i] as int] > keys[order[j] as int]
            ||| (keys[order[i] as int] == keys[order[j] as int] && order[i] < order[j])
        }
}

/// The keys of a list as numbers.
pub open spec fn key_numbers(keys: Seq<usize>) -> Seq<int> {
    Seq::new(keys.len(), |i: int| keys[i] as int)
}

/// Reads a sort key from its name.
pub fn parse_sort_key(word: &str) -> (key: SortKey)
    ensures
        key == sort_key_of(word@),
{
    if str_eq(word, "commits") {
        SortKey::Commits
    } else if str_eq(word, "files") {
        SortKey::Files
    } else if str_eq(word, "lines") {
        SortKey::Lines
    } else {
        SortKey::Unsorted
    }
}

/// Gives the value of `stats` under a sort key.
pub fn sort_value(stats: &RepoStats, key: SortKey) -> (value: usize)
    ensures
        value == key_value(stats@, key),
{
    match key {
        SortKey::Commits => stats.commit_count,
        SortKey::Files => stats.file_count,
        SortKey::Lines => stats.line_count,
        SortKey::Unsorted => 0,
    }
}

/// Ranks the positions of `keys` by their keys, the largest first. Positions
/// with equal keys keep their order.
pub fn order_by_desc(keys: &[usize]) -> (order: Vec<usize>)
    ensures
        is_ranking(key_numbers(keys@), order@),
{
    let mut order: Vec<usize> = Vec::new();
    let mut next: usize = 0;
    while next < keys.len()
        invariant
            next <= keys@.len(),
            is_ranking(key_numbers(keys@.take(next as int)), order@),
        decreases keys@.len() - next,
    {
        let ghost before = order@;
        let mut at: usize = 0;
        while at < order.len() && keys[order[at]] >= keys[next]
            invariant
                at <= order@.len(),
                next < keys@.len(),
                is_ranking(key_numbers(keys@.take(next as int)), order@),
                forall|i: int| 0 <= i < at ==> keys@[order@[i] as int] >= keys@[next as int],
            decreases order@.len() - at,
        {
            at += 1;
        }
        order.insert(at, next);
        proof {
            let seen = key_numbers(keys@.take(next as int));
            let more = key_numbers(keys@.take(next + 1));
            assert forall|i: int| 0 <= i < order@.len() implies (#[trigger] order@[i])
                < more.len() by {
                if i < at {
                    assert(order@[i] == before[i]);
                } else if i > at {
                    assert(order@[i] == before[i - 1]);
                }
            }
            assert forall|i: int, j: int| 0 <= i < j < order@.len() implies {
                ||| more[order@[i] as int] > more[order@[j] as int]
                ||| (more[order@[i] as int] == more[order@[j] as int] && order@[i] < order@[j])
            } by {
                let a = if i < at {
                    i
                } else {
                    i - 1
                };
                let b = if j < at {
                    j
                } else {
                    j - 1
                };
                if i != at {
                    assert(order@[i] == before[a]);
                    assert(before[a] < seen.len());
                }
                if j != at {
                    assert(order@[j] == before[b]);
                    assert(before[b] < seen.len());
                }
                if i == at {
                    assert(b >= at);
                    if b > at {
                        assert(seen[before[at as int] as int] >= seen[before[b] as int]);
                    }
                }
            }
        }
        next += 1;
    }
    proof {
        assert(keys@.take(next as int) =~= keys@);
    }
    order
}

/// The labels of a list, in order.
pub open spec fn label_views(labels: Seq<Option<String>>) -> Seq<Option<Seq<char>>> {
    Seq::new(labels.len(), |i: int| option_text(labels[i]))
}

/// The groups of positions of a list of groups, in order.
pub open spec fn position_groups(groups: Seq<Vec<usize>>) -> Seq<Seq<usize>> {
    Seq::new(groups.len(), |i: int| groups[i]@)
}

/// Whether a position is in one of the groups.
pub open spec fn in_a_group(groups: Seq<Seq<usize>>, position: int) -> bool {
    exists|g: int, i: int|
        0 <= g < groups.len() && 0 <= i < groups[g].len() && #[trigger] groups[g][i] == position
}

/// Whether `groups` gathers the positions of `labels` by label: each group
/// holds, in ascending order, positions with one label; no two groups have
/// the same label; the groups come in the order of their first positions;
/// and every position is in a group.
pub open spec fn is_grouping(labels: Seq<Option<Seq<char>>>, groups: Seq<Seq<usize>>) -> bool {
    &&& forall|g: int| 0 <= g < groups.len() ==> (#[trigger] groups[g]).len() > 0
    &&& forall|g: int, i: int|
        0 <= g < groups.len() && 0 <= i < groups[g].len() ==> {
            &&& (#[trigger] groups[g][i]) < labels.len()
            &&& labels[groups[g][i] as int] == labels[groups[g][0] as int]
        }
    &&& forall|g: int, i: int, j: int|
        0 <= g < groups.len() && 0 <= i < j < groups[g].len() ==> (#[trigger] groups[g][i])
            < (#[trigger] groups[g][j])
    &&& forall|g: int, h: int|
        0 <= g < h < groups.len() ==> {
            &&& (#[trigger] groups[g])[0] < (#[trigger] groups[h])[0]
            &&& labels[groups[g][0] as int] != labels[groups[h][0] as int]
        }
    &&& forall|p: int| 0 <= p < labels.len() ==> #[trigger] in_a_group(groups, p)
}

/// Decides whether two labels are the same.
pub fn same_label(a: &Option<String>, b: &Option<String>) -> (same: bool)
    ensures
        same == (option_text(*a) == option_text(*b)),
{
    match (a, b) {
        (Some(x), Some(y)) => str_eq(x.as_str(), y.as_str()),
        (None, None) => true,
        _ => false,
    }
}

/// Gathers the positions of a list of labels by label. The groups come in
/// the order in which their labels first appear.
pub fn group_positions(labels: &[Option<String>]) -> (groups: Vec<Vec<usize>>)
    ensures
        is_grouping(label_views(labels@), position_groups(groups@)),
{
    let ghost all = label_views(labels@);
    let mut groups: Vec<Vec<usize>> = Vec::new();
    let mut next: usize = 0;
    while next < labels.len()
        invariant
            next <= labels@.len(),
            all == label_views(labels@),
            is_grouping(all.take(next as int), position_groups(groups@)),
        decreases labels@.len() - next,
    {
        let ghost seen = all.take(next as int);
        let ghost before = position_groups(groups@);
        let mut at: usize = 0;
        loop
            invariant_except_break
                at <= groups@.len(),
                forall|g: int| 0 <= g < at ==> all[before[g][0] as int] != all[next as int],
            invariant
                next < labels@.len(),
                all == label_views(labels@),
                seen == all.take(next as int),
                before == position_groups(groups@),
                is_grouping(seen, before),
            ensures
                at <= groups@.len(),
                forall|g: int| 0 <= g < at ==> all[before[g][0] as int] != all[next as int],
                at < groups@.len() ==> all[before[at as int][0] as int] == all[next as int],
            decreases groups@.len() - at,
        {
            if at >= groups.len() {
                break ;
            }
            proof {
                assert(before[at as int].len() > 0);
                assert(before[at as int][0] < seen.len());
                assert(before[at as int] == groups@[at as int]@);
            }
            let first = groups[at][0];
            if same_label(&labels[first], &labels[next]) {
                break ;
            }
            at += 1;
        }
        proof {
            if at < groups@.len() {
                assert(before[at as int].len() > 0);
                assert(before[at as int][0] < seen.len());
            }
        }
        if at < groups.len() {
            groups[at].push(next);
        } else {
            let mut group: Vec<usize> = Vec::new();
            group.push(next);
            groups.push(group);
        }
        proof {
            let more = all.take(next + 1);
            let now = position_groups(groups@);
            assert forall|g: int| 0 <= g < now.len() implies (#[trigger] now[g]).len() > 0 by {
                if g < before.len() {
                    assert(before[g].len() > 0);
                }
            }
            assert forall|g: int, i: int| 0 <= g < now.len() && 0 <= i < now[g].len() implies {
                &&& (#[trigger] now[g][i]) < more.len()
                &&& more[now[g][i] as int] == more[now[g][0] as int]
            } by {
                if g < before.len() {
                    assert(before[g].len() > 0);
                    assert(before[g][0] < seen.len());
                    if i < before[g].len() {
                        assert(before[g][i] < seen.len());
                        assert(now[g][i] == before[g][i]);
                    }
                    assert(now[g][0] == before[g][0]);
                }
            }
            assert forall|g: int, i: int, j: int|
                0 <= g < now.len() && 0 <= i < j < now[g].len() implies (#[trigger] now[g][i])
                < (#[trigger] now[g][j]) by {
                if g < before.len() {
                    assert(before[g][i] < seen.len());
                    assert(now[g][i] == before[g][i]);
                    if j < before[g].len() {
                        assert(now[g][j] == before[g][j]);
                    }
                }
            }
            assert forall|g: int, h: int| 0 <= g < h < now.len() implies {
                &&& (#[trigger] now[g])[0] < (#[trigger] now[h])[0]
                &&& more[now[g][0] as int] != more[now[h][0] as int]
            } by {
                assert(before[g].len() > 0);
                assert(before[g][0] < seen.len());
                assert(now[g][0] == before[g][0]);
                if h < before.len() {
                    assert(before[h].len() > 0);
                    assert(before[h][0] < seen.len());
                    assert(now[h][0] == before[h][0]);
                }
            }
            assert forall|p: int| 0 <= p < more.len() implies #[trigger] in_a_group(now, p) by {
                if p < seen.len() {
                    assert(in_a_group(before, p));
                    let (g, i) = choose|g: int, i: int|
                        0 <= g < before.len() && 0 <= i < before[g].len() && #[trigger] before[g][i]
                            == p;
                    assert(now[g][i] == p);
                } else if at < before.len() {
                    assert(now[at as int][before[at as int].len() as int] == p);
                } else {
                    assert(now[at as int][0] == p);
                }
            }
        }
        next += 1;
    }
    proof {
        assert(all.take(next as int) =~= all);
    }
    groups
}

} // verus!
