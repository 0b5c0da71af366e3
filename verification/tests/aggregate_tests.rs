use gitnapped::aggregate::{aggregate_stats, checked_aggregate_stats};
use gitnapped::histogram::Histogram;
use gitnapped::models::RepoStats;

fn stats(commits: usize, late: usize, files: usize, lines: usize) -> RepoStats {
    RepoStats {
        commit_count: commits,
        out_of_hours_commits: late,
        file_count: files,
        line_count: lines,
        commits_by_date: Histogram::new(),
        file_types: Histogram::new(),
    }
}

fn with_dates(mut s: RepoStats, dates: &[(&str, usize)]) -> RepoStats {
    for (date, n) in dates {
        s.commits_by_date.add(date, *n);
    }
    s
}

fn with_types(mut s: RepoStats, types: &[(&str, usize)]) -> RepoStats {
    for (ext, n) in types {
        s.file_types.add(ext, *n);
    }
    s
}

fn sorted(h: &Histogram) -> Vec<(String, usize)> {
    let mut list = h.entries();
    list.sort();
    list
}

fn same(a: &RepoStats, b: &RepoStats) -> bool {
    a.commit_count == b.commit_count
        && a.out_of_hours_commits == b.out_of_hours_commits
        && a.file_count == b.file_count
        && a.line_count == b.line_count
        && sorted(&a.commits_by_date) == sorted(&b.commits_by_date)
        && sorted(&a.file_types) == sorted(&b.file_types)
}

#[test]
fn merging_nothing_is_zero_throughout() {
    let total = aggregate_stats(&[]);
    assert_eq!(total.commit_count, 0);
    assert_eq!(total.out_of_hours_commits, 0);
    assert_eq!(total.file_count, 0);
    assert_eq!(total.line_count, 0);
    assert!(total.commits_by_date.is_empty());
    assert!(total.file_types.is_empty());
}

#[test]
fn merging_adds_numbers_and_histograms() {
    let a = with_types(
        with_dates(stats(3, 1, 10, 100), &[("2024-01-01", 2), ("2024-01-02", 1)]),
        &[("rs", 7), ("md", 3)],
    );
    let b = with_types(
        with_dates(stats(5, 2, 4, 40), &[("2024-01-02", 4), ("2024-01-03", 1)]),
        &[("rs", 1), ("toml", 3)],
    );
    let total = aggregate_stats(&[a, b]);
    assert_eq!(total.commit_count, 8);
    assert_eq!(total.out_of_hours_commits, 3);
    assert_eq!(total.file_count, 14);
    assert_eq!(total.line_count, 140);
    assert_eq!(total.commits_by_date.get("2024-01-01"), Some(2));
    assert_eq!(total.commits_by_date.get("2024-01-02"), Some(5));
    assert_eq!(total.commits_by_date.get("2024-01-03"), Some(1));
    assert_eq!(total.commits_by_date.get("2024-01-04"), None);
    assert_eq!(total.commits_by_date.len(), 3);
    assert_eq!(total.file_types.get("rs"), Some(8));
    assert_eq!(total.file_types.get("md"), Some(3));
    assert_eq!(total.file_types.get("toml"), Some(3));
    assert_eq!(total.file_types.len(), 3);
}

#[test]
fn merging_does_not_depend_on_the_order() {
    let a = with_dates(stats(3, 1, 10, 100), &[("d1", 2), ("d2", 1)]);
    let b = with_dates(stats(5, 2, 4, 40), &[("d2", 4), ("d3", 1)]);
    let c = with_dates(stats(1, 0, 1, 1), &[("d0", 1)]);
    let abc = aggregate_stats(&[a.clone(), b.clone(), c.clone()]);
    let cab = aggregate_stats(&[c.clone(), a.clone(), b.clone()]);
    let bca = aggregate_stats(&[b, c, a]);
    assert!(same(&abc, &cab));
    assert!(same(&abc, &bca));
    assert_eq!(abc.commit_count, 9);
}

#[test]
fn merging_in_parts_gives_the_same_total() {
    let a = with_dates(stats(3, 1, 10, 100), &[("d1", 2), ("d2", 1)]);
    let b = with_dates(stats(5, 2, 4, 40), &[("d2", 4), ("d3", 1)]);
    let c = with_dates(stats(1, 0, 1, 1), &[("d0", 1)]);
    let ab = aggregate_stats(&[a.clone(), b.clone()]);
    let bc = aggregate_stats(&[b.clone(), c.clone()]);
    let left = aggregate_stats(&[ab, c.clone()]);
    let right = aggregate_stats(&[a.clone(), bc]);
    let flat = aggregate_stats(&[a, b, c]);
    assert!(same(&left, &right));
    assert!(same(&left, &flat));
}

#[test]
fn merging_leaves_its_inputs_as_they_are() {
    let a = with_dates(stats(3, 1, 10, 100), &[("d1", 3)]);
    let list = vec![a, stats(2, 0, 0, 0)];
    let total = aggregate_stats(&list);
    assert_eq!(total.commit_count, 5);
    assert_eq!(list[0].commit_count, 3);
    assert_eq!(list[0].commits_by_date.get("d1"), Some(3));
    assert_eq!(list[1].commit_count, 2);
}

#[test]
fn checked_merge_reports_a_number_that_does_not_fit() {
    let big = stats(usize::MAX, 0, 0, 0);
    assert!(checked_aggregate_stats(&[big.clone(), stats(1, 0, 0, 0)]).is_none());
    let fits = checked_aggregate_stats(&[big, stats(0, 0, 0, 0)]);
    assert_eq!(fits.map(|s| s.commit_count), Some(usize::MAX));
    assert!(checked_aggregate_stats(&[stats(0, 0, 0, usize::MAX), stats(0, 0, 0, 1)]).is_none());
    assert!(checked_aggregate_stats(&[stats(0, usize::MAX, 0, 0), stats(0, 1, 0, 0)]).is_none());
    assert!(checked_aggregate_stats(&[stats(0, 0, usize::MAX, 0), stats(0, 0, 1, 0)]).is_none());
}

#[test]
fn checked_merge_reports_a_count_that_does_not_fit() {
    let a = with_dates(stats(0, 0, 0, 0), &[("d", usize::MAX)]);
    let b = with_dates(stats(0, 0, 0, 0), &[("d", 1)]);
    let c = with_dates(stats(0, 0, 0, 0), &[("e", 1)]);
    assert!(checked_aggregate_stats(&[a.clone(), b]).is_none());
    let ok = checked_aggregate_stats(&[a.clone(), c]).unwrap();
    assert_eq!(ok.commits_by_date.get("d"), Some(usize::MAX));
    assert_eq!(ok.commits_by_date.get("e"), Some(1));
    let t1 = with_types(stats(0, 0, 0, 0), &[("rs", usize::MAX)]);
    let t2 = with_types(stats(0, 0, 0, 0), &[("rs", 1)]);
    assert!(checked_aggregate_stats(&[t1, t2]).is_none());
}

#[test]
fn histogram_counts_by_key() {
    let mut h = Histogram::new();
    assert!(h.is_empty());
    assert_eq!(h.len(), 0);
    h.add("a", 1);
    h.add("b", 2);
    h.add("a", 3);
    h.add("zero", 0);
    assert_eq!(h.get("a"), Some(4));
    assert_eq!(h.get("b"), Some(2));
    assert_eq!(h.get("zero"), Some(0));
    assert_eq!(h.get("c"), None);
    assert_eq!(h.len(), 3);
    assert!(!h.is_empty());
    assert_eq!(
        h.entries(),
        vec![("a".to_string(), 4), ("b".to_string(), 2), ("zero".to_string(), 0)]
    );
    let copy = h.clone();
    assert_eq!(copy.entries(), h.entries());
}

#[test]
fn histogram_absorbs_another() {
    let mut h = Histogram::new();
    h.add("a", 1);
    let mut other = Histogram::new();
    other.add("a", 2);
    other.add("b", 5);
    assert!(h.absorb(&other));
    assert_eq!(h.get("a"), Some(3));
    assert_eq!(h.get("b"), Some(5));
    let mut full = Histogram::new();
    full.add("a", usize::MAX);
    assert!(!full.absorb(&other));
}
