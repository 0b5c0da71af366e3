use gitnapped::dates::{newest_first, rank_of};
use gitnapped::models::RepoStats;
use gitnapped::ranking::{
    group_positions, order_by_desc, parse_sort_key, same_label, sort_value, SortKey,
};

#[test]
fn largest_keys_come_first() {
    assert_eq!(order_by_desc(&[]), Vec::<usize>::new());
    assert_eq!(order_by_desc(&[7]), vec![0]);
    assert_eq!(order_by_desc(&[1, 3, 2]), vec![1, 2, 0]);
    assert_eq!(order_by_desc(&[5, 4, 3, 2, 1]), vec![0, 1, 2, 3, 4]);
    assert_eq!(order_by_desc(&[1, 2, 3, 4, 5]), vec![4, 3, 2, 1, 0]);
    assert_eq!(order_by_desc(&[0, usize::MAX, 0]), vec![1, 0, 2]);
}

#[test]
fn equal_keys_keep_their_order() {
    assert_eq!(order_by_desc(&[2, 2, 2]), vec![0, 1, 2]);
    assert_eq!(order_by_desc(&[1, 5, 1, 5, 3, 1]), vec![1, 3, 4, 0, 2, 5]);
}

#[test]
fn ranking_agrees_with_a_stable_sort() {
    let keys: Vec<usize> = (0..200).map(|i| (i * 7919 + 13) % 17).collect();
    let mut expected: Vec<usize> = (0..keys.len()).collect();
    expected.sort_by(|a, b| keys[*b].cmp(&keys[*a]));
    assert_eq!(order_by_desc(&keys), expected);
}

#[test]
fn sort_keys_are_named() {
    assert_eq!(parse_sort_key("commits"), SortKey::Commits);
    assert_eq!(parse_sort_key("files"), SortKey::Files);
    assert_eq!(parse_sort_key("lines"), SortKey::Lines);
    assert_eq!(parse_sort_key("Commits"), SortKey::Unsorted);
    assert_eq!(parse_sort_key(""), SortKey::Unsorted);
    assert_eq!(parse_sort_key("size"), SortKey::Unsorted);
}

#[test]
fn sort_value_picks_the_number() {
    let mut stats = RepoStats::default();
    stats.commit_count = 3;
    stats.file_count = 20;
    stats.line_count = 500;
    stats.out_of_hours_commits = 1;
    assert_eq!(sort_value(&stats, SortKey::Commits), 3);
    assert_eq!(sort_value(&stats, SortKey::Files), 20);
    assert_eq!(sort_value(&stats, SortKey::Lines), 500);
    assert_eq!(sort_value(&stats, SortKey::Unsorted), 0);
}

#[test]
fn newest_dates_come_first() {
    let dates: Vec<String> = ["2024-01-15", "2024-03-01", "2023-12-31", "2024-03-01", "2024-02-29"]
        .iter()
        .map(|d| d.to_string())
        .collect();
    assert_eq!(newest_first(&dates), vec![1, 3, 4, 0, 2]);
    assert!(newest_first(&[]).is_empty());
}

#[test]
fn date_that_cannot_be_read_ranks_as_the_year_2000() {
    let dates: Vec<String> = ["1999-12-31", "garbage", "2000-01-02", "2023-02-30", "2000-01-01", "1999-06-01"]
        .iter()
        .map(|d| d.to_string())
        .collect();
    assert_eq!(newest_first(&dates), vec![2, 1, 3, 4, 0, 5]);
}

#[test]
fn rank_grows_with_the_day() {
    assert_eq!(rank_of(Some(0), None), 0x8000_0000);
    assert_eq!(rank_of(Some(730_120), Some(5)), 0x8000_0000 + 730_120);
    assert_eq!(rank_of(None, Some(730_120)), 0x8000_0000 + 730_120);
    assert_eq!(rank_of(None, None), 0x8000_0000);
    assert_eq!(rank_of(Some(i32::MIN), None), 0);
    assert_eq!(rank_of(Some(i32::MAX), None), 0xffff_ffff);
    assert_eq!(rank_of(Some(-1), Some(7)), 0x7fff_ffff);
}

fn labels(list: &[Option<&str>]) -> Vec<Option<String>> {
    list.iter().map(|l| l.map(String::from)).collect()
}

#[test]
fn positions_are_gathered_by_label() {
    let list = labels(&[Some("Infra"), None, Some("Tools"), Some("Infra"), None, Some("")]);
    assert_eq!(group_positions(&list), vec![vec![0, 3], vec![1, 4], vec![2], vec![5]]);
    assert!(group_positions(&[]).is_empty());
    assert_eq!(group_positions(&labels(&[None, None])), vec![vec![0, 1]]);
}

#[test]
fn labels_are_the_same_when_their_texts_are() {
    let a = Some("x".to_string());
    let b = Some("y".to_string());
    assert!(same_label(&a, &a.clone()));
    assert!(!same_label(&a, &b));
    assert!(!same_label(&a, &None));
    assert!(!same_label(&None, &b));
    assert!(same_label(&None, &None));
}
