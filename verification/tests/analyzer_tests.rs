use gitnapped::analyzer::{analyze_repo, classify_commit};
use gitnapped::histogram::Histogram;
use gitnapped::models::{RepoStats, TrackedFile};
use gitnapped::utils::{
    count_files_and_lines, get_file_extension, get_max_commit_day, is_repo_active, lines_fit,
};

fn records(list: &[&str]) -> Vec<String> {
    list.iter().map(|s| s.to_string()).collect()
}

fn file(path: &str, lines: Option<usize>) -> TrackedFile {
    TrackedFile { path: path.to_string(), lines }
}

#[test]
fn commits_are_counted_by_date() {
    let commits = records(&[
        "abc123 2024-01-15T10:30:00+02:00 Fix bug",
        "def456 2024-01-15T20:00:00+02:00 Late work",
        "0a1b2c 2024-01-16T08:59:00Z Early bird",
    ]);
    let stats = analyze_repo(&commits, &[], None);
    assert_eq!(stats.commit_count, 3);
    assert_eq!(stats.out_of_hours_commits, 0);
    assert_eq!(stats.commits_by_date.get("2024-01-15"), Some(2));
    assert_eq!(stats.commits_by_date.get("2024-01-16"), Some(1));
    assert_eq!(stats.commits_by_date.len(), 2);
    assert_eq!(stats.file_count, 0);
    assert_eq!(stats.line_count, 0);
    assert!(stats.file_types.is_empty());
}

#[test]
fn commits_outside_the_window_are_out_of_hours() {
    let commits = records(&[
        "abc123 2024-01-15T10:30:00+02:00 Fix bug",
        "def456 2024-01-15T20:00:00+02:00 Late work",
        "0a1b2c 2024-01-16T08:59:00Z Early bird",
        "0a1b2d 2024-01-16T09:00:00+00:00 On the dot",
        "0a1b2e 2024-01-16T17:00:59+00:00 Closing time",
        "0a1b2f 2024-01-16T17:01:00+00:00 Just after",
    ]);
    let stats = analyze_repo(&commits, &[], Some((9, 0, 17, 0)));
    assert_eq!(stats.commit_count, 6);
    assert_eq!(stats.out_of_hours_commits, 3);
    assert!(stats.out_of_hours_commits <= stats.commit_count);
}

#[test]
fn counts_by_date_add_up_to_the_commits() {
    let commits = records(&[
        "a 2024-02-01T01:00:00+00:00 one",
        "b 2024-02-01T02:00:00+00:00 two",
        "c 2024-02-02T03:00:00+00:00 three",
        "d 2024-02-03T04:00:00+00:00 four",
        "e 2024-02-03T05:00:00+00:00 five",
    ]);
    let stats = analyze_repo(&commits, &[], Some((9, 0, 17, 0)));
    let sum: usize = stats.commits_by_date.entries().iter().map(|e| e.1).sum();
    assert_eq!(sum, stats.commit_count);
    assert_eq!(stats.commit_count, 5);
    assert_eq!(stats.out_of_hours_commits, 5);
}

#[test]
fn record_without_time_stamp_counts_as_commit_only() {
    let commits = records(&["lonely", "", "abc 2024-03-03T10:00:00+00:00 ok"]);
    let stats = analyze_repo(&commits, &[], Some((9, 0, 17, 0)));
    assert_eq!(stats.commit_count, 3);
    assert_eq!(stats.out_of_hours_commits, 0);
    assert_eq!(stats.commits_by_date.len(), 1);
    assert_eq!(stats.commits_by_date.get("2024-03-03"), Some(1));
}

#[test]
fn time_that_cannot_be_read_is_not_classified() {
    let commits = records(&[
        "abc 2024-03-03 date only",
        "abd 2024-03-03Tnoon words",
        "abe 2024-03-03T23 one field",
        "abf 2024-03-03T23:59:00+00:00 late",
    ]);
    let stats = analyze_repo(&commits, &[], Some((9, 0, 17, 0)));
    assert_eq!(stats.commit_count, 4);
    assert_eq!(stats.commits_by_date.get("2024-03-03"), Some(4));
    assert_eq!(stats.out_of_hours_commits, 1);
}

#[test]
fn sub_repository_records_count_like_the_others() {
    let commits = records(&[
        "abc 2024-03-03T10:00:00+00:00 parent",
        "[SUBMODULE Fix] 1234abc 2024-03-01 Fix",
    ]);
    let stats = analyze_repo(&commits, &[], None);
    assert_eq!(stats.commit_count, 2);
    assert_eq!(stats.commits_by_date.get("2024-03-03"), Some(1));
    assert_eq!(stats.commits_by_date.get("Fix]"), Some(1));
}

#[test]
fn classify_reads_date_and_lateness() {
    let (date, late) = classify_commit("abc 2024-01-15T20:00:00+02:00 x", Some((9, 0, 17, 0)));
    assert_eq!(date, Some("2024-01-15".to_string()));
    assert!(late);
    let (date, late) = classify_commit("abc 2024-01-15T20:00:00+02:00 x", None);
    assert_eq!(date, Some("2024-01-15".to_string()));
    assert!(!late);
    let (date, late) = classify_commit("  abc \t 2024-01-15T12:00:00T99:99 x", Some((9, 0, 17, 0)));
    assert_eq!(date, Some("2024-01-15".to_string()));
    assert!(!late);
    let (date, late) = classify_commit("abc", Some((9, 0, 17, 0)));
    assert_eq!(date, None);
    assert!(!late);
    let (date, _) = classify_commit("abc T12:00", None);
    assert_eq!(date, Some(String::new()));
}

#[test]
fn files_are_counted_with_lines_and_extensions() {
    let files = vec![
        file("src/main.rs", Some(120)),
        file("src/lib.rs", Some(30)),
        file("README", Some(10)),
        file("logo.png", None),
        file("Cargo.toml", Some(0)),
    ];
    let stats = analyze_repo(&[], &files, None);
    assert_eq!(stats.commit_count, 0);
    assert_eq!(stats.file_count, 5);
    assert_eq!(stats.line_count, 160);
    assert_eq!(stats.file_types.get("rs"), Some(2));
    assert_eq!(stats.file_types.get("none"), Some(1));
    assert_eq!(stats.file_types.get("png"), Some(1));
    assert_eq!(stats.file_types.get("toml"), Some(1));
    assert_eq!(stats.file_types.len(), 4);
    let (count, lines, types) = count_files_and_lines(&files);
    assert_eq!((count, lines), (5, 160));
    assert_eq!(types.get("rs"), Some(2));
}

#[test]
fn no_files_count_nothing() {
    let (count, lines, types) = count_files_and_lines(&[]);
    assert_eq!((count, lines), (0, 0));
    assert!(types.is_empty());
}

#[test]
fn lines_fit_unless_the_sum_is_too_large() {
    assert!(lines_fit(&[]));
    assert!(lines_fit(&[file("a", Some(usize::MAX)), file("b", None), file("c", Some(0))]));
    assert!(!lines_fit(&[file("a", Some(usize::MAX)), file("b", Some(1))]));
    assert!(!lines_fit(&[file("a", Some(1)), file("b", None), file("c", Some(usize::MAX))]));
}

#[test]
fn extension_follows_the_last_full_stop() {
    assert_eq!(get_file_extension("src/main.rs"), "rs");
    assert_eq!(get_file_extension("archive.tar.gz"), "gz");
    assert_eq!(get_file_extension("README"), "none");
    assert_eq!(get_file_extension(""), "none");
    assert_eq!(get_file_extension(".gitignore"), "gitignore");
    assert_eq!(get_file_extension("trailing."), "");
    assert_eq!(get_file_extension("a.b/c"), "b/c");
}

#[test]
fn most_active_day_has_the_largest_count() {
    let mut h = Histogram::new();
    assert_eq!(get_max_commit_day(&h), None);
    h.add("2024-01-01", 2);
    h.add("2024-01-02", 5);
    h.add("2024-01-03", 5);
    h.add("2024-01-04", 1);
    assert_eq!(get_max_commit_day(&h), Some(("2024-01-02".to_string(), 5)));
}

#[test]
fn most_active_day_without_commits_is_the_empty_day() {
    let mut h = Histogram::new();
    h.add("2024-01-01", 0);
    assert_eq!(get_max_commit_day(&h), Some((String::new(), 0)));
}

#[test]
fn repository_is_active_with_a_commit() {
    let mut stats = RepoStats::default();
    assert!(!is_repo_active(&stats));
    stats.file_count = 10;
    assert!(!is_repo_active(&stats));
    stats.commit_count = 1;
    assert!(is_repo_active(&stats));
}
