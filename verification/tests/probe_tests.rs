use gitnapped::probe::{git_arguments, join, read_files, read_submodules, Probe, Query, Reply, Stage};

fn out(text: &str) -> Reply {
    Reply::Output(text.to_string())
}

fn path_of(query: Option<Query>) -> (String, String) {
    match query {
        Some(Query::CommitLog(p)) => ("log".to_string(), p),
        Some(Query::Submodules(p)) => ("submodules".to_string(), p),
        Some(Query::SubmoduleLog(p)) => ("sublog".to_string(), p),
        Some(Query::TrackedFiles(p)) => ("files".to_string(), p),
        Some(Query::FileContent(p)) => ("content".to_string(), p),
        None => ("done".to_string(), String::new()),
    }
}

fn pair(kind: &str, path: &str) -> (String, String) {
    (kind.to_string(), path.to_string())
}

#[test]
fn probe_whose_log_fails_is_zero_throughout() {
    let probe = Probe::new("/not/a/repo", Some((9, 0, 17, 0)));
    assert_eq!(path_of(probe.pending()), pair("log", "/not/a/repo"));
    assert!(probe.finish().is_none());
    let probe = probe.advance(Reply::Failed);
    assert!(matches!(probe.stage(), Stage::Done));
    assert!(probe.pending().is_none());
    let stats = probe.finish().unwrap();
    assert_eq!(stats.commit_count, 0);
    assert_eq!(stats.out_of_hours_commits, 0);
    assert_eq!(stats.file_count, 0);
    assert_eq!(stats.line_count, 0);
    assert!(stats.commits_by_date.is_empty());
    assert!(stats.file_types.is_empty());
}

#[test]
fn probe_of_an_empty_repository_asks_three_things() {
    let probe = Probe::new("/r", None);
    let probe = probe.advance(out(""));
    assert_eq!(path_of(probe.pending()), pair("submodules", "/r"));
    let probe = probe.advance(out(""));
    assert_eq!(path_of(probe.pending()), pair("files", "/r"));
    let probe = probe.advance(out(""));
    assert!(probe.pending().is_none());
    let stats = probe.finish().unwrap();
    assert_eq!((stats.commit_count, stats.file_count, stats.line_count), (0, 0, 0));
}

#[test]
fn probe_folds_sub_repositories_and_reads_files() {
    let mut probe = Probe::new("/r", Some((9, 0, 17, 0)));
    probe = probe.advance(out(
        "a1 2024-05-01T10:00:00+00:00 first\na2 2024-05-01T22:00:00+00:00 second\n",
    ));
    assert_eq!(path_of(probe.pending()), pair("submodules", "/r"));
    probe = probe.advance(out(
        " 1111 libs/one (heads/main)\nbroken\n+2222 libs/two (v1)\n-3333 libs/three\n",
    ));
    assert!(matches!(probe.stage(), Stage::SubmoduleLogs));
    assert_eq!(path_of(probe.pending()), pair("sublog", "/r/libs/one"));
    probe = probe.advance(out("[SUBMODULE x] b1 2024-04-30 x\n[SUBMODULE y] b2 2024-04-30 y"));
    assert_eq!(path_of(probe.pending()), pair("sublog", "/r/libs/two"));
    probe = probe.advance(Reply::Failed);
    assert_eq!(path_of(probe.pending()), pair("sublog", "/r/libs/three"));
    probe = probe.advance(out("[SUBMODULE z] c1 2024-04-29 z\n"));
    assert_eq!(path_of(probe.pending()), pair("files", "/r"));
    assert!(probe.finish().is_none());
    probe = probe.advance(out("src/main.rs\nREADME\nlogo.png\n"));
    assert_eq!(path_of(probe.pending()), pair("content", "/r/src/main.rs"));
    probe = probe.advance(out("fn main() {\n}\n"));
    assert_eq!(path_of(probe.pending()), pair("content", "/r/README"));
    probe = probe.advance(out("one line, no line feed"));
    assert_eq!(path_of(probe.pending()), pair("content", "/r/logo.png"));
    probe = probe.advance(Reply::Failed);
    assert!(matches!(probe.stage(), Stage::Done));
    assert!(probe.pending().is_none());
    let stats = probe.finish().unwrap();
    assert_eq!(stats.commit_count, 5);
    assert_eq!(stats.out_of_hours_commits, 1);
    assert_eq!(stats.commits_by_date.get("2024-05-01"), Some(2));
    assert_eq!(stats.commits_by_date.get("x]"), Some(1));
    assert_eq!(stats.commits_by_date.get("y]"), Some(1));
    assert_eq!(stats.commits_by_date.get("z]"), Some(1));
    assert_eq!(stats.file_count, 3);
    assert_eq!(stats.line_count, 3);
    assert_eq!(stats.file_types.get("rs"), Some(1));
    assert_eq!(stats.file_types.get("none"), Some(1));
    assert_eq!(stats.file_types.get("png"), Some(1));
    let after = probe.advance(out("ignored"));
    assert_eq!(after.finish().unwrap().commit_count, 5);
}

#[test]
fn listing_of_sub_repositories_that_fails_names_none() {
    let probe = Probe::new("/r", None).advance(out("a1 2024-05-01T10:00:00+00:00 first"));
    let probe = probe.advance(Reply::Failed);
    assert_eq!(path_of(probe.pending()), pair("files", "/r"));
    let probe = probe.advance(Reply::Failed);
    assert!(probe.pending().is_none());
    let stats = probe.finish().unwrap();
    assert_eq!(stats.commit_count, 1);
    assert_eq!(stats.commits_by_date.get("2024-05-01"), Some(1));
    assert_eq!(stats.file_count, 0);
}

#[test]
fn lines_of_the_files_that_were_read_are_added() {
    let mut probe = Probe::new("/r", None).advance(out("")).advance(out(""));
    probe = probe.advance(out("a\nb"));
    probe = probe.advance(out("x\ny\n")).advance(out("z"));
    let stats = probe.finish().unwrap();
    assert_eq!(stats.line_count, 3);
}

#[test]
fn sub_repositories_are_the_second_word_of_each_line() {
    assert_eq!(
        read_submodules("/r", " 1111 libs/one (heads/main)\n\nonly\n+2222\tlibs/two\n"),
        vec!["/r/libs/one", "/r/libs/two"]
    );
    assert!(read_submodules("/r", "").is_empty());
    assert_eq!(join("/a", "b/c"), "/a/b/c");
    assert_eq!(join("", ""), "/");
}

#[test]
fn files_are_listed_one_per_line() {
    let files = read_files("a.rs\nb c.txt\r\n\nlast");
    let names: Vec<&str> = files.iter().map(|f| f.path.as_str()).collect();
    assert_eq!(names, vec!["a.rs", "b c.txt", "", "last"]);
    assert!(files.iter().all(|f| f.lines.is_none()));
}

#[test]
fn git_answers_a_commit_log_with_these_arguments() {
    let author = Some("Ada".to_string());
    let args = git_arguments(&Query::CommitLog("/r".to_string()), &author, "2024-01-01", "2024-02-01");
    assert_eq!(
        args.unwrap(),
        vec![
            "-C",
            "/r",
            "log",
            "--pretty=format:%h %ad %s",
            "--date=iso-strict",
            "--author=Ada",
            "--since=2024-01-01",
            "--until=2024-02-01",
        ]
    );
    let args = git_arguments(&Query::SubmoduleLog("/r/sub".to_string()), &None, "a", "b");
    assert_eq!(
        args.unwrap(),
        vec![
            "-C",
            "/r/sub",
            "log",
            "--pretty=format:[SUBMODULE %s] %h %ad %s",
            "--date=short",
            "--since=a",
            "--until=b",
        ]
    );
}

#[test]
fn git_answers_listings_with_these_arguments() {
    let args = git_arguments(&Query::Submodules("/r".to_string()), &Some("x".to_string()), "a", "b");
    assert_eq!(args.unwrap(), vec!["-C", "/r", "submodule", "status"]);
    let args = git_arguments(&Query::TrackedFiles("/r".to_string()), &None, "a", "b");
    assert_eq!(args.unwrap(), vec!["-C", "/r", "ls-files"]);
    assert!(git_arguments(&Query::FileContent("/r/f".to_string()), &None, "a", "b").is_none());
}
