use gitnapped::cache::StatsCache;
use gitnapped::config::{all_descriptors, parse_repos_from_config, push_to_empty_config};
use gitnapped::grouping::{
    analyze_all_categories, analyze_all_projects, create_repo_path_map, project_group, summarize,
    AnalysisError,
};
use gitnapped::models::{Config, RepoInfo, RepoStats};
use gitnapped::parser::parse_repo_string;
use gitnapped::summary::{analyze, choose_granularity, count_active, repo_paths, Granularity};
use gitnapped::textmap::TextMap;

fn commits(n: usize) -> RepoStats {
    let mut stats = RepoStats::default();
    stats.commit_count = n;
    if n > 0 {
        stats.commits_by_date.add("2024-01-01", n);
    }
    stats
}

fn config(categories: &[(&str, &[&str])]) -> Config {
    Config {
        author: None,
        repos: categories
            .iter()
            .map(|(name, list)| (name.to_string(), list.iter().map(|d| d.to_string()).collect()))
            .collect(),
    }
}

fn cache_of(entries: &[(&str, usize)]) -> StatsCache {
    let mut cache = StatsCache::new();
    for (path, n) in entries {
        assert!(cache.insert(path.to_string(), commits(*n)));
    }
    cache
}

fn paths(list: &[&str]) -> Vec<String> {
    list.iter().map(|s| s.to_string()).collect()
}

#[test]
fn active_only_category_keeps_the_active_repositories() {
    let cfg = config(&[("work", &["/r0", "/r1", "/r2", "/r3"])]);
    let cache = cache_of(&[("/r0", 0), ("/r1", 3), ("/r2", 0), ("/r3", 5)]);
    let map = create_repo_path_map(&cfg);
    let (categories, all) = analyze_all_categories(&cfg, &map, &cache, true).unwrap();
    assert_eq!(categories.len(), 1);
    assert_eq!(categories[0].name, "work");
    let kept: Vec<&str> = categories[0].repos.iter().map(|r| r.0.as_str()).collect();
    assert_eq!(kept, vec!["/r1", "/r3"]);
    assert_eq!(categories[0].repos[0].1.commit_count, 3);
    assert_eq!(categories[0].repos[1].1.commit_count, 5);
    assert_eq!(categories[0].total.commit_count, 8);
    assert_eq!(categories[0].total.commits_by_date.get("2024-01-01"), Some(8));
    let listed: Vec<&str> = all.iter().map(|r| r.0.as_str()).collect();
    assert_eq!(listed, vec!["/r1", "/r3"]);
}

#[test]
fn without_the_filter_every_repository_stays() {
    let cfg = config(&[("work", &["/r0", "/r1", "/r2", "/r3"])]);
    let cache = cache_of(&[("/r0", 0), ("/r1", 3), ("/r2", 0), ("/r3", 5)]);
    let map = create_repo_path_map(&cfg);
    let (categories, all) = analyze_all_categories(&cfg, &map, &cache, false).unwrap();
    assert_eq!(categories[0].repos.len(), 4);
    assert_eq!(categories[0].total.commit_count, 8);
    assert_eq!(all.len(), 4);
}

#[test]
fn categories_come_in_the_order_of_the_configuration() {
    let cfg = config(&[
        ("b", &["/x [B][One]", "/y [Two]"]),
        ("a", &[]),
        ("c", &["/x [B][One]"]),
    ]);
    let cache = cache_of(&[("/x", 2), ("/y", 0)]);
    let map = create_repo_path_map(&cfg);
    let (categories, all) = analyze_all_categories(&cfg, &map, &cache, true).unwrap();
    let names: Vec<&str> = categories.iter().map(|c| c.name.as_str()).collect();
    assert_eq!(names, vec!["b", "a", "c"]);
    assert_eq!(categories[0].repos.len(), 1);
    assert_eq!(categories[0].total.commit_count, 2);
    assert!(categories[1].repos.is_empty());
    assert_eq!(categories[1].total.commit_count, 0);
    assert_eq!(categories[2].total.commit_count, 2);
    let listed: Vec<&str> = all.iter().map(|r| r.0.as_str()).collect();
    assert_eq!(listed, vec!["/x", "/x"]);
}

#[test]
fn descriptor_unknown_to_the_path_map_stands_for_itself() {
    let cfg = config(&[("work", &["/plain [Name]"])]);
    let empty: TextMap<String> = TextMap::new();
    let cache = cache_of(&[("/plain [Name]", 4)]);
    let (categories, _) = analyze_all_categories(&cfg, &empty, &cache, false).unwrap();
    assert_eq!(categories[0].repos[0].0, "/plain [Name]");
    assert_eq!(categories[0].total.commit_count, 4);
}

#[test]
fn repository_that_was_not_probed_is_named() {
    let cfg = config(&[("one", &["/a"]), ("two", &["/b", "/c"])]);
    let cache = cache_of(&[("/a", 1), ("/c", 1)]);
    let map = create_repo_path_map(&cfg);
    match analyze_all_categories(&cfg, &map, &cache, false) {
        Err(AnalysisError::NotProbed(path)) => assert_eq!(path, "/b"),
        other => panic!("{:?}", other.map(|_| ())),
    }
    let infos = parse_repos_from_config(&cfg);
    match analyze_all_projects(&infos, &cache, true) {
        Err(AnalysisError::NotProbed(path)) => assert_eq!(path, "/b"),
        other => panic!("{:?}", other.map(|_| ())),
    }
}

#[test]
fn total_that_does_not_fit_is_an_overflow() {
    let cfg = config(&[("one", &["/a", "/b"])]);
    let mut cache = StatsCache::new();
    let mut big = RepoStats::default();
    big.commit_count = usize::MAX;
    cache.insert("/a".to_string(), big);
    cache.insert("/b".to_string(), commits(1));
    let map = create_repo_path_map(&cfg);
    assert!(matches!(
        analyze_all_categories(&cfg, &map, &cache, false),
        Err(AnalysisError::Overflow)
    ));
    let infos = vec![parse_repo_string("/a [P]"), parse_repo_string("/b [P]")];
    assert!(matches!(analyze_all_projects(&infos, &cache, false), Err(AnalysisError::Overflow)));
    assert!(matches!(
        summarize(&paths(&["/a", "/b"]), &cache, true),
        Err(AnalysisError::Overflow)
    ));
}

#[test]
fn project_gathers_the_repositories_of_one_vanity_name() {
    let infos = vec![parse_repo_string("/a [Infra][Gateway]"), parse_repo_string("/b [Infra][Gateway]")];
    let cache = cache_of(&[("/a", 2), ("/b", 5)]);
    let projects = analyze_all_projects(&infos, &cache, false).unwrap();
    assert_eq!(projects.len(), 1);
    assert_eq!(projects[0].name, "Gateway");
    assert_eq!(projects[0].group, Some("Infra".to_string()));
    assert_eq!(projects[0].repos, vec!["/a", "/b"]);
    assert_eq!(projects[0].stats.commit_count, 7);
}

#[test]
fn active_only_project_leaves_inactive_repositories_out() {
    let infos = vec![
        parse_repo_string("/a [Gateway]"),
        parse_repo_string("/b [Infra][Gateway]"),
        parse_repo_string("/c [Other]"),
        parse_repo_string("/d [Late][Gateway]"),
    ];
    let cache = cache_of(&[("/a", 0), ("/b", 5), ("/c", 0), ("/d", 1)]);
    let projects = analyze_all_projects(&infos, &cache, true).unwrap();
    assert_eq!(projects.len(), 2);
    assert_eq!(projects[0].name, "Gateway");
    assert_eq!(projects[0].group, Some("Infra".to_string()));
    assert_eq!(projects[0].repos, vec!["/b", "/d"]);
    assert_eq!(projects[0].stats.commit_count, 6);
    assert_eq!(projects[1].name, "Other");
    assert_eq!(projects[1].group, None);
    assert!(projects[1].repos.is_empty());
    assert_eq!(projects[1].stats.commit_count, 0);
}

#[test]
fn project_group_is_the_first_that_is_named() {
    let members: Vec<RepoInfo> =
        vec![parse_repo_string("/a [P]"), parse_repo_string("/b [G1][P]"), parse_repo_string("/c [G2][P]")];
    assert_eq!(project_group(&members), Some("G1".to_string()));
    assert_eq!(project_group(&members[..1]), None);
    assert_eq!(project_group(&[]), None);
}

#[test]
fn summarize_gives_members_and_total() {
    let cache = cache_of(&[("/a", 2), ("/b", 0), ("/c", 4)]);
    let (repos, total) = summarize(&paths(&["/a", "/b", "/c", "/a"]), &cache, false).unwrap();
    assert_eq!(repos.len(), 4);
    assert_eq!(total.commit_count, 8);
    let (repos, total) = summarize(&paths(&["/a", "/b", "/c", "/a"]), &cache, true).unwrap();
    assert_eq!(repos.iter().map(|r| r.0.as_str()).collect::<Vec<_>>(), vec!["/a", "/c", "/a"]);
    assert_eq!(total.commit_count, 8);
    let (repos, total) = summarize(&[], &cache, true).unwrap();
    assert!(repos.is_empty());
    assert_eq!(total.commit_count, 0);
}

#[test]
fn repository_in_a_category_and_a_project_is_probed_once() {
    let cfg = config(&[
        ("one", &["/a [Infra][Gateway]", "/b [Tools]"]),
        ("two", &["/a [Infra][Gateway]", "/c [Infra][Gateway]"]),
    ]);
    let mut cache = StatsCache::new();
    let mut calls: Vec<String> = Vec::new();
    for path in repo_paths(&cfg) {
        let stats = cache.get_or_compute(&path, |p| {
            calls.push(p.to_string());
            commits(p.len())
        });
        assert_eq!(stats.commit_count, 2);
    }
    assert_eq!(calls, vec!["/a", "/b", "/c"]);
    assert_eq!(cache.len(), 3);
    let map = create_repo_path_map(&cfg);
    let (categories, _) = analyze_all_categories(&cfg, &map, &cache, false).unwrap();
    let infos = parse_repos_from_config(&cfg);
    let projects = analyze_all_projects(&infos, &cache, false).unwrap();
    for info in &infos {
        cache.get_or_compute(&info.path, |p| {
            calls.push(p.to_string());
            commits(0)
        });
    }
    assert_eq!(calls.len(), 3);
    assert_eq!(categories[1].total.commit_count, 4);
    assert_eq!(projects[0].name, "Gateway");
    assert_eq!(projects[0].repos, vec!["/a", "/a", "/c"]);
    assert_eq!(projects[0].stats.commit_count, 6);
}

#[test]
fn cache_keeps_the_first_statistics_of_a_path() {
    let mut cache = StatsCache::new();
    assert!(!cache.contains("/a"));
    assert!(cache.get("/a").is_none());
    assert!(cache.insert("/a".to_string(), commits(3)));
    assert!(!cache.insert("/a".to_string(), commits(9)));
    assert_eq!(cache.get("/a").map(|s| s.commit_count), Some(3));
    assert!(cache.contains("/a"));
    assert_eq!(cache.len(), 1);
    let again = cache.get_or_compute("/a", |_| commits(7));
    assert_eq!(again.commit_count, 3);
    let fresh = cache.get_or_compute("/b", |_| commits(7));
    assert_eq!(fresh.commit_count, 7);
    assert_eq!(cache.get("/b").map(|s| s.commit_count), Some(7));
    assert_eq!(cache.len(), 2);
}

#[test]
fn text_map_keeps_the_first_value_of_a_key() {
    let mut map: TextMap<u32> = TextMap::new();
    assert_eq!(map.len(), 0);
    assert!(map.insert_if_absent("k".to_string(), 1));
    assert!(!map.insert_if_absent("k".to_string(), 2));
    assert!(map.insert_if_absent("l".to_string(), 3));
    assert_eq!(map.get("k"), Some(&1));
    assert_eq!(map.get("l"), Some(&3));
    assert_eq!(map.get("m"), None);
    assert!(map.contains_key("k"));
    assert!(!map.contains_key("m"));
    assert_eq!(map.len(), 2);
}

#[test]
fn path_map_holds_the_path_of_each_descriptor() {
    let cfg = config(&[("one", &["/a [Infra][Gateway]", " /b "]), ("two", &["/a [Infra][Gateway]"])]);
    let map = create_repo_path_map(&cfg);
    assert_eq!(map.len(), 2);
    assert_eq!(map.get("/a [Infra][Gateway]"), Some(&"/a".to_string()));
    assert_eq!(map.get(" /b "), Some(&"/b".to_string()));
    assert_eq!(map.get("/a"), None);
}

#[test]
fn configuration_lists_descriptors_category_after_category() {
    let cfg = config(&[("one", &["/a [G][V]", "/b"]), ("none", &[]), ("two", &["/c [W]"])]);
    assert_eq!(all_descriptors(&cfg), vec!["/a [G][V]", "/b", "/c [W]"]);
    let infos = parse_repos_from_config(&cfg);
    assert_eq!(infos.len(), 3);
    assert_eq!(infos[0].vanity_name, "V");
    assert_eq!(infos[1].vanity_name, "/b");
    assert_eq!(infos[2].path, "/c");
    assert_eq!(repo_paths(&cfg), vec!["/a", "/b", "/c"]);
    let empty = config(&[]);
    assert!(parse_repos_from_config(&empty).is_empty());
}

#[test]
fn single_directory_makes_one_category() {
    let cfg = push_to_empty_config("/srv/repo", true).unwrap();
    assert_eq!(cfg.author, None);
    assert_eq!(cfg.repos.len(), 1);
    assert_eq!(cfg.repos[0].0, "Uncategorized");
    assert_eq!(cfg.repos[0].1, vec!["/srv/repo [Uncategorized][Unnamed]"]);
    let infos = parse_repos_from_config(&cfg);
    assert_eq!(infos[0].path, "/srv/repo");
    assert_eq!(infos[0].group, Some("Uncategorized".to_string()));
    assert_eq!(infos[0].vanity_name, "Unnamed");
}

#[test]
fn directory_that_is_no_repository_is_refused() {
    let refused = push_to_empty_config("/tmp/x", false);
    assert_eq!(
        refused.err(),
        Some(
            "'/tmp/x' is not a Git repository. Please provide a valid Git repository path."
                .to_string()
        )
    );
}

#[test]
fn active_entities_are_counted() {
    assert_eq!(count_active(&[]), 0);
    assert_eq!(count_active(&[commits(0), commits(3), commits(0), commits(5)]), 2);
}

#[test]
fn report_takes_total_and_active_at_one_granularity() {
    let cfg = config(&[
        ("one", &["/a [Infra][Gateway]", "/b [Tools]"]),
        ("two", &["/c [Infra][Gateway]", "/d [Idle]"]),
        ("three", &["/d [Idle]"]),
    ]);
    let cache = cache_of(&[("/a", 2), ("/b", 1), ("/c", 5), ("/d", 0)]);

    let flat = analyze(&cfg, &cache, false, Granularity::Repositories).unwrap();
    assert_eq!(flat.all_repos.len(), 5);
    assert_eq!(flat.categories.len(), 3);
    assert!(flat.projects.is_none());
    assert_eq!(flat.total.commit_count, 8);
    assert_eq!(flat.active, 3);

    let by_category = analyze(&cfg, &cache, false, Granularity::Categories).unwrap();
    assert!(by_category.projects.is_none());
    assert_eq!(by_category.total.commit_count, 8);
    assert_eq!(by_category.active, 2);

    let by_project = analyze(&cfg, &cache, false, Granularity::Projects).unwrap();
    let projects = by_project.projects.as_ref().unwrap();
    assert_eq!(projects.len(), 3);
    assert_eq!(projects[0].name, "Gateway");
    assert_eq!(projects[0].stats.commit_count, 7);
    assert_eq!(projects[2].name, "Idle");
    assert_eq!(projects[2].repos, vec!["/d", "/d"]);
    assert_eq!(by_project.total.commit_count, 8);
    assert_eq!(by_project.active, 2);

    let filtered = analyze(&cfg, &cache, true, Granularity::Projects).unwrap();
    assert_eq!(filtered.all_repos.len(), 3);
    assert!(filtered.projects.as_ref().unwrap()[2].repos.is_empty());
    assert_eq!(filtered.total.commit_count, 8);
    assert_eq!(filtered.active, 2);
}

#[test]
fn report_fails_on_what_was_not_probed() {
    let cfg = config(&[("one", &["/a", "/b"])]);
    let cache = cache_of(&[("/a", 2)]);
    match analyze(&cfg, &cache, false, Granularity::Projects) {
        Err(AnalysisError::NotProbed(path)) => assert_eq!(path, "/b"),
        other => panic!("{:?}", other.map(|_| ())),
    }
}

#[test]
fn report_fails_where_the_grand_total_does_not_fit() {
    let cfg = config(&[("one", &["/a"]), ("two", &["/b"])]);
    let mut cache = StatsCache::new();
    let mut big = RepoStats::default();
    big.line_count = usize::MAX;
    cache.insert("/a".to_string(), big);
    let mut small = RepoStats::default();
    small.line_count = 1;
    cache.insert("/b".to_string(), small);
    for granularity in [Granularity::Repositories, Granularity::Categories, Granularity::Projects] {
        assert!(matches!(analyze(&cfg, &cache, false, granularity), Err(AnalysisError::Overflow)));
    }
}

#[test]
fn default_statistics_are_empty() {
    let category = gitnapped::models::CategoryStats::default();
    assert_eq!(category.name, "");
    assert!(category.repos.is_empty());
    assert_eq!(category.total.commit_count, 0);
    let project = gitnapped::models::ProjectStats::default();
    assert_eq!(project.name, "");
    assert_eq!(project.group, None);
    assert!(project.repos.is_empty());
    assert_eq!(project.stats.line_count, 0);
    let stats = RepoStats::default();
    assert_eq!(
        (stats.commit_count, stats.out_of_hours_commits, stats.file_count, stats.line_count),
        (0, 0, 0, 0)
    );
    assert!(stats.commits_by_date.is_empty() && stats.file_types.is_empty());
    let copy = commits(4).clone();
    assert_eq!(copy.commit_count, 4);
    assert_eq!(copy.commits_by_date.get("2024-01-01"), Some(4));
}

#[test]
fn author_of_the_command_line_comes_first() {
    use_author(false, false, Some("cli"), Some("cfg"), Some("cli"));
    use_author(false, false, None, Some("cfg"), Some("cfg"));
    use_author(false, false, None, None, None);
    use_author(false, true, Some("cli"), Some("cfg"), None);
    use_author(true, false, None, Some("cfg"), None);
    use_author(true, false, Some("cli"), Some("cfg"), Some("cli"));
    use_author(true, true, Some("cli"), None, None);
}

fn use_author(dir: bool, all: bool, named: Option<&str>, configured: Option<&str>, expected: Option<&str>) {
    let chosen = gitnapped::config::author_filter(
        dir,
        all,
        named.map(String::from),
        configured.map(String::from),
    );
    assert_eq!(chosen.as_deref(), expected);
}

#[test]
fn categories_come_before_projects() {
    assert!(matches!(choose_granularity(true, true), Granularity::Categories));
    assert!(matches!(choose_granularity(true, false), Granularity::Categories));
    assert!(matches!(choose_granularity(false, true), Granularity::Projects));
    assert!(matches!(choose_granularity(false, false), Granularity::Repositories));
}
