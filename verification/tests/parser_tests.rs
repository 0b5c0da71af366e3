use gitnapped::parser::{group_repos_by_vanity, parse_repo_string};

#[test]
fn parses_group_and_vanity() {
    let info = parse_repo_string("/path/to/repo [Category][Project]");
    assert_eq!(info.path, "/path/to/repo");
    assert_eq!(info.group, Some("Category".to_string()));
    assert_eq!(info.vanity_name, "Project");
}

#[test]
fn parses_vanity_alone() {
    let info = parse_repo_string("/path/to/repo [Project]");
    assert_eq!(info.path, "/path/to/repo");
    assert_eq!(info.group, None);
    assert_eq!(info.vanity_name, "Project");
}

#[test]
fn bare_path_is_its_own_vanity_name() {
    let info = parse_repo_string("  /srv/git/tool  ");
    assert_eq!(info.path, "/srv/git/tool");
    assert_eq!(info.group, None);
    assert_eq!(info.vanity_name, "/srv/git/tool");
}

#[test]
fn segment_without_closing_bracket_gives_no_label() {
    let info = parse_repo_string("/a [Infra][Gateway");
    assert_eq!(info.path, "/a");
    assert_eq!(info.group, None);
    assert_eq!(info.vanity_name, "Infra");
}

#[test]
fn three_labels_fall_back_to_the_path() {
    let info = parse_repo_string("/a [x][y][z]");
    assert_eq!(info.path, "/a");
    assert_eq!(info.group, None);
    assert_eq!(info.vanity_name, "/a");
}

#[test]
fn labels_are_trimmed_and_cut_at_the_first_closing_bracket() {
    let info = parse_repo_string("/a [ Infra ] junk [\tGateway\u{a0}]]");
    assert_eq!(info.group, Some("Infra".to_string()));
    assert_eq!(info.vanity_name, "Gateway");
}

#[test]
fn groups_by_vanity_in_order_of_first_appearance() {
    let repos = vec![
        parse_repo_string("/a [Infra][Gateway]"),
        parse_repo_string("/b [Tools]"),
        parse_repo_string("/c [Infra][Gateway]"),
    ];
    let groups = group_repos_by_vanity(&repos);
    assert_eq!(groups.len(), 2);
    assert_eq!(groups[0].0, "Gateway");
    assert_eq!(groups[0].1.len(), 2);
    assert_eq!(groups[0].1[0].path, "/a");
    assert_eq!(groups[0].1[1].path, "/c");
    assert_eq!(groups[1].0, "Tools");
    assert_eq!(groups[1].1.len(), 1);
    assert_eq!(groups[1].1[0].path, "/b");
}

#[test]
fn label_count_decides_group_and_vanity() {
    let two = parse_repo_string("/srv/x [G][V]");
    assert_eq!((two.group.as_deref(), two.vanity_name.as_str()), (Some("G"), "V"));
    let one = parse_repo_string("/srv/x [V]");
    assert_eq!((one.group.as_deref(), one.vanity_name.as_str()), (None, "V"));
    let none = parse_repo_string("/srv/x");
    assert_eq!((none.group.as_deref(), none.vanity_name.as_str()), (None, "/srv/x"));
}

#[test]
fn empty_descriptor_has_empty_path_and_vanity() {
    let info = parse_repo_string("");
    assert_eq!(info.path, "");
    assert_eq!(info.group, None);
    assert_eq!(info.vanity_name, "");
}

#[test]
fn grouping_nothing_gives_no_project() {
    let groups = group_repos_by_vanity(&[]);
    assert!(groups.is_empty());
}

#[test]
fn vanity_name_of_a_path_is_that_of_the_first_repository_there() {
    let repos = vec![
        parse_repo_string("/a [Infra][Gateway]"),
        parse_repo_string("/b [Tools]"),
        parse_repo_string("/a [Other]"),
    ];
    assert_eq!(gitnapped::parser::find_vanity_name(&repos, "/a"), Some("Gateway".to_string()));
    assert_eq!(gitnapped::parser::find_vanity_name(&repos, "/b"), Some("Tools".to_string()));
    assert_eq!(gitnapped::parser::find_vanity_name(&repos, "/c"), None);
    assert_eq!(gitnapped::parser::find_vanity_name(&[], "/a"), None);
}

#[test]
fn display_name_is_the_last_segment() {
    assert_eq!(gitnapped::utils::display_name("/srv/git/tool"), "tool");
    assert_eq!(gitnapped::utils::display_name("tool"), "tool");
    assert_eq!(gitnapped::utils::display_name("/srv/git/"), "");
    assert_eq!(gitnapped::utils::display_name(""), "");
}
