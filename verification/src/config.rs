//! The configuration: categories of repository descriptors.

use vstd::prelude::*;
use vstd::string::StringExecFns;

use crate::models::{info_models, option_text, Config, ConfigModel, RepoInfo, RepoInfoModel};
use crate::parser::{parse_descriptor, parse_repo_string};
use crate::text::texts;

verus! {

/// The descriptors of a list of categories, category after category.
pub open spec fn descriptors_of(categories: Seq<(Seq<char>, Seq<Seq<char>>)>) -> Seq<Seq<char>>
    decreases categories.len(),
{
    if categories.len() == 0 {
        Seq::empty()
    } else {
        descriptors_of(categories.drop_last()) + categories.last().1
    }
}

/// The identities that a list of descriptors gives, in order.
pub open spec fn parsed(descriptors: Seq<Seq<char>>) -> Seq<RepoInfoModel> {
    Seq::new(descriptors.len(), |i: int| parse_descriptor(descriptors[i]))
}

/// The configuration for a single directory without a configuration file:
/// one category, `Uncategorized`, with the directory as its only repository,
/// in the group `Uncategorized` under the vanity name `Unnamed`.
pub open spec fn single_directory(dir: Seq<char>) -> ConfigModel {
    ConfigModel {
        author: None,
        repos: seq![("Uncategorized"@, seq![dir + " [Uncategorized][Unnamed]"@])],
    }
}

/// What is said of a directory that is no repository.
pub open spec fn not_a_repository(dir: Seq<char>) -> Seq<char> {
    "'"@ + dir + "' is not a Git repository. Please provide a valid Git repository path."@
}

/// Makes the configuration for analyzing the single directory `dir`, given
/// whether the directory is a repository; a directory that is none is
/// refused with a message.
pub fn push_to_empty_config(dir: &str, is_git_repository: bool) -> (made: Result<Config, String>)
    ensures
        match made {
            Ok(config) => is_git_repository && config@ == single_directory(dir@),
            Err(message) => !is_git_repository && message@ == not_a_repository(dir@),
        },
{
    if !is_git_repository {
        let mut message = "'".to_owned();
        message.append(dir);
        message.append("' is not a Git repository. Please provide a valid Git repository path.");
        return Err(message);
    }
    let mut descriptor = dir.to_owned();
    descriptor.append(" [Uncategorized][Unnamed]");
    let mut descriptors: Vec<String> = Vec::new();
    descriptors.push(descriptor);
    let mut repos: Vec<(String, Vec<String>)> = Vec::new();
    repos.push(("Uncategorized".to_owned(), descriptors));
    let config = Config { author: None, repos };
    proof {
        assert(texts(config.repos@[0].1@) =~= seq![dir@ + " [Uncategorized][Unnamed]"@]);
        assert(config@.repos =~= single_directory(dir@).repos);
    }
    Ok(config)
}

/// Lists the descriptors of a configuration, category after category.
pub fn all_descriptors(config: &Config) -> (list: Vec<String>)
    ensures
        texts(list@) == descriptors_of(config@.repos),
{
    let ghost categories = config@.repos;
    let mut list: Vec<String> = Vec::new();
    let mut i: usize = 0;
    proof {
        assert(categories.take(0) =~= Seq::<(Seq<char>, Seq<Seq<char>>)>::empty());
        assert(texts(list@) =~= descriptors_of(categories.take(0)));
    }
    while i < config.repos.len()
        invariant
            i <= config.repos@.len(),
            categories == config@.repos,
            texts(list@) == descriptors_of(categories.take(i as int)),
        decreases config.repos@.len() - i,
    {
        let descriptors = &config.repos[i].1;
        let ghost done = descriptors_of(categories.take(i as int));
        let ghost these = texts(descriptors@);
        let mut j: usize = 0;
        proof {
            assert(categories.take(i + 1).drop_last() =~= categories.take(i as int));
            assert(categories.take(i + 1).last().1 == these);
            assert(done + these.take(0) =~= done);
        }
        while j < descriptors.len()
            invariant
                j <= descriptors@.len(),
                these == texts(descriptors@),
                texts(list@) == done + these.take(j as int),
            decreases descriptors@.len() - j,
        {
            let ghost before = texts(list@);
            list.push(descriptors[j].clone());
            proof {
                assert(texts(list@) =~= before.push(these[j as int]));
                assert(done + these.take(j + 1) =~= (done + these.take(j as int)).push(
                    these[j as int],
                ));
            }
            j += 1;
        }
        proof {
            assert(these.take(j as int) =~= these);
        }
        i += 1;
    }
    proof {
        assert(categories.take(i as int) =~= categories);
    }
    list
}

/// Parses every descriptor of a configuration into the identity of its
/// repository, category after category.
pub fn parse_repos_from_config(config: &Config) -> (repos: Vec<RepoInfo>)
    ensures
        info_models(repos@) == parsed(descriptors_of(config@.repos)),
{
    let descriptors = all_descriptors(config);
    let ghost all = texts(descriptors@);
    let mut repos: Vec<RepoInfo> = Vec::new();
    let mut i: usize = 0;
    while i < descriptors.len()
        invariant
            i <= descriptors@.len(),
            all == texts(descriptors@),
            repos@.len() == i,
            forall|k: int| 0 <= k < i ==> (#[trigger] repos@[k])@ == parse_descriptor(all[k]),
        decreases descriptors@.len() - i,
    {
        let info = parse_repo_string(descriptors[i].as_str());
        repos.push(info);
        i += 1;
    }
    proof {
        assert(info_models(repos@) =~= parsed(all));
    }
    repos
}

/// The author to filter commits by. Nobody is filtered for where all
/// authors are asked for, and where a directory stands in place of the
/// configuration and no author is named on the command line. Otherwise the
/// author of the command line comes before that of the configuration.
pub open spec fn chosen_author(
    directory_given: bool,
    all_authors: bool,
    named: Option<Seq<char>>,
    configured: Option<Seq<char>>,
) -> Option<Seq<char>> {
    if all_authors || (directory_given && named is None) {
        None
    } else if named is Some {
        named
    } else {
        configured
    }
}

/// Chooses the author to filter commits by.
pub fn author_filter(
    directory_given: bool,
    all_authors: bool,
    named: Option<String>,
    configured: Option<String>,
) -> (author: Option<String>)
    ensures
        option_text(author) == chosen_author(
            directory_given,
            all_authors,
            option_text(named),
            option_text(configured),
        ),
{
    if all_authors || (directory_given && named.is_none()) {
        None
    } else if named.is_some() {
        named
    } else {
        configured
    }
}

} // verus!
