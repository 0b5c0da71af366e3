//! Grouping repositories into categories and into projects, and rolling the
//! statistics of each group up into its total. The statistics of the
//! repositories come from the cache of probed repositories.

use vstd::prelude::*;

use crate::aggregate::{checked_aggregate_stats, merge_all, stats_fit};
use crate::cache::StatsCache;
use crate::config::{all_descriptors, descriptors_of};
use crate::models::{
    info_models, option_text, repo_models, stats_models, CategoryModel, CategoryStats, Config,
    ConfigModel, ProjectModel, ProjectStats, RepoInfo, RepoInfoModel, RepoStats, StatsModel,
};
use crate::parser::{
    descriptor_path, group_models, group_repos_by_vanity, grouped, parse_repo_string,
};
use crate::text::texts;
use crate::textmap::TextMap;
use crate::utils::{active, is_repo_active};

verus! {

/// Why a group of repositories has no statistics.
#[derive(Debug)]
pub enum AnalysisError {
    /// The repository at this path was not probed yet.
    NotProbed(String),
    /// A number of the group's total does not fit in a `usize`.
    Overflow,
}

/// The model of an `AnalysisError`.
pub enum ErrorModel {
    NotProbed(Seq<char>),
    Overflow,
}

impl View for AnalysisError {
    type V = ErrorModel;

    open spec fn view(&self) -> ErrorModel {
        match self {
            AnalysisError::NotProbed(path) => ErrorModel::NotProbed(path@),
            AnalysisError::Overflow => ErrorModel::Overflow,
        }
    }
}

/// The path that stands for a descriptor: the one that `paths` holds for it,
/// or the descriptor itself where `paths` holds none.
pub open spec fn resolve(paths: Map<Seq<char>, Seq<char>>, descriptor: Seq<char>) -> Seq<char> {
    if paths.dom().contains(descriptor) {
        paths[descriptor]
    } else {
        descriptor
    }
}

/// The model of a map from descriptors to paths.
pub open spec fn path_views(paths: Map<Seq<char>, String>) -> Map<Seq<char>, Seq<char>> {
    Map::new(|d: Seq<char>| paths.dom().contains(d), |d: Seq<char>| paths[d]@)
}

/// The map from each descriptor of a configuration to the path of its
/// repository.
pub open spec fn config_paths(config: ConfigModel) -> Map<Seq<char>, Seq<char>> {
    Map::new(
        |d: Seq<char>| descriptors_of(config.repos).contains(d),
        |d: Seq<char>| descriptor_path(d),
    )
}

/// The paths that stand for a list of descriptors, in order.
pub open spec fn resolved(paths: Map<Seq<char>, Seq<char>>, descriptors: Seq<Seq<char>>) -> Seq<
    Seq<char>,
> {
    Seq::new(descriptors.len(), |i: int| resolve(paths, descriptors[i]))
}

/// The first path of the list that the cache does not hold, if there is one.
pub open spec fn first_missing(paths: Seq<Seq<char>>, cache: Map<Seq<char>, StatsModel>) -> Option<
    Seq<char>,
>
    decreases paths.len(),
{
    if paths.len() == 0 {
        None
    } else {
        match first_missing(paths.drop_last(), cache) {
            Some(path) => Some(path),
            None => if cache.dom().contains(paths.last()) {
                None
            } else {
                Some(paths.last())
            },
        }
    }
}

/// Whether a repository with the statistics `stats` stays in its group:
/// every repository does, unless only active ones are asked for.
pub open spec fn stays(stats: StatsModel, active_only: bool) -> bool {
    !active_only || active(stats)
}

/// The repositories of a group that stay in it, each with its statistics
/// from the cache, in order.
pub open spec fn retained(
    paths: Seq<Seq<char>>,
    cache: Map<Seq<char>, StatsModel>,
    active_only: bool,
) -> Seq<(Seq<char>, StatsModel)> {
    paths.filter_map(
        |path: Seq<char>|
            if stays(cache[path], active_only) {
                Some((path, cache[path]))
            } else {
                None
            },
    )
}

/// The statistics of a list of repositories, in order.
pub open spec fn stats_of(repos: Seq<(Seq<char>, StatsModel)>) -> Seq<StatsModel> {
    Seq::new(repos.len(), |i: int| repos[i].1)
}

/// The paths of a list of repositories, in order.
pub open spec fn paths_of(repos: Seq<(Seq<char>, StatsModel)>) -> Seq<Seq<char>> {
    Seq::new(repos.len(), |i: int| repos[i].0)
}

/// The total of a group: the merge of the statistics of the repositories
/// that stay in it.
pub open spec fn group_total(
    paths: Seq<Seq<char>>,
    cache: Map<Seq<char>, StatsModel>,
    active_only: bool,
) -> StatsModel {
    merge_all(stats_of(retained(paths, cache, active_only)))
}

/// What keeps a group from having statistics: a repository that was not
/// probed, the first of them, or else a total that does not fit.
pub open spec fn group_error(
    paths: Seq<Seq<char>>,
    cache: Map<Seq<char>, StatsModel>,
    active_only: bool,
) -> Option<ErrorModel> {
    match first_missing(paths, cache) {
        Some(path) => Some(ErrorModel::NotProbed(path)),
        None => if stats_fit(group_total(paths, cache, active_only)) {
            None
        } else {
            Some(ErrorModel::Overflow)
        },
    }
}

/// A missing path among the first paths of a list is the first missing path
/// of the list.
pub proof fn lemma_first_missing_prefix(
    paths: Seq<Seq<char>>,
    cache: Map<Seq<char>, StatsModel>,
    n: int,
)
    requires
        0 <= n <= paths.len(),
        first_missing(paths.take(n), cache) is Some,
    ensures
        first_missing(paths, cache) == first_missing(paths.take(n), cache),
    decreases paths.len() - n,
{
    if n < paths.len() {
        assert(paths.drop_last().take(n) =~= paths.take(n));
        lemma_first_missing_prefix(paths.drop_last(), cache, n);
    } else {
        assert(paths.take(n) =~= paths);
    }
}

proof fn lemma_retained_push(
    paths: Seq<Seq<char>>,
    path: Seq<char>,
    cache: Map<Seq<char>, StatsModel>,
    active_only: bool,
)
    ensures
        retained(paths.push(path), cache, active_only) == if stays(cache[path], active_only) {
            retained(paths, cache, active_only).push((path, cache[path]))
        } else {
            retained(paths, cache, active_only)
        },
{
    assert(paths.push(path).drop_last() =~= paths);
    if stays(cache[path], active_only) {
        assert(retained(paths, cache, active_only) + seq![(path, cache[path])] =~= retained(
            paths,
            cache,
            active_only,
        ).push((path, cache[path])));
    }
}

/// Every repository that stays in a group belongs to it, with its statistics
/// from the cache, and is active where only active ones are asked for.
pub proof fn lemma_retained_members(
    paths: Seq<Seq<char>>,
    cache: Map<Seq<char>, StatsModel>,
    active_only: bool,
)
    ensures
        retained(paths, cache, active_only).len() <= paths.len(),
        forall|i: int|
            0 <= i < retained(paths, cache, active_only).len() ==> {
                let repo = #[trigger] retained(paths, cache, active_only)[i];
                &&& paths.contains(repo.0)
                &&& repo.1 == cache[repo.0]
                &&& stays(repo.1, active_only)
            },
        !active_only ==> paths_of(retained(paths, cache, active_only)) == paths,
    decreases paths.len(),
{
    if paths.len() == 0 {
        assert(paths_of(retained(paths, cache, active_only)) =~= paths);
    } else {
        let front = paths.drop_last();
        let last = paths.last();
        lemma_retained_members(front, cache, active_only);
        lemma_retained_push(front, last, cache, active_only);
        assert(front.push(last) =~= paths);
        let now = retained(paths, cache, active_only);
        let before = retained(front, cache, active_only);
        assert forall|i: int| 0 <= i < now.len() implies {
            let repo = #[trigger] now[i];
            &&& paths.contains(repo.0)
            &&& repo.1 == cache[repo.0]
            &&& stays(repo.1, active_only)
        } by {
            if i < before.len() {
                assert(now[i] == before[i]);
                let k = choose|k: int| 0 <= k < front.len() && front[k] == before[i].0;
                assert(paths[k] == before[i].0);
            } else {
                assert(paths[paths.len() - 1] == last);
            }
        }
        if !active_only {
            assert(paths_of(now) =~= paths_of(before).push(last));
        }
    }
}

/// Gathers the repositories of a group that stay in it, with their
/// statistics from the cache, and merges those into the group's total. It
/// fails on the first repository that was not probed, and where a number of
/// the total does not fit.
pub fn summarize(paths: &[String], cache: &StatsCache, active_only: bool) -> (summary: Result<
    (Vec<(String, RepoStats)>, RepoStats),
    AnalysisError,
>)
    ensures
        match summary {
            Ok((repos, total)) => {
                &&& group_error(texts(paths@), cache@, active_only) is None
                &&& repo_models(repos@) == retained(texts(paths@), cache@, active_only)
                &&& total@ == group_total(texts(paths@), cache@, active_only)
            },
            Err(error) => group_error(texts(paths@), cache@, active_only) == Some(error@),
        },
{
    let ghost all = texts(paths@);
    let mut repos: Vec<(String, RepoStats)> = Vec::new();
    let mut stats: Vec<RepoStats> = Vec::new();
    let mut i: usize = 0;
    proof {
        assert(all.take(0) =~= Seq::<Seq<char>>::empty());
        assert(repo_models(repos@) =~= retained(all.take(0), cache@, active_only));
        assert(stats_models(stats@) =~= stats_of(repo_models(repos@)));
    }
    while i < paths.len()
        invariant
            i <= paths@.len(),
            all == texts(paths@),
            first_missing(all.take(i as int), cache@) is None,
            repo_models(repos@) == retained(all.take(i as int), cache@, active_only),
            stats_models(stats@) == stats_of(repo_models(repos@)),
        decreases paths@.len() - i,
    {
        let ghost seen = all.take(i as int);
        proof {
            assert(all.take(i + 1).drop_last() =~= seen);
            assert(all.take(i + 1).last() == paths@[i as int]@);
            assert(seen.push(paths@[i as int]@) =~= all.take(i + 1));
            lemma_retained_push(seen, paths@[i as int]@, cache@, active_only);
        }
        match cache.get(paths[i].as_str()) {
            Some(found) => {
                if !active_only || is_repo_active(&found) {
                    let ghost before = repo_models(repos@);
                    let ghost stats_before = stats_models(stats@);
                    stats.push(found.clone());
                    repos.push((paths[i].clone(), found));
                    proof {
                        assert(repo_models(repos@) =~= before.push(
                            (paths@[i as int]@, cache@[paths@[i as int]@]),
                        ));
                        assert(stats_models(stats@) =~= stats_before.push(
                            cache@[paths@[i as int]@],
                        ));
                        assert(stats_models(stats@) =~= stats_of(repo_models(repos@)));
                    }
                }
            },
            None => {
                proof {
                    lemma_first_missing_prefix(all, cache@, i + 1);
                }
                return Err(AnalysisError::NotProbed(paths[i].clone()));
            },
        }
        i += 1;
    }
    proof {
        assert(all.take(i as int) =~= all);
    }
    match checked_aggregate_stats(stats.as_slice()) {
        Some(total) => Ok((repos, total)),
        None => Err(AnalysisError::Overflow),
    }
}

/// Maps each descriptor of the configuration to the path of its repository.
pub fn create_repo_path_map(config: &Config) -> (paths: TextMap<String>)
    ensures
        path_views(paths@) == config_paths(config@),
{
    let descriptors = all_descriptors(config);
    let ghost all = texts(descriptors@);
    let mut paths: TextMap<String> = TextMap::new();
    let mut i: usize = 0;
    while i < descriptors.len()
        invariant
            i <= descriptors@.len(),
            all == texts(descriptors@),
            forall|d: Seq<char>| paths@.dom().contains(d) <==> all.take(i as int).contains(d),
            forall|d: Seq<char>|
                paths@.dom().contains(d) ==> (#[trigger] paths@[d])@ == descriptor_path(d),
        decreases descriptors@.len() - i,
    {
        let info = parse_repo_string(descriptors[i].as_str());
        let ghost before = paths@;
        let ghost seen = all.take(i as int);
        paths.insert_if_absent(descriptors[i].clone(), info.path);
        proof {
            let more = all.take(i + 1);
            assert(more =~= seen.push(all[i as int]));
            assert forall|d: Seq<char>| paths@.dom().contains(d) <==> more.contains(d) by {
                if more.contains(d) {
                    let k = choose|k: int| 0 <= k < more.len() && more[k] == d;
                    if k < i {
                        assert(seen[k] == d);
                    }
                }
                if paths@.dom().contains(d) {
                    if d == all[i as int] {
                        assert(more[i as int] == d);
                    } else {
                        assert(before.dom().contains(d));
                        let k = choose|k: int| 0 <= k < seen.len() && seen[k] == d;
                        assert(more[k] == d);
                    }
                }
            }
        }
        i += 1;
    }
    proof {
        assert(all.take(i as int) =~= all);
        assert(path_views(paths@) =~= config_paths(config@));
    }
    paths
}

/// The statistics of a category named `name` whose repositories lie at
/// `paths`.
pub open spec fn category_model(
    name: Seq<char>,
    paths: Seq<Seq<char>>,
    cache: Map<Seq<char>, StatsModel>,
    active_only: bool,
) -> CategoryModel {
    CategoryModel {
        name,
        repos: retained(paths, cache, active_only),
        total: group_total(paths, cache, active_only),
    }
}

/// The models of a list of categories, in order.
pub open spec fn category_models(list: Seq<CategoryStats>) -> Seq<CategoryModel> {
    Seq::new(list.len(), |i: int| list[i]@)
}

/// The repositories of a list of categories, category after category.
pub open spec fn flat_repos(categories: Seq<CategoryModel>) -> Seq<(Seq<char>, StatsModel)>
    decreases categories.len(),
{
    if categories.len() == 0 {
        Seq::empty()
    } else {
        flat_repos(categories.drop_last()) + categories.last().repos
    }
}

/// The first error of a list of outcomes, if one of them is an error.
pub open spec fn first_error(outcomes: Seq<Option<ErrorModel>>) -> Option<ErrorModel>
    decreases outcomes.len(),
{
    if outcomes.len() == 0 {
        None
    } else {
        match first_error(outcomes.drop_last()) {
            Some(error) => Some(error),
            None => outcomes.last(),
        }
    }
}

/// An error with none before it is the first error.
pub proof fn lemma_first_error_at(outcomes: Seq<Option<ErrorModel>>, at: int)
    requires
        0 <= at < outcomes.len(),
        forall|j: int| 0 <= j < at ==> (#[trigger] outcomes[j]) is None,
        outcomes[at] is Some,
    ensures
        first_error(outcomes) == outcomes[at],
    decreases outcomes.len(),
{
    let front = outcomes.drop_last();
    if at < outcomes.len() - 1 {
        assert(front[at] == outcomes[at]);
        assert forall|j: int| 0 <= j < at implies (#[trigger] front[j]) is None by {
            assert(front[j] == outcomes[j]);
        }
        lemma_first_error_at(front, at);
    } else {
        assert forall|j: int| 0 <= j < front.len() implies (#[trigger] front[j]) is None by {
            assert(front[j] == outcomes[j]);
        }
        lemma_first_error_none(front);
    }
}

/// A list has no first error exactly when it holds no error.
pub proof fn lemma_first_error_none(outcomes: Seq<Option<ErrorModel>>)
    ensures
        first_error(outcomes) is None <==> forall|j: int|
            0 <= j < outcomes.len() ==> (#[trigger] outcomes[j]) is None,
    decreases outcomes.len(),
{
    if outcomes.len() > 0 {
        let front = outcomes.drop_last();
        lemma_first_error_none(front);
        if first_error(outcomes) is None {
            assert forall|j: int| 0 <= j < outcomes.len() implies (#[trigger] outcomes[j])
                is None by {
                if j < front.len() {
                    assert(front[j] == outcomes[j]);
                }
            }
        }
        if forall|j: int| 0 <= j < outcomes.len() ==> (#[trigger] outcomes[j]) is None {
            assert forall|j: int| 0 <= j < front.len() implies (#[trigger] front[j]) is None by {
                assert(front[j] == outcomes[j]);
            }
            assert(outcomes[outcomes.len() - 1] is None);
        }
    }
}

/// What keeps category `i` of the configuration from having statistics.
pub open spec fn category_error(
    config: ConfigModel,
    paths: Map<Seq<char>, Seq<char>>,
    cache: Map<Seq<char>, StatsModel>,
    active_only: bool,
    i: int,
) -> Option<ErrorModel> {
    group_error(resolved(paths, config.repos[i].1), cache, active_only)
}

/// What keeps each category of a configuration from having statistics, in
/// the order of the configuration.
pub open spec fn category_errors(
    config: ConfigModel,
    paths: Map<Seq<char>, Seq<char>>,
    cache: Map<Seq<char>, StatsModel>,
    active_only: bool,
) -> Seq<Option<ErrorModel>> {
    Seq::new(config.repos.len(), |i: int| category_error(config, paths, cache, active_only, i))
}

/// The statistics of the categories of a configuration, in its order.
pub open spec fn all_categories(
    config: ConfigModel,
    paths: Map<Seq<char>, Seq<char>>,
    cache: Map<Seq<char>, StatsModel>,
    active_only: bool,
) -> Seq<CategoryModel> {
    Seq::new(
        config.repos.len(),
        |i: int|
            category_model(
                config.repos[i].0,
                resolved(paths, config.repos[i].1),
                cache,
                active_only,
            ),
    )
}

/// Whether `categories` and `all_repos` are the statistics of the categories
/// of a configuration: no category has an error, `categories` holds the
/// statistics of each in the order of the configuration, and `all_repos`
/// lists the repositories of all categories, category after category.
pub open spec fn categories_done(
    config: ConfigModel,
    paths: Map<Seq<char>, Seq<char>>,
    cache: Map<Seq<char>, StatsModel>,
    active_only: bool,
    categories: Seq<CategoryModel>,
    all_repos: Seq<(Seq<char>, StatsModel)>,
) -> bool {
    &&& first_error(category_errors(config, paths, cache, active_only)) is None
    &&& categories == all_categories(config, paths, cache, active_only)
    &&& all_repos == flat_repos(categories)
}

/// Computes the statistics of every category of the configuration, in the
/// order of the configuration, and lists the repositories of all categories
/// with their statistics. A repository that does not stay in its category
/// is left out of the category, of its total and of the list. The analysis
/// fails with the error of the first category that has one.
pub fn analyze_all_categories(
    config: &Config,
    repo_path_map: &TextMap<String>,
    cache: &StatsCache,
    active_only: bool,
) -> (analysis: Result<(Vec<CategoryStats>, Vec<(String, RepoStats)>), AnalysisError>)
    ensures
        match analysis {
            Ok((categories, all_repos)) => categories_done(
                config@,
                path_views(repo_path_map@),
                cache@,
                active_only,
                category_models(categories@),
                repo_models(all_repos@),
            ),
            Err(error) => first_error(
                category_errors(config@, path_views(repo_path_map@), cache@, active_only),
            ) == Some(error@),
        },
{
    let mut categories: Vec<CategoryStats> = Vec::new();
    let mut all_repos: Vec<(String, RepoStats)> = Vec::new();
    let mut i: usize = 0;
    proof {
        assert(category_models(categories@) =~= Seq::<CategoryModel>::empty());
        assert(repo_models(all_repos@) =~= flat_repos(category_models(categories@)));
    }
    while i < config.repos.len()
        invariant
            i <= config.repos@.len(),
            config@.repos.len() == config.repos@.len(),
            categories@.len() == i,
            forall|k: int|
                0 <= k < i ==> #[trigger] category_error(
                    config@,
                    path_views(repo_path_map@),
                    cache@,
                    active_only,
                    k,
                ) is None,
            forall|k: int|
                0 <= k < i ==> (#[trigger] categories@[k])@ == category_model(
                    config@.repos[k].0,
                    resolved(path_views(repo_path_map@), config@.repos[k].1),
                    cache@,
                    active_only,
                ),
            repo_models(all_repos@) == flat_repos(category_models(categories@)),
        decreases config.repos@.len() - i,
    {
        let name = &config.repos[i].0;
        let descriptors = &config.repos[i].1;
        let ghost wanted = resolved(path_views(repo_path_map@), config@.repos[i as int].1);
        proof {
            assert(config@.repos[i as int] == (name@, texts(descriptors@)));
        }
        let mut paths: Vec<String> = Vec::new();
        let mut j: usize = 0;
        while j < descriptors.len()
            invariant
                j <= descriptors@.len(),
                paths@.len() == j,
                wanted == resolved(path_views(repo_path_map@), texts(descriptors@)),
                forall|k: int| 0 <= k < j ==> (#[trigger] paths@[k])@ == wanted[k],
            decreases descriptors@.len() - j,
        {
            let path = match repo_path_map.get(descriptors[j].as_str()) {
                Some(found) => found.clone(),
                None => descriptors[j].clone(),
            };
            paths.push(path);
            j += 1;
        }
        proof {
            assert(texts(paths@) =~= wanted);
        }
        match summarize(paths.as_slice(), cache, active_only) {
            Ok((repos, total)) => {
                let ghost flat_before = repo_models(all_repos@);
                let ghost models_before = category_models(categories@);
                let mut k: usize = 0;
                while k < repos.len()
                    invariant
                        k <= repos@.len(),
                        repo_models(all_repos@) == flat_before + repo_models(repos@).take(
                            k as int,
                        ),
                    decreases repos@.len() - k,
                {
                    let ghost listed = repo_models(all_repos@);
                    all_repos.push((repos[k].0.clone(), repos[k].1.clone()));
                    proof {
                        assert(repo_models(all_repos@) =~= listed.push(repo_models(repos@)[k as int]));
                        assert(flat_before + repo_models(repos@).take(k + 1) =~= (flat_before
                            + repo_models(repos@).take(k as int)).push(
                            repo_models(repos@)[k as int],
                        ));
                    }
                    k += 1;
                }
                let category = CategoryStats { name: name.clone(), repos, total };
                categories.push(category);
                proof {
                    assert(repo_models(category.repos@).take(k as int) =~= repo_models(
                        category.repos@,
                    ));
                    let models = category_models(categories@);
                    assert(models.drop_last() =~= models_before);
                    assert(models.last() == category@);
                    assert(category_error(
                        config@,
                        path_views(repo_path_map@),
                        cache@,
                        active_only,
                        i as int,
                    ) is None);
                    assert(categories@[i as int]@ == category_model(
                        config@.repos[i as int].0,
                        wanted,
                        cache@,
                        active_only,
                    ));
                }
            },
            Err(error) => {
                proof {
                    lemma_first_error_at(
                        category_errors(config@, path_views(repo_path_map@), cache@, active_only),
                        i as int,
                    );
                }
                return Err(error);
            },
        }
        i += 1;
    }
    proof {
        assert(config@.repos.len() == config.repos@.len());
        assert(category_models(categories@) =~= all_categories(
            config@,
            path_views(repo_path_map@),
            cache@,
            active_only,
        ));
        lemma_first_error_none(
            category_errors(config@, path_views(repo_path_map@), cache@, active_only),
        );
    }
    Ok((categories, all_repos))
}

/// The group label of a project: the group of its first repository that
/// names one.
pub open spec fn first_group(members: Seq<RepoInfoModel>) -> Option<Seq<char>>
    decreases members.len(),
{
    if members.len() == 0 {
        None
    } else {
        match members[0].group {
            Some(group) => Some(group),
            None => first_group(members.drop_first()),
        }
    }
}

/// The paths of a list of repositories, in order.
pub open spec fn member_paths(members: Seq<RepoInfoModel>) -> Seq<Seq<char>> {
    Seq::new(members.len(), |i: int| members[i].path)
}

/// The statistics of the project named `name` with the repositories
/// `members`.
pub open spec fn project_model(
    name: Seq<char>,
    members: Seq<RepoInfoModel>,
    cache: Map<Seq<char>, StatsModel>,
    active_only: bool,
) -> ProjectModel {
    ProjectModel {
        name,
        group: first_group(members),
        repos: paths_of(retained(member_paths(members), cache, active_only)),
        stats: group_total(member_paths(members), cache, active_only),
    }
}

proof fn lemma_first_group_skip(members: Seq<RepoInfoModel>, n: int)
    requires
        0 <= n <= members.len(),
        forall|i: int| 0 <= i < n ==> (#[trigger] members[i]).group is None,
    ensures
        first_group(members) == first_group(members.skip(n)),
    decreases n,
{
    if n > 0 {
        let rest = members.drop_first();
        assert forall|i: int| 0 <= i < n - 1 implies (#[trigger] rest[i]).group is None by {
            assert(rest[i] == members[i + 1]);
        }
        lemma_first_group_skip(rest, n - 1);
        assert(rest.skip(n - 1) =~= members.skip(n));
        assert(members[0].group is None);
    } else {
        assert(members.skip(0) =~= members);
    }
}

/// Finds the group label of a project: the group of its first repository
/// that names one.
pub fn project_group(members: &[RepoInfo]) -> (group: Option<String>)
    ensures
        option_text(group) == first_group(info_models(members@)),
{
    let ghost all = info_models(members@);
    let mut i: usize = 0;
    while i < members.len()
        invariant
            i <= members@.len(),
            all == info_models(members@),
            forall|k: int| 0 <= k < i ==> (#[trigger] all[k]).group is None,
        decreases members@.len() - i,
    {
        proof {
            lemma_first_group_skip(all, i as int);
            assert(all.skip(i as int)[0] == members@[i as int]@);
        }
        match &members[i].group {
            Some(group) => {
                return Some(group.clone());
            },
            None => {},
        }
        i += 1;
    }
    proof {
        lemma_first_group_skip(all, i as int);
        assert(all.skip(i as int) =~= Seq::<RepoInfoModel>::empty());
    }
    None
}

/// What keeps project `i` of a list of repositories from having statistics.
pub open spec fn project_error(
    repos: Seq<RepoInfoModel>,
    cache: Map<Seq<char>, StatsModel>,
    active_only: bool,
    i: int,
) -> Option<ErrorModel> {
    group_error(member_paths(grouped(repos)[i].1), cache, active_only)
}

/// The models of a list of projects, in order.
pub open spec fn project_models(list: Seq<ProjectStats>) -> Seq<ProjectModel> {
    Seq::new(list.len(), |i: int| list[i]@)
}

/// What keeps each project of a list of repositories from having
/// statistics, in the order in which the vanity names first appear.
pub open spec fn project_errors(
    repos: Seq<RepoInfoModel>,
    cache: Map<Seq<char>, StatsModel>,
    active_only: bool,
) -> Seq<Option<ErrorModel>> {
    Seq::new(grouped(repos).len(), |i: int| project_error(repos, cache, active_only, i))
}

/// The statistics of the projects of a list of repositories, in the order
/// in which the vanity names first appear.
pub open spec fn all_projects(
    repos: Seq<RepoInfoModel>,
    cache: Map<Seq<char>, StatsModel>,
    active_only: bool,
) -> Seq<ProjectModel> {
    Seq::new(
        grouped(repos).len(),
        |i: int| project_model(grouped(repos)[i].0, grouped(repos)[i].1, cache, active_only),
    )
}

/// Whether `projects` are the statistics of the projects of a list of
/// repositories: no project has an error, and `projects` holds the
/// statistics of each.
pub open spec fn projects_done(
    repos: Seq<RepoInfoModel>,
    cache: Map<Seq<char>, StatsModel>,
    active_only: bool,
    projects: Seq<ProjectModel>,
) -> bool {
    &&& first_error(project_errors(repos, cache, active_only)) is None
    &&& projects == all_projects(repos, cache, active_only)
}

/// Computes the statistics of every project: the repositories that share a
/// vanity name, in the order in which the names first appear. A repository
/// that does not stay in its project is left out of the project and of its
/// statistics. The analysis fails with the error of the first project that
/// has one.
pub fn analyze_all_projects(repo_infos: &[RepoInfo], cache: &StatsCache, active_only: bool) -> (analysis:
    Result<Vec<ProjectStats>, AnalysisError>)
    ensures
        match analysis {
            Ok(projects) => projects_done(
                info_models(repo_infos@),
                cache@,
                active_only,
                project_models(projects@),
            ),
            Err(error) => first_error(project_errors(info_models(repo_infos@), cache@, active_only))
                == Some(error@),
        },
{
    let groups = group_repos_by_vanity(repo_infos);
    let ghost wanted = grouped(info_models(repo_infos@));
    let mut projects: Vec<ProjectStats> = Vec::new();
    let mut i: usize = 0;
    proof {
        assert(group_models(groups@).len() == groups@.len());
    }
    while i < groups.len()
        invariant
            i <= groups@.len(),
            groups@.len() == wanted.len(),
            wanted == group_models(groups@),
            wanted == grouped(info_models(repo_infos@)),
            projects@.len() == i,
            forall|k: int|
                0 <= k < i ==> #[trigger] project_error(
                    info_models(repo_infos@),
                    cache@,
                    active_only,
                    k,
                ) is None,
            forall|k: int|
                0 <= k < i ==> (#[trigger] projects@[k])@ == project_model(
                    wanted[k].0,
                    wanted[k].1,
                    cache@,
                    active_only,
                ),
        decreases groups@.len() - i,
    {
        let name = &groups[i].0;
        let members = &groups[i].1;
        let ghost models = info_models(members@);
        proof {
            assert(wanted[i as int] == (name@, models));
        }
        let mut paths: Vec<String> = Vec::new();
        let mut j: usize = 0;
        while j < members.len()
            invariant
                j <= members@.len(),
                paths@.len() == j,
                models == info_models(members@),
                forall|k: int| 0 <= k < j ==> (#[trigger] paths@[k])@ == models[k].path,
            decreases members@.len() - j,
        {
            paths.push(members[j].path.clone());
            j += 1;
        }
        proof {
            assert(texts(paths@) =~= member_paths(models));
        }
        match summarize(paths.as_slice(), cache, active_only) {
            Ok((kept, stats)) => {
                let mut repos: Vec<String> = Vec::new();
                let mut k: usize = 0;
                while k < kept.len()
                    invariant
                        k <= kept@.len(),
                        repos@.len() == k,
                        forall|n: int|
                            0 <= n < k ==> (#[trigger] repos@[n])@ == repo_models(kept@)[n].0,
                    decreases kept@.len() - k,
                {
                    repos.push(kept[k].0.clone());
                    k += 1;
                }
                proof {
                    assert(texts(repos@) =~= paths_of(repo_models(kept@)));
                }
                let group = project_group(members.as_slice());
                let project = ProjectStats { name: name.clone(), group, repos, stats };
                proof {
                    assert(project_error(info_models(repo_infos@), cache@, active_only, i as int)
                        is None);
                    assert(project@ == project_model(name@, models, cache@, active_only));
                }
                projects.push(project);
            },
            Err(error) => {
                proof {
                    lemma_first_error_at(
                        project_errors(info_models(repo_infos@), cache@, active_only),
                        i as int,
                    );
                }
                return Err(error);
            },
        }
        i += 1;
    }
    proof {
        assert(project_models(projects@) =~= all_projects(
            info_models(repo_infos@),
            cache@,
            active_only,
        ));
        lemma_first_error_none(project_errors(info_models(repo_infos@), cache@, active_only));
    }
    Ok(projects)
}

} // verus!
