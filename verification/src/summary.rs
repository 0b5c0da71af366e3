//! The whole analysis of a configuration: the statistics of its categories
//! and projects from the cache of probed repositories, the grand total and
//! the number of active entities, both taken at the granularity asked for.

use vstd::prelude::*;

use crate::aggregate::{checked_aggregate_stats, merge_all, stats_fit};
use crate::cache::StatsCache;
use crate::config::{all_descriptors, descriptors_of, parse_repos_from_config, parsed};
use crate::grouping::{
    all_categories, all_projects, analyze_all_categories, analyze_all_projects, category_errors,
    category_models, config_paths, create_repo_path_map, first_error, flat_repos, project_errors,
    project_models, stats_of, AnalysisError, ErrorModel,
};
use crate::models::{
    repo_models, stats_models, CategoryModel, CategoryStats, Config, ConfigModel, ProjectModel,
    ProjectStats, RepoStats, StatsModel,
};
use crate::parser::{descriptor_path, parse_repo_string};
use crate::text::texts;
use crate::utils::{active, is_repo_active};

verus! {

/// The entities that the grand total and the number of active entities are
/// taken over.
#[derive(Debug, Clone, Copy)]
pub enum Granularity {
    /// The repositories, one by one.
    Repositories,
    /// The categories.
    Categories,
    /// The projects.
    Projects,
}

/// The granularity that the choice of views asks for: categories where they
/// are asked for, else projects where they are, else the repositories.
pub open spec fn chosen_granularity(by_categories: bool, by_projects: bool) -> Granularity {
    if by_categories {
        Granularity::Categories
    } else if by_projects {
        Granularity::Projects
    } else {
        Granularity::Repositories
    }
}

/// Chooses the granularity from the views that are asked for.
pub fn choose_granularity(by_categories: bool, by_projects: bool) -> (granularity: Granularity)
    ensures
        granularity == chosen_granularity(by_categories, by_projects),
{
    if by_categories {
        Granularity::Categories
    } else if by_projects {
        Granularity::Projects
    } else {
        Granularity::Repositories
    }
}

/// The number of active entities among `stats`.
pub open spec fn active_count(stats: Seq<StatsModel>) -> nat {
    stats.filter(|s: StatsModel| active(s)).len()
}

/// The totals of a list of categories, in order.
pub open spec fn category_totals(categories: Seq<CategoryModel>) -> Seq<StatsModel> {
    Seq::new(categories.len(), |i: int| categories[i].total)
}

/// The statistics of a list of projects, in order.
pub open spec fn project_totals(projects: Seq<ProjectModel>) -> Seq<StatsModel> {
    Seq::new(projects.len(), |i: int| projects[i].stats)
}

/// The statistics of the entities of one granularity.
pub open spec fn entities(
    granularity: Granularity,
    all_repos: Seq<(Seq<char>, StatsModel)>,
    categories: Seq<CategoryModel>,
    projects: Seq<ProjectModel>,
) -> Seq<StatsModel> {
    match granularity {
        Granularity::Repositories => stats_of(all_repos),
        Granularity::Categories => category_totals(categories),
        Granularity::Projects => project_totals(projects),
    }
}

/// The model of a report.
pub struct ReportModel {
    pub all_repos: Seq<(Seq<char>, StatsModel)>,
    pub categories: Seq<CategoryModel>,
    pub projects: Option<Seq<ProjectModel>>,
    pub total: StatsModel,
    pub active: nat,
}

/// The result of an analysis.
#[derive(Debug)]
pub struct Report {
    /// The repositories of all categories with their statistics.
    pub all_repos: Vec<(String, RepoStats)>,
    /// The statistics of the categories.
    pub categories: Vec<CategoryStats>,
    /// The statistics of the projects, where projects were asked for.
    pub projects: Option<Vec<ProjectStats>>,
    /// The grand total over the entities of the granularity asked for.
    pub total: RepoStats,
    /// The number of active entities of that granularity.
    pub active: usize,
}

impl View for Report {
    type V = ReportModel;

    open spec fn view(&self) -> ReportModel {
        ReportModel {
            all_repos: repo_models(self.all_repos@),
            categories: category_models(self.categories@),
            projects: match self.projects {
                Some(list) => Some(project_models(list@)),
                None => None,
            },
            total: self.total@,
            active: self.active as nat,
        }
    }
}

/// The projects of a configuration, where projects are asked for.
pub open spec fn wanted_projects(
    config: ConfigModel,
    cache: Map<Seq<char>, StatsModel>,
    active_only: bool,
    granularity: Granularity,
) -> Option<Seq<ProjectModel>> {
    match granularity {
        Granularity::Projects => Some(
            all_projects(parsed(descriptors_of(config.repos)), cache, active_only),
        ),
        _ => None,
    }
}

/// The entities of a configuration at one granularity.
pub open spec fn wanted_entities(
    config: ConfigModel,
    cache: Map<Seq<char>, StatsModel>,
    active_only: bool,
    granularity: Granularity,
) -> Seq<StatsModel> {
    let categories = all_categories(config, config_paths(config), cache, active_only);
    entities(
        granularity,
        flat_repos(categories),
        categories,
        all_projects(parsed(descriptors_of(config.repos)), cache, active_only),
    )
}

/// The report on a configuration: the statistics of its categories, the
/// repositories of all categories, the statistics of its projects where
/// projects are asked for, and the grand total and the number of active
/// entities at the granularity asked for.
pub open spec fn report_of(
    config: ConfigModel,
    cache: Map<Seq<char>, StatsModel>,
    active_only: bool,
    granularity: Granularity,
) -> ReportModel {
    let categories = all_categories(config, config_paths(config), cache, active_only);
    let wanted = wanted_entities(config, cache, active_only, granularity);
    ReportModel {
        all_repos: flat_repos(categories),
        categories,
        projects: wanted_projects(config, cache, active_only, granularity),
        total: merge_all(wanted),
        active: active_count(wanted),
    }
}

/// What keeps a configuration from having a report: the first error of its
/// categories; or else, where projects are asked for, the first error of its
/// projects; or else a grand total that does not fit.
pub open spec fn report_error(
    config: ConfigModel,
    cache: Map<Seq<char>, StatsModel>,
    active_only: bool,
    granularity: Granularity,
) -> Option<ErrorModel> {
    let in_categories = first_error(
        category_errors(config, config_paths(config), cache, active_only),
    );
    let in_projects = match granularity {
        Granularity::Projects => first_error(
            project_errors(parsed(descriptors_of(config.repos)), cache, active_only),
        ),
        _ => None,
    };
    if in_categories is Some {
        in_categories
    } else if in_projects is Some {
        in_projects
    } else if stats_fit(merge_all(wanted_entities(config, cache, active_only, granularity))) {
        None
    } else {
        Some(ErrorModel::Overflow)
    }
}

proof fn lemma_active_count_push(stats: Seq<StatsModel>, one: StatsModel)
    ensures
        active_count(stats.push(one)) == active_count(stats) + if active(one) {
            1nat
        } else {
            0nat
        },
        active_count(stats) <= stats.len(),
{
    reveal(Seq::filter);
    assert(stats.push(one).drop_last() =~= stats);
    stats.lemma_filter_len(|s: StatsModel| active(s));
}

/// Counts the active entities among `stats`.
pub fn count_active(stats: &[RepoStats]) -> (count: usize)
    ensures
        count == active_count(stats_models(stats@)),
{
    let ghost all = stats_models(stats@);
    let mut count: usize = 0;
    let mut i: usize = 0;
    proof {
        assert(all.take(0) =~= Seq::<StatsModel>::empty());
        reveal(Seq::filter);
    }
    while i < stats.len()
        invariant
            i <= stats@.len(),
            all == stats_models(stats@),
            count == active_count(all.take(i as int)),
        decreases stats@.len() - i,
    {
        proof {
            assert(all.take(i as int).push(stats@[i as int]@) =~= all.take(i + 1));
            lemma_active_count_push(all.take(i as int), stats@[i as int]@);
        }
        if is_repo_active(&stats[i]) {
            count = count + 1;
        }
        i += 1;
    }
    proof {
        assert(all.take(i as int) =~= all);
    }
    count
}

/// Lists the paths of the repositories of a configuration, descriptor after
/// descriptor. These are the repositories to probe.
pub fn repo_paths(config: &Config) -> (paths: Vec<String>)
    ensures
        texts(paths@) == Seq::new(
            descriptors_of(config@.repos).len(),
            |i: int| descriptor_path(descriptors_of(config@.repos)[i]),
        ),
{
    let descriptors = all_descriptors(config);
    let mut paths: Vec<String> = Vec::new();
    let mut i: usize = 0;
    while i < descriptors.len()
        invariant
            i <= descriptors@.len(),
            texts(descriptors@) == descriptors_of(config@.repos),
            paths@.len() == i,
            forall|k: int|
                0 <= k < i ==> (#[trigger] paths@[k])@ == descriptor_path(
                    descriptors_of(config@.repos)[k],
                ),
        decreases descriptors@.len() - i,
    {
        let info = parse_repo_string(descriptors[i].as_str());
        proof {
            assert(texts(descriptors@)[i as int] == descriptors@[i as int]@);
        }
        paths.push(info.path);
        i += 1;
    }
    proof {
        assert(texts(paths@) =~= Seq::new(
            descriptors_of(config@.repos).len(),
            |i: int| descriptor_path(descriptors_of(config@.repos)[i]),
        ));
    }
    paths
}

/// Analyzes a configuration from the cache of probed repositories: the
/// categories first, then the projects where they are asked for, then the
/// grand total and the number of active entities, both over the entities of
/// the granularity asked for.
pub fn analyze(
    config: &Config,
    cache: &StatsCache,
    active_only: bool,
    granularity: Granularity,
) -> (analysis: Result<Report, AnalysisError>)
    ensures
        match analysis {
            Ok(report) => report_error(config@, cache@, active_only, granularity) is None
                && report@ == report_of(config@, cache@, active_only, granularity),
            Err(error) => report_error(config@, cache@, active_only, granularity) == Some(error@),
        },
{
    let path_map = create_repo_path_map(config);
    let (categories, all_repos) = match analyze_all_categories(
        config,
        &path_map,
        cache,
        active_only,
    ) {
        Ok(done) => done,
        Err(error) => {
            return Err(error);
        },
    };
    let projects = match granularity {
        Granularity::Projects => {
            let repo_infos = parse_repos_from_config(config);
            match analyze_all_projects(repo_infos.as_slice(), cache, active_only) {
                Ok(done) => Some(done),
                Err(error) => {
                    return Err(error);
                },
            }
        },
        _ => None,
    };
    let mut stats: Vec<RepoStats> = Vec::new();
    let ghost wanted = wanted_entities(config@, cache@, active_only, granularity);
    match granularity {
        Granularity::Repositories => {
            let mut i: usize = 0;
            while i < all_repos.len()
                invariant
                    i <= all_repos@.len(),
                    stats@.len() == i,
                    forall|k: int|
                        0 <= k < i ==> (#[trigger] stats@[k])@ == repo_models(all_repos@)[k].1,
                decreases all_repos@.len() - i,
            {
                stats.push(all_repos[i].1.clone());
                i += 1;
            }
            proof {
                assert(stats_models(stats@) =~= wanted);
            }
        },
        Granularity::Categories => {
            let mut i: usize = 0;
            while i < categories.len()
                invariant
                    i <= categories@.len(),
                    stats@.len() == i,
                    forall|k: int|
                        0 <= k < i ==> (#[trigger] stats@[k])@ == category_models(
                            categories@,
                        )[k].total,
                decreases categories@.len() - i,
            {
                stats.push(categories[i].total.clone());
                i += 1;
            }
            proof {
                assert(stats_models(stats@) =~= wanted);
            }
        },
        Granularity::Projects => {
            match &projects {
                Some(list) => {
                    let mut i: usize = 0;
                    while i < list.len()
                        invariant
                            i <= list@.len(),
                            stats@.len() == i,
                            forall|k: int|
                                0 <= k < i ==> (#[trigger] stats@[k])@ == project_models(
                                    list@,
                                )[k].stats,
                        decreases list@.len() - i,
                    {
                        stats.push(list[i].stats.clone());
                        i += 1;
                    }
                    proof {
                        assert(stats_models(stats@) =~= wanted);
                    }
                },
                None => {},
            }
        },
    }
    let active = count_active(stats.as_slice());
    match checked_aggregate_stats(stats.as_slice()) {
        Some(total) => Ok(Report { all_repos, categories, projects, total, active }),
        None => Err(AnalysisError::Overflow),
    }
}

} // verus!
