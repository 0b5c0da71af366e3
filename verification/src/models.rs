//! The data that the analysis works on, each with its mathematical model.

use vstd::prelude::*;

use crate::histogram::Histogram;
use crate::text::texts;

verus! {

/// The model of repository statistics: natural numbers and finite maps.
#[verifier::ext_equal]
pub struct StatsModel {
    pub commit_count: nat,
    pub out_of_hours_commits: nat,
    pub file_count: nat,
    pub line_count: nat,
    pub commits_by_date: Map<Seq<char>, nat>,
    pub file_types: Map<Seq<char>, nat>,
}

/// The statistics of a repository without commits and without files.
pub open spec fn zero_stats() -> StatsModel {
    StatsModel {
        commit_count: 0,
        out_of_hours_commits: 0,
        file_count: 0,
        line_count: 0,
        commits_by_date: Map::empty(),
        file_types: Map::empty(),
    }
}

/// Statistics of one repository, or of several repositories taken together.
#[derive(Debug)]
pub struct RepoStats {
    /// Number of commits.
    pub commit_count: usize,
    /// Number of commits made outside the working hours.
    pub out_of_hours_commits: usize,
    /// Number of tracked files.
    pub file_count: usize,
    /// Number of text lines in the tracked files that could be read.
    pub line_count: usize,
    /// Number of commits on each date.
    pub commits_by_date: Histogram,
    /// Number of tracked files with each extension.
    pub file_types: Histogram,
}

impl View for RepoStats {
    type V = StatsModel;

    open spec fn view(&self) -> StatsModel {
        StatsModel {
            commit_count: self.commit_count as nat,
            out_of_hours_commits: self.out_of_hours_commits as nat,
            file_count: self.file_count as nat,
            line_count: self.line_count as nat,
            commits_by_date: self.commits_by_date@,
            file_types: self.file_types@,
        }
    }
}

impl Default for RepoStats {
    fn default() -> (stats: Self)
        ensures
            stats@ == zero_stats(),
    {
        RepoStats {
            commit_count: 0,
            out_of_hours_commits: 0,
            file_count: 0,
            line_count: 0,
            commits_by_date: Histogram::new(),
            file_types: Histogram::new(),
        }
    }
}

impl Clone for RepoStats {
    fn clone(&self) -> (copy: Self)
        ensures
            copy@ == self@,
    {
        RepoStats {
            commit_count: self.commit_count,
            out_of_hours_commits: self.out_of_hours_commits,
            file_count: self.file_count,
            line_count: self.line_count,
            commits_by_date: self.commits_by_date.clone(),
            file_types: self.file_types.clone(),
        }
    }
}

/// The models of a list of statistics, in order.
pub open spec fn stats_models(list: Seq<RepoStats>) -> Seq<StatsModel> {
    Seq::new(list.len(), |i: int| list[i]@)
}

/// The model of a repository's identity.
pub struct RepoInfoModel {
    pub path: Seq<char>,
    pub group: Option<Seq<char>>,
    pub vanity_name: Seq<char>,
}

/// The view of an optional text.
pub open spec fn option_text(text: Option<String>) -> Option<Seq<char>> {
    match text {
        Some(t) => Some(t@),
        None => None,
    }
}

/// The identity of a repository: where it lies, the project it belongs to
/// (its vanity name), and optionally the group of that project.
#[derive(Debug)]
pub struct RepoInfo {
    /// Path of the repository.
    pub path: String,
    /// Group of the project, if one was given.
    pub group: Option<String>,
    /// Name under which the repository is shown and grouped into a project.
    pub vanity_name: String,
}

impl View for RepoInfo {
    type V = RepoInfoModel;

    open spec fn view(&self) -> RepoInfoModel {
        RepoInfoModel {
            path: self.path@,
            group: option_text(self.group),
            vanity_name: self.vanity_name@,
        }
    }
}

impl Clone for RepoInfo {
    fn clone(&self) -> (copy: Self)
        ensures
            copy@ == self@,
    {
        RepoInfo {
            path: self.path.clone(),
            group: match &self.group {
                Some(g) => Some(g.clone()),
                None => None,
            },
            vanity_name: self.vanity_name.clone(),
        }
    }
}

/// The models of a list of identities, in order.
pub open spec fn info_models(list: Seq<RepoInfo>) -> Seq<RepoInfoModel> {
    Seq::new(list.len(), |i: int| list[i]@)
}

/// The model of a list of repositories with their statistics.
pub open spec fn repo_models(list: Seq<(String, RepoStats)>) -> Seq<(Seq<char>, StatsModel)> {
    Seq::new(list.len(), |i: int| (list[i].0@, list[i].1@))
}

/// The model of a category's statistics.
pub struct CategoryModel {
    pub name: Seq<char>,
    pub repos: Seq<(Seq<char>, StatsModel)>,
    pub total: StatsModel,
}

/// The statistics of a category: its repositories, each with its own
/// statistics, and their total.
#[derive(Debug)]
pub struct CategoryStats {
    /// Name of the category.
    pub name: String,
    /// The repositories of the category, by path, with their statistics.
    pub repos: Vec<(String, RepoStats)>,
    /// The statistics of all those repositories taken together.
    pub total: RepoStats,
}

impl View for CategoryStats {
    type V = CategoryModel;

    open spec fn view(&self) -> CategoryModel {
        CategoryModel { name: self.name@, repos: repo_models(self.repos@), total: self.total@ }
    }
}

impl Default for CategoryStats {
    fn default() -> (category: Self)
        ensures
            category@ == (CategoryModel {
                name: Seq::empty(),
                repos: Seq::empty(),
                total: zero_stats(),
            }),
    {
        let category = CategoryStats {
            name: String::new(),
            repos: Vec::new(),
            total: RepoStats::default(),
        };
        proof {
            assert(category@.repos =~= Seq::<(Seq<char>, StatsModel)>::empty());
        }
        category
    }
}

/// The model of a project's statistics.
pub struct ProjectModel {
    pub name: Seq<char>,
    pub group: Option<Seq<char>>,
    pub repos: Seq<Seq<char>>,
    pub stats: StatsModel,
}

/// The statistics of a project: the repositories that share a vanity name.
#[derive(Debug)]
pub struct ProjectStats {
    /// The vanity name.
    pub name: String,
    /// Group of the project, if one was given.
    pub group: Option<String>,
    /// Paths of the repositories of the project.
    pub repos: Vec<String>,
    /// The statistics of the repositories taken together.
    pub stats: RepoStats,
}

impl View for ProjectStats {
    type V = ProjectModel;

    open spec fn view(&self) -> ProjectModel {
        ProjectModel {
            name: self.name@,
            group: option_text(self.group),
            repos: texts(self.repos@),
            stats: self.stats@,
        }
    }
}

impl Default for ProjectStats {
    fn default() -> (project: Self)
        ensures
            project@ == (ProjectModel {
                name: Seq::empty(),
                group: None,
                repos: Seq::empty(),
                stats: zero_stats(),
            }),
    {
        let project = ProjectStats {
            name: String::new(),
            group: None,
            repos: Vec::new(),
            stats: RepoStats::default(),
        };
        proof {
            assert(project@.repos =~= Seq::<Seq<char>>::empty());
        }
        project
    }
}

/// The model of a configuration.
pub struct ConfigModel {
    pub author: Option<Seq<char>>,
    pub repos: Seq<(Seq<char>, Seq<Seq<char>>)>,
}

/// The configuration: an optional author to filter commits by, and the
/// categories in order, each with the descriptors of its repositories.
#[derive(Debug)]
pub struct Config {
    /// Author whose commits are counted; everybody's when absent.
    pub author: Option<String>,
    /// The categories by name, each with its repository descriptors.
    pub repos: Vec<(String, Vec<String>)>,
}

impl View for Config {
    type V = ConfigModel;

    open spec fn view(&self) -> ConfigModel {
        ConfigModel {
            author: option_text(self.author),
            repos: Seq::new(
                self.repos@.len(),
                |i: int| (self.repos@[i].0@, texts(self.repos@[i].1@)),
            ),
        }
    }
}

/// The model of a tracked file.
pub struct FileModel {
    pub path: Seq<char>,
    pub lines: Option<nat>,
}

/// A file that a repository tracks, with the number of its text lines where
/// its content could be read.
#[derive(Debug)]
pub struct TrackedFile {
    /// Path of the file inside the repository.
    pub path: String,
    /// Number of text lines, or nothing for a file that could not be read.
    pub lines: Option<usize>,
}

impl View for TrackedFile {
    type V = FileModel;

    open spec fn view(&self) -> FileModel {
        FileModel {
            path: self.path@,
            lines: match self.lines {
                Some(n) => Some(n as nat),
                None => None,
            },
        }
    }
}

/// The models of a list of tracked files, in order.
pub open spec fn file_models(list: Seq<TrackedFile>) -> Seq<FileModel> {
    Seq::new(list.len(), |i: int| list[i]@)
}

} // verus!
