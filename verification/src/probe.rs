//! Probing one repository: which queries to put to the version-control
//! tool, in which order, and what each answer adds to what is known of the
//! repository. The caller performs the queries; the decisions are here.

use vstd::prelude::*;
use vstd::string::StringExecFns;

use crate::analyzer::{
    analyze_repo, commit_stamp, lemma_no_records, lemma_repo_stats_consistent, repo_stats,
};
use crate::histogram::{sum_values, tally};
use crate::models::{
    file_models, option_text, zero_stats, FileModel, RepoStats, StatsModel, TrackedFile,
};
use crate::text::{chars_of, lines, pieces, split_lines, string_of, texts, word_ranges, words};
use crate::utils::{extensions, lines_fit, total_lines};

verus! {

/// How far the probe of a repository has come.
#[derive(Debug, Clone, Copy)]
pub enum Stage {
    /// The commit log of the repository is asked for.
    Log,
    /// The sub-repositories are asked for.
    Submodules,
    /// The commit log of a sub-repository is asked for.
    SubmoduleLogs,
    /// The tracked files are asked for.
    Files,
    /// The content of a tracked file is asked for.
    Contents,
    /// Nothing is left to ask.
    Done,
}

/// The model of a query.
pub enum QueryModel {
    CommitLog(Seq<char>),
    Submodules(Seq<char>),
    SubmoduleLog(Seq<char>),
    TrackedFiles(Seq<char>),
    FileContent(Seq<char>),
}

/// A query to put to the version-control tool, or to the file system.
#[derive(Debug)]
pub enum Query {
    /// The commit log of the repository at this path, one record per commit.
    CommitLog(String),
    /// The sub-repositories of the repository at this path.
    Submodules(String),
    /// The commit log of the sub-repository at this path.
    SubmoduleLog(String),
    /// The files that the repository at this path tracks, one per line.
    TrackedFiles(String),
    /// The content of the file at this path.
    FileContent(String),
}

impl View for Query {
    type V = QueryModel;

    open spec fn view(&self) -> QueryModel {
        match self {
            Query::CommitLog(path) => QueryModel::CommitLog(path@),
            Query::Submodules(path) => QueryModel::Submodules(path@),
            Query::SubmoduleLog(path) => QueryModel::SubmoduleLog(path@),
            Query::TrackedFiles(path) => QueryModel::TrackedFiles(path@),
            Query::FileContent(path) => QueryModel::FileContent(path@),
        }
    }
}

/// The model of a reply.
pub enum ReplyModel {
    Failed,
    Output(Seq<char>),
}

/// The answer to a query: it failed, or it gave this text.
#[derive(Debug)]
pub enum Reply {
    /// The query could not be answered.
    Failed,
    /// The text that the query gave.
    Output(String),
}

impl View for Reply {
    type V = ReplyModel;

    open spec fn view(&self) -> ReplyModel {
        match self {
            Reply::Failed => ReplyModel::Failed,
            Reply::Output(text) => ReplyModel::Output(text@),
        }
    }
}

/// The model of a probe: what is known of the repository so far.
pub struct ProbeModel {
    /// Path of the repository.
    pub repo: Seq<char>,
    /// The working hours, if commits are to be classified by them.
    pub working_hours: Option<(u32, u32, u32, u32)>,
    /// How far the probe has come.
    pub stage: Stage,
    /// The commit records gathered so far.
    pub commits: Seq<Seq<char>>,
    /// Paths of the sub-repositories.
    pub submodules: Seq<Seq<char>>,
    /// The sub-repository or the file that is asked for next.
    pub next: nat,
    /// The tracked files, each with its lines once its content was read.
    pub files: Seq<FileModel>,
}

/// `dir` and `name` joined by a slash.
pub open spec fn join_path(dir: Seq<char>, name: Seq<char>) -> Seq<char> {
    dir + seq!['/'] + name
}

/// The path of the sub-repository that a line of the sub-repository listing
/// names: its second word, below the repository. A line with fewer than two
/// words names none.
pub open spec fn submodule_of(repo: Seq<char>, line: Seq<char>) -> Option<Seq<char>> {
    if words(line).len() >= 2 {
        Some(join_path(repo, words(line)[1]))
    } else {
        None
    }
}

/// The paths of the sub-repositories that the lines of a listing name, in
/// order.
pub open spec fn submodules_in(repo: Seq<char>, listing: Seq<Seq<char>>) -> Seq<Seq<char>> {
    listing.filter_map(|line: Seq<char>| submodule_of(repo, line))
}

/// The paths of the sub-repositories that a listing names, in order.
pub open spec fn submodule_paths(repo: Seq<char>, listing: Seq<char>) -> Seq<Seq<char>> {
    submodules_in(repo, lines(listing))
}

/// The files that a listing names, one per line, none of them read yet.
pub open spec fn unread_files(listing: Seq<char>) -> Seq<FileModel> {
    Seq::new(
        lines(listing).len(),
        |i: int| FileModel { path: lines(listing)[i], lines: None },
    )
}

/// The probe of the repository at `repo` before any query.
pub open spec fn start(repo: Seq<char>, working_hours: Option<(u32, u32, u32, u32)>) -> ProbeModel {
    ProbeModel {
        repo,
        working_hours,
        stage: Stage::Log,
        commits: Seq::empty(),
        submodules: Seq::empty(),
        next: 0,
        files: Seq::empty(),
    }
}

/// Whether a probe is in a state that probing can reach: the item asked for
/// next exists.
pub open spec fn well_formed(probe: ProbeModel) -> bool {
    match probe.stage {
        Stage::SubmoduleLogs => probe.next < probe.submodules.len(),
        Stage::Contents => probe.next < probe.files.len(),
        _ => true,
    }
}

/// The query that a probe waits for an answer to; none once it is done.
pub open spec fn pending(probe: ProbeModel) -> Option<QueryModel> {
    match probe.stage {
        Stage::Log => Some(QueryModel::CommitLog(probe.repo)),
        Stage::Submodules => Some(QueryModel::Submodules(probe.repo)),
        Stage::SubmoduleLogs => Some(QueryModel::SubmoduleLog(probe.submodules[probe.next as int])),
        Stage::Files => Some(QueryModel::TrackedFiles(probe.repo)),
        Stage::Contents => Some(
            QueryModel::FileContent(join_path(probe.repo, probe.files[probe.next as int].path)),
        ),
        Stage::Done => None,
    }
}

/// The probe after the answer `reply` to its pending query.
///
/// A commit log that fails ends the probe with nothing known. A listing of
/// sub-repositories that fails names none. The commit records of a
/// sub-repository join those of the repository; a sub-repository whose log
/// fails adds none. A listing of files that fails names none. A file whose
/// content cannot be read stays without lines.
pub open spec fn step(probe: ProbeModel, reply: ReplyModel) -> ProbeModel {
    match probe.stage {
        Stage::Log => match reply {
            ReplyModel::Failed => ProbeModel { stage: Stage::Done, ..probe },
            ReplyModel::Output(text) => ProbeModel {
                stage: Stage::Submodules,
                commits: lines(text),
                ..probe
            },
        },
        Stage::Submodules => {
            let found = match reply {
                ReplyModel::Failed => Seq::empty(),
                ReplyModel::Output(text) => submodule_paths(probe.repo, text),
            };
            ProbeModel {
                stage: if found.len() > 0 {
                    Stage::SubmoduleLogs
                } else {
                    Stage::Files
                },
                submodules: found,
                next: 0,
                ..probe
            }
        },
        Stage::SubmoduleLogs => {
            let commits = match reply {
                ReplyModel::Failed => probe.commits,
                ReplyModel::Output(text) => probe.commits + lines(text),
            };
            if probe.next + 1 < probe.submodules.len() {
                ProbeModel { commits, next: probe.next + 1, ..probe }
            } else {
                ProbeModel { stage: Stage::Files, commits, next: 0, ..probe }
            }
        },
        Stage::Files => {
            let files = match reply {
                ReplyModel::Failed => Seq::empty(),
                ReplyModel::Output(text) => unread_files(text),
            };
            ProbeModel {
                stage: if files.len() > 0 {
                    Stage::Contents
                } else {
                    Stage::Done
                },
                files,
                next: 0,
                ..probe
            }
        },
        Stage::Contents => {
            let files = match reply {
                ReplyModel::Failed => probe.files,
                ReplyModel::Output(text) => probe.files.update(
                    probe.next as int,
                    FileModel {
                        path: probe.files[probe.next as int].path,
                        lines: Some(lines(text).len()),
                    },
                ),
            };
            if probe.next + 1 < probe.files.len() {
                ProbeModel { files, next: probe.next + 1, ..probe }
            } else {
                ProbeModel { stage: Stage::Done, files, next: 0, ..probe }
            }
        },
        Stage::Done => probe,
    }
}

/// The statistics that a probe gives: those of its commit records and its
/// tracked files.
pub open spec fn outcome(probe: ProbeModel) -> StatsModel {
    repo_stats(probe.commits, probe.files, probe.working_hours)
}

/// How many stages a probe has before it.
pub open spec fn stages_left(stage: Stage) -> nat {
    match stage {
        Stage::Log => 5,
        Stage::Submodules => 4,
        Stage::SubmoduleLogs => 3,
        Stage::Files => 2,
        Stage::Contents => 1,
        Stage::Done => 0,
    }
}

/// How many items of its stage a probe has before it.
pub open spec fn items_left(probe: ProbeModel) -> nat {
    match probe.stage {
        Stage::SubmoduleLogs => (probe.submodules.len() - probe.next) as nat,
        Stage::Contents => (probe.files.len() - probe.next) as nat,
        _ => 0,
    }
}

/// Probing starts in a state that probing can reach, and each answer leads
/// to such a state again.
pub proof fn lemma_step_well_formed(probe: ProbeModel, reply: ReplyModel)
    requires
        well_formed(probe),
    ensures
        well_formed(step(probe, reply)),
        well_formed(start(probe.repo, probe.working_hours)),
        step(probe, reply).repo == probe.repo,
        step(probe, reply).working_hours == probe.working_hours,
{
}

/// Each answer brings a probe nearer to its end: to a later stage, or to
/// the next item of its stage. So every probe ends.
pub proof fn lemma_step_progress(probe: ProbeModel, reply: ReplyModel)
    requires
        well_formed(probe),
        !(probe.stage is Done),
    ensures
        stages_left(step(probe, reply).stage) < stages_left(probe.stage) || (stages_left(
            step(probe, reply).stage,
        ) == stages_left(probe.stage) && items_left(step(probe, reply)) < items_left(probe)),
{
}

/// A probe whose commit log fails is done at once, and its statistics are
/// zero throughout.
pub proof fn lemma_failed_log(repo: Seq<char>, working_hours: Option<(u32, u32, u32, u32)>)
    ensures
        step(start(repo, working_hours), ReplyModel::Failed).stage is Done,
        outcome(step(start(repo, working_hours), ReplyModel::Failed)) == zero_stats(),
{
    let done = step(start(repo, working_hours), ReplyModel::Failed);
    lemma_repo_stats_consistent(done.commits, done.files, working_hours);
    lemma_no_records(working_hours);
    assert(extensions(done.files) =~= Seq::<Seq<char>>::empty());
    assert(tally(Seq::<Seq<char>>::empty()) =~= Map::<Seq<char>, nat>::empty());
    assert(outcome(done) =~= zero_stats());
}

/// In the statistics that a probe gives, no more commits are out of hours
/// than there are commits, and the counts by date add up to the number of
/// commits where every commit record has a time stamp.
pub proof fn lemma_outcome_consistent(probe: ProbeModel)
    ensures
        outcome(probe).out_of_hours_commits <= outcome(probe).commit_count,
        sum_values(outcome(probe).commits_by_date) <= outcome(probe).commit_count,
        (forall|i: int|
            0 <= i < probe.commits.len() ==> commit_stamp(#[trigger] probe.commits[i]) is Some)
            ==> sum_values(outcome(probe).commits_by_date) == outcome(probe).commit_count,
{
    lemma_repo_stats_consistent(probe.commits, probe.files, probe.working_hours);
}

proof fn lemma_submodules_in_push(repo: Seq<char>, listing: Seq<Seq<char>>, line: Seq<char>)
    ensures
        submodules_in(repo, listing.push(line)) == match submodule_of(repo, line) {
            Some(path) => submodules_in(repo, listing).push(path),
            None => submodules_in(repo, listing),
        },
{
    assert(listing.push(line).drop_last() =~= listing);
    match submodule_of(repo, line) {
        Some(path) => {
            assert(submodules_in(repo, listing) + seq![path] =~= submodules_in(
                repo,
                listing,
            ).push(path));
        },
        None => {},
    }
}

/// Joins a directory and a name below it by a slash.
pub fn join(dir: &str, name: &str) -> (path: String)
    ensures
        path@ == join_path(dir@, name@),
{
    let mut path = dir.to_owned();
    path.push('/');
    path.append(name);
    proof {
        assert(path@ =~= join_path(dir@, name@));
    }
    path
}

/// Reads the paths of the sub-repositories from a listing of them: the
/// second word of each line, below the repository.
pub fn read_submodules(repo: &str, listing: &str) -> (found: Vec<String>)
    ensures
        texts(found@) == submodule_paths(repo@, listing@),
{
    let rows = split_lines(listing);
    let ghost all = texts(rows@);
    let mut found: Vec<String> = Vec::new();
    let mut i: usize = 0;
    proof {
        assert(all.take(0) =~= Seq::<Seq<char>>::empty());
        assert(texts(found@) =~= submodules_in(repo@, all.take(0)));
    }
    while i < rows.len()
        invariant
            i <= rows@.len(),
            all == texts(rows@),
            texts(found@) == submodules_in(repo@, all.take(i as int)),
        decreases rows@.len() - i,
    {
        let chars = chars_of(rows[i].as_str());
        let fields = word_ranges(&chars, 0, chars.len());
        proof {
            assert(chars@.subrange(0, chars@.len() as int) =~= all[i as int]);
            assert(all.take(i as int).push(all[i as int]) =~= all.take(i + 1));
            lemma_submodules_in_push(repo@, all.take(i as int), all[i as int]);
        }
        if fields.len() >= 2 {
            let (from, to) = fields[1];
            let name = string_of(&chars, from, to);
            let path = join(repo, name.as_str());
            let ghost before = texts(found@);
            proof {
                assert(pieces(chars@, fields@)[1] == name@);
            }
            found.push(path);
            proof {
                assert(texts(found@) =~= before.push(path@));
            }
        }
        i += 1;
    }
    proof {
        assert(all.take(i as int) =~= all);
    }
    found
}

/// Reads the tracked files from a listing of them, one per line. None of
/// them is read yet.
pub fn read_files(listing: &str) -> (files: Vec<TrackedFile>)
    ensures
        file_models(files@) == unread_files(listing@),
{
    let rows = split_lines(listing);
    let mut files: Vec<TrackedFile> = Vec::new();
    let mut i: usize = 0;
    while i < rows.len()
        invariant
            i <= rows@.len(),
            texts(rows@) == lines(listing@),
            files@.len() == i,
            forall|k: int|
                0 <= k < i ==> (#[trigger] files@[k])@ == (FileModel {
                    path: texts(rows@)[k],
                    lines: None,
                }),
        decreases rows@.len() - i,
    {
        files.push(TrackedFile { path: rows[i].clone(), lines: None });
        i += 1;
    }
    proof {
        assert(file_models(files@) =~= unread_files(listing@));
    }
    files
}

/// The probe of one repository: what is known of it so far, and what is to
/// be asked next.
pub struct Probe {
    repo: String,
    working_hours: Option<(u32, u32, u32, u32)>,
    stage: Stage,
    commits: Vec<String>,
    submodules: Vec<String>,
    next: usize,
    files: Vec<TrackedFile>,
}

impl View for Probe {
    type V = ProbeModel;

    closed spec fn view(&self) -> ProbeModel {
        ProbeModel {
            repo: self.repo@,
            working_hours: self.working_hours,
            stage: self.stage,
            commits: texts(self.commits@),
            submodules: texts(self.submodules@),
            next: self.next as nat,
            files: file_models(self.files@),
        }
    }
}

impl Probe {
    #[verifier::type_invariant]
    spec fn reachable(&self) -> bool {
        well_formed(self@)
    }

    /// Starts the probe of the repository at `repo`.
    pub fn new(repo: &str, working_hours: Option<(u32, u32, u32, u32)>) -> (probe: Self)
        ensures
            probe@ == start(repo@, working_hours),
    {
        let probe = Probe {
            repo: repo.to_owned(),
            working_hours,
            stage: Stage::Log,
            commits: Vec::new(),
            submodules: Vec::new(),
            next: 0,
            files: Vec::new(),
        };
        proof {
            assert(probe@.commits =~= Seq::<Seq<char>>::empty());
            assert(probe@.submodules =~= Seq::<Seq<char>>::empty());
            assert(probe@.files =~= Seq::<FileModel>::empty());
        }
        probe
    }

    /// How far the probe has come.
    pub fn stage(&self) -> (stage: Stage)
        ensures
            stage == self@.stage,
    {
        self.stage
    }

    /// The query to answer next, or nothing once the probe is done.
    pub fn pending(&self) -> (query: Option<Query>)
        ensures
            match query {
                Some(q) => pending(self@) == Some(q@),
                None => pending(self@) is None,
            },
            well_formed(self@),
    {
        proof {
            use_type_invariant(self);
        }
        match self.stage {
            Stage::Log => Some(Query::CommitLog(self.repo.clone())),
            Stage::Submodules => Some(Query::Submodules(self.repo.clone())),
            Stage::SubmoduleLogs => Some(Query::SubmoduleLog(self.submodules[self.next].clone())),
            Stage::Files => Some(Query::TrackedFiles(self.repo.clone())),
            Stage::Contents => Some(
                Query::FileContent(join(self.repo.as_str(), self.files[self.next].path.as_str())),
            ),
            Stage::Done => None,
        }
    }

    /// Takes the answer to the pending query and moves on to the next one.
    /// Once the probe is done, an answer changes nothing.
    pub fn advance(self, reply: Reply) -> (next: Self)
        ensures
            next@ == step(self@, reply@),
    {
        proof {
            use_type_invariant(&self);
        }
        let ghost before = self@;
        let Probe { repo, working_hours, stage, commits, submodules, next, files } = self;
        let mut commits = commits;
        let mut files = files;
        proof {
            assert(before.submodules.len() == submodules@.len());
            assert(before.files.len() == files@.len());
        }
        match stage {
            Stage::Log => match reply {
                Reply::Failed => Probe {
                    repo,
                    working_hours,
                    stage: Stage::Done,
                    commits,
                    submodules,
                    next,
                    files,
                },
                Reply::Output(text) => Probe {
                    repo,
                    working_hours,
                    stage: Stage::Submodules,
                    commits: split_lines(text.as_str()),
                    submodules,
                    next,
                    files,
                },
            },
            Stage::Submodules => {
                let found = match reply {
                    Reply::Failed => {
                        let none: Vec<String> = Vec::new();
                        proof {
                            assert(texts(none@) =~= Seq::<Seq<char>>::empty());
                        }
                        none
                    },
                    Reply::Output(text) => read_submodules(repo.as_str(), text.as_str()),
                };
                let stage = if found.len() > 0 {
                    Stage::SubmoduleLogs
                } else {
                    Stage::Files
                };
                Probe { repo, working_hours, stage, commits, submodules: found, next: 0, files }
            },
            Stage::SubmoduleLogs => {
                assert(next < submodules.len());
                match reply {
                    Reply::Failed => {},
                    Reply::Output(text) => {
                        let mut more = split_lines(text.as_str());
                        let ghost had = texts(commits@);
                        let ghost got = texts(more@);
                        commits.append(&mut more);
                        proof {
                            assert(texts(commits@) =~= had + got);
                        }
                    },
                }
                if next + 1 < submodules.len() {
                    Probe { repo, working_hours, stage, commits, submodules, next: next + 1, files }
                } else {
                    Probe {
                        repo,
                        working_hours,
                        stage: Stage::Files,
                        commits,
                        submodules,
                        next: 0,
                        files,
                    }
                }
            },
            Stage::Files => {
                let listed = match reply {
                    Reply::Failed => {
                        let none: Vec<TrackedFile> = Vec::new();
                        proof {
                            assert(file_models(none@) =~= Seq::<FileModel>::empty());
                        }
                        none
                    },
                    Reply::Output(text) => read_files(text.as_str()),
                };
                let stage = if listed.len() > 0 {
                    Stage::Contents
                } else {
                    Stage::Done
                };
                Probe { repo, working_hours, stage, commits, submodules, next: 0, files: listed }
            },
            Stage::Contents => {
                assert(next < files.len());
                let ghost count_before = files@.len();
                match reply {
                    Reply::Failed => {},
                    Reply::Output(text) => {
                        let count = split_lines(text.as_str()).len();
                        let ghost had = file_models(files@);
                        files[next].lines = Some(count);
                        proof {
                            assert(file_models(files@) =~= had.update(
                                next as int,
                                FileModel {
                                    path: had[next as int].path,
                                    lines: Some(lines(text@).len()),
                                },
                            ));
                        }
                    },
                }
                assert(files@.len() == count_before);
                if next + 1 < files.len() {
                    Probe { repo, working_hours, stage, commits, submodules, next: next + 1, files }
                } else {
                    Probe {
                        repo,
                        working_hours,
                        stage: Stage::Done,
                        commits,
                        submodules,
                        next: 0,
                        files,
                    }
                }
            },
            Stage::Done => Probe { repo, working_hours, stage, commits, submodules, next, files },
        }
    }

    /// The statistics of the repository, once the probe is done and the
    /// lines of its files can be counted in a `usize`.
    pub fn finish(&self) -> (stats: Option<RepoStats>)
        ensures
            stats.is_some() == (self@.stage is Done && total_lines(self@.files) <= usize::MAX),
            stats matches Some(s) ==> {
                &&& s@ == outcome(self@)
                &&& s.out_of_hours_commits <= s.commit_count
                &&& sum_values(s.commits_by_date@) <= s.commit_count
                &&& (forall|i: int|
                    0 <= i < self@.commits.len() ==> commit_stamp(#[trigger] self@.commits[i])
                        is Some) ==> sum_values(s.commits_by_date@) == s.commit_count
            },
    {
        proof {
            lemma_outcome_consistent(self@);
        }
        match self.stage {
            Stage::Done => {
                if lines_fit(self.files.as_slice()) {
                    Some(
                        analyze_repo(
                            self.commits.as_slice(),
                            self.files.as_slice(),
                            self.working_hours,
                        ),
                    )
                } else {
                    None
                }
            },
            _ => None,
        }
    }
}

/// The arguments that restrict a commit log to an author, where one is
/// given, and to the time from `since` until `until`.
pub open spec fn filter_arguments(
    author: Option<Seq<char>>,
    since: Seq<char>,
    until: Seq<char>,
) -> Seq<Seq<char>> {
    let dates = seq!["--since="@ + since, "--until="@ + until];
    match author {
        Some(name) => seq!["--author="@ + name] + dates,
        None => dates,
    }
}

/// The arguments with which `git` answers a query. A commit log gives one
/// line per commit: the short hash, the time stamp and the subject, the time
/// stamp in strict ISO 8601 form for the repository itself. The content of a
/// file is no query to `git`.
pub open spec fn arguments_of(
    query: QueryModel,
    author: Option<Seq<char>>,
    since: Seq<char>,
    until: Seq<char>,
) -> Option<Seq<Seq<char>>> {
    match query {
        QueryModel::CommitLog(path) => Some(
            seq!["-C"@, path, "log"@, "--pretty=format:%h %ad %s"@, "--date=iso-strict"@]
                + filter_arguments(author, since, until),
        ),
        QueryModel::Submodules(path) => Some(seq!["-C"@, path, "submodule"@, "status"@]),
        QueryModel::SubmoduleLog(path) => Some(
            seq![
                "-C"@,
                path,
                "log"@,
                "--pretty=format:[SUBMODULE %s] %h %ad %s"@,
                "--date=short"@,
            ] + filter_arguments(author, since, until),
        ),
        QueryModel::TrackedFiles(path) => Some(seq!["-C"@, path, "ls-files"@]),
        QueryModel::FileContent(_) => None,
    }
}

fn prefixed(prefix: &str, value: &str) -> (joined: String)
    ensures
        joined@ == prefix@ + value@,
{
    let mut joined = prefix.to_owned();
    joined.append(value);
    joined
}

fn push_filter(arguments: &mut Vec<String>, author: &Option<String>, since: &str, until: &str)
    ensures
        texts(final(arguments)@) == texts(old(arguments)@) + filter_arguments(
            option_text(*author),
            since@,
            until@,
        ),
{
    let ghost before = texts(arguments@);
    match author {
        Some(name) => {
            arguments.push(prefixed("--author=", name.as_str()));
        },
        None => {},
    }
    arguments.push(prefixed("--since=", since));
    arguments.push(prefixed("--until=", until));
    proof {
        assert(texts(arguments@) =~= before + filter_arguments(
            option_text(*author),
            since@,
            until@,
        ));
    }
}

/// Gives the arguments with which `git` answers a query, or nothing for a
/// query that is none to `git`.
pub fn git_arguments(query: &Query, author: &Option<String>, since: &str, until: &str) -> (arguments:
    Option<Vec<String>>)
    ensures
        match arguments {
            Some(list) => arguments_of(query@, option_text(*author), since@, until@) == Some(
                texts(list@),
            ),
            None => arguments_of(query@, option_text(*author), since@, until@) is None,
        },
{
    let mut list: Vec<String> = Vec::new();
    list.push("-C".to_owned());
    match query {
        Query::CommitLog(path) => {
            list.push(path.clone());
            list.push("log".to_owned());
            list.push("--pretty=format:%h %ad %s".to_owned());
            list.push("--date=iso-strict".to_owned());
            proof {
                assert(texts(list@) =~= seq![
                    "-C"@,
                    path@,
                    "log"@,
                    "--pretty=format:%h %ad %s"@,
                    "--date=iso-strict"@,
                ]);
            }
            push_filter(&mut list, author, since, until);
            Some(list)
        },
        Query::Submodules(path) => {
            list.push(path.clone());
            list.push("submodule".to_owned());
            list.push("status".to_owned());
            proof {
                assert(texts(list@) =~= seq!["-C"@, path@, "submodule"@, "status"@]);
            }
            Some(list)
        },
        Query::SubmoduleLog(path) => {
            list.push(path.clone());
            list.push("log".to_owned());
            list.push("--pretty=format:[SUBMODULE %s] %h %ad %s".to_owned());
            list.push("--date=short".to_owned());
            proof {
                assert(texts(list@) =~= seq![
                    "-C"@,
                    path@,
                    "log"@,
                    "--pretty=format:[SUBMODULE %s] %h %ad %s"@,
                    "--date=short"@,
                ]);
            }
            push_filter(&mut list, author, since, until);
            Some(list)
        },
        Query::TrackedFiles(path) => {
            list.push(path.clone());
            list.push("ls-files".to_owned());
            proof {
                assert(texts(list@) =~= seq!["-C"@, path@, "ls-files"@]);
            }
            Some(list)
        },
        Query::FileContent(_) => None,
    }
}

} // verus!
