//! The statistics of the repositories that were probed, by path. A path is
//! probed at most once: its statistics, once entered, stay.

use vstd::prelude::*;

use crate::models::{RepoStats, StatsModel};
use crate::textmap::TextMap;

verus! {

/// The cache after the statistics `stats` are offered for the repository at
/// `path`: they are entered unless the cache holds the path already.
pub open spec fn with_probe(
    cache: Map<Seq<char>, StatsModel>,
    path: Seq<char>,
    stats: StatsModel,
) -> Map<Seq<char>, StatsModel> {
    if cache.dom().contains(path) {
        cache
    } else {
        cache.insert(path, stats)
    }
}

/// A repository is probed once: after statistics were offered for a path,
/// the cache holds the path, and statistics offered for it again change
/// nothing, whatever they are. Paths that the cache held keep their
/// statistics.
pub proof fn lemma_probed_once(
    cache: Map<Seq<char>, StatsModel>,
    path: Seq<char>,
    first: StatsModel,
    second: StatsModel,
)
    ensures
        with_probe(cache, path, first).dom().contains(path),
        with_probe(with_probe(cache, path, first), path, second) == with_probe(cache, path, first),
        forall|other: Seq<char>| #[trigger]
            cache.dom().contains(other) ==> with_probe(cache, path, first).dom().contains(other)
                && with_probe(cache, path, first)[other] == cache[other],
{
}

/// The statistics of the repositories probed so far, by path.
pub struct StatsCache {
    map: TextMap<RepoStats>,
}

impl View for StatsCache {
    type V = Map<Seq<char>, StatsModel>;

    closed spec fn view(&self) -> Map<Seq<char>, StatsModel> {
        Map::new(|path: Seq<char>| self.map@.dom().contains(path), |path: Seq<char>| self.map@[path]@)
    }
}

impl StatsCache {
    /// The cache holds finitely many paths.
    pub proof fn lemma_finite(&self)
        ensures
            self@.dom().finite(),
    {
        self.map.lemma_finite();
        assert(self@.dom() =~= self.map@.dom());
    }

    /// The cache before any repository was probed.
    pub fn new() -> (cache: Self)
        ensures
            cache@ == Map::<Seq<char>, StatsModel>::empty(),
    {
        let cache = StatsCache { map: TextMap::new() };
        proof {
            assert(cache@ =~= Map::<Seq<char>, StatsModel>::empty());
        }
        cache
    }

    /// The number of repositories probed.
    pub fn len(&self) -> (n: usize)
        ensures
            n == self@.dom().len(),
    {
        proof {
            assert(self@.dom() =~= self.map@.dom());
        }
        self.map.len()
    }

    /// Whether the repository at `path` was probed.
    pub fn contains(&self, path: &str) -> (probed: bool)
        ensures
            probed == self@.dom().contains(path@),
    {
        self.map.contains_key(path)
    }

    /// The statistics of the repository at `path`, if it was probed.
    pub fn get(&self, path: &str) -> (stats: Option<RepoStats>)
        ensures
            match stats {
                Some(s) => self@.dom().contains(path@) && s@ == self@[path@],
                None => !self@.dom().contains(path@),
            },
    {
        match self.map.get(path) {
            Some(stats) => Some(stats.clone()),
            None => None,
        }
    }

    /// Enters the statistics of the repository at `path` unless the path
    /// was probed before, and reports whether it did so. The statistics of a
    /// path that was probed before stay as they are.
    pub fn insert(&mut self, path: String, stats: RepoStats) -> (entered: bool)
        ensures
            entered == !old(self)@.dom().contains(path@),
            final(self)@ == with_probe(old(self)@, path@, stats@),
    {
        let ghost before = self@;
        let entered = self.map.insert_if_absent(path, stats);
        proof {
            if entered {
                assert(self@ =~= before.insert(path@, stats@));
            } else {
                assert(self@ =~= before);
            }
        }
        entered
    }

    /// Gives the statistics of the repository at `path`, probing it with
    /// `compute` only if it was not probed before. After the call the cache
    /// holds the path. For a path probed before, the cache stays as it is
    /// and its statistics are returned; otherwise what `compute` returned is
    /// entered and returned.
    pub fn get_or_compute<F: FnOnce(&str) -> RepoStats>(&mut self, path: &str, compute: F) -> (stats:
        RepoStats)
        requires
            compute.requires((path,)),
        ensures
            final(self)@ == with_probe(old(self)@, path@, stats@),
            final(self)@[path@] == stats@,
            !old(self)@.dom().contains(path@) ==> compute.ensures((path,), stats),
    {
        match self.get(path) {
            Some(stats) => stats,
            None => {
                let stats = compute(path);
                let copy = stats.clone();
                self.insert(path.to_owned(), copy);
                stats
            },
        }
    }
}

} // verus!
