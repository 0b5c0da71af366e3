//! Repository descriptors: `path [group][vanity]`, `path [vanity]` or a bare
//! path, and the grouping of repositories into projects by vanity name.

use vstd::prelude::*;

use crate::models::{info_models, option_text, RepoInfo, RepoInfoModel};
use crate::text::{
    chars_of, find_char, has_char, index_of, pieces, ranges_within, split, split_ranges, str_eq,
    string_of, texts, trim, trim_range,
};

verus! {

/// The label that a segment of a descriptor gives. A segment is what follows
/// an opening bracket; its label is what stands before its first closing
/// bracket, trimmed. A segment without a closing bracket gives no label.
pub open spec fn label_of(segment: Seq<char>) -> Option<Seq<char>> {
    if has_char(segment, ']') {
        Some(trim(segment.take(index_of(segment, ']') as int)))
    } else {
        None
    }
}

/// The labels that a list of segments gives, in order.
pub open spec fn labels_of(segments: Seq<Seq<char>>) -> Seq<Seq<char>> {
    segments.filter_map(|segment: Seq<char>| label_of(segment))
}

/// The path of a descriptor: what stands before its first opening bracket,
/// trimmed.
pub open spec fn descriptor_path(descriptor: Seq<char>) -> Seq<char> {
    trim(split(descriptor, '[')[0])
}

/// The labels of a descriptor, in order.
pub open spec fn descriptor_labels(descriptor: Seq<char>) -> Seq<Seq<char>> {
    labels_of(split(descriptor, '[').skip(1))
}

/// The identity that a descriptor gives. With two labels the first is the
/// group and the second the vanity name; with one label it is the vanity
/// name; with any other number of labels the path is the vanity name.
pub open spec fn parse_descriptor(descriptor: Seq<char>) -> RepoInfoModel {
    let path = descriptor_path(descriptor);
    let labels = descriptor_labels(descriptor);
    if labels.len() == 2 {
        RepoInfoModel { path, group: Some(labels[0]), vanity_name: labels[1] }
    } else if labels.len() == 1 {
        RepoInfoModel { path, group: None, vanity_name: labels[0] }
    } else {
        RepoInfoModel { path, group: None, vanity_name: path }
    }
}

proof fn lemma_labels_of_push(segments: Seq<Seq<char>>, segment: Seq<char>)
    ensures
        labels_of(segments.push(segment)) == match label_of(segment) {
            Some(label) => labels_of(segments).push(label),
            None => labels_of(segments),
        },
{
    assert(segments.push(segment).drop_last() =~= segments);
    match label_of(segment) {
        Some(label) => {
            assert(labels_of(segments) + seq![label] =~= labels_of(segments).push(label));
        },
        None => {},
    }
}

/// Parses a repository descriptor into the identity of the repository. Every
/// text is a descriptor: one without well-formed labels names a repository
/// whose vanity name is its path.
pub fn parse_repo_string(input: &str) -> (info: RepoInfo)
    ensures
        info@ == parse_descriptor(input@),
        info.path@ == descriptor_path(input@),
        descriptor_labels(input@).len() == 2 ==> info@.group == Some(descriptor_labels(input@)[0])
            && info.vanity_name@ == descriptor_labels(input@)[1],
        descriptor_labels(input@).len() == 1 ==> info.group is None && info.vanity_name@
            == descriptor_labels(input@)[0],
        descriptor_labels(input@).len() == 0 ==> info.group is None && info.vanity_name@
            == info.path@,
{
    let chars = chars_of(input);
    proof {
        assert(chars@.subrange(0, chars@.len() as int) =~= input@);
    }
    let parts = split_ranges(&chars, 0, chars.len(), '[');
    let ghost all = split(input@, '[');
    let ghost segments = all.skip(1);
    let (head_from, head_to) = parts[0];
    let (path_from, path_to) = trim_range(&chars, head_from, head_to);
    let path = string_of(&chars, path_from, path_to);
    proof {
        assert(all[0] == chars@.subrange(head_from as int, head_to as int));
    }
    let mut labels: Vec<String> = Vec::new();
    let mut i: usize = 1;
    proof {
        assert(segments.take(0) =~= Seq::<Seq<char>>::empty());
        assert(texts(labels@) =~= labels_of(segments.take(0)));
    }
    while i < parts.len()
        invariant
            1 <= i <= parts@.len(),
            all == pieces(chars@, parts@),
            segments == all.skip(1),
            ranges_within(parts@, 0, chars@.len() as int),
            texts(labels@) == labels_of(segments.take(i - 1)),
        decreases parts@.len() - i,
    {
        let (from, to) = parts[i];
        let ghost segment = chars@.subrange(from as int, to as int);
        let close = find_char(&chars, from, to, ']');
        proof {
            assert(segments[i - 1] == segment);
            assert(segments.take(i - 1).push(segment) =~= segments.take(i as int));
            lemma_labels_of_push(segments.take(i - 1), segment);
        }
        if close < to {
            let (label_from, label_to) = trim_range(&chars, from, close);
            let label = string_of(&chars, label_from, label_to);
            proof {
                assert(segment.take(close - from) =~= chars@.subrange(from as int, close as int));
                assert(texts(labels@.push(label)) =~= texts(labels@).push(label@));
            }
            labels.push(label);
        }
        i += 1;
    }
    proof {
        assert(segments.take(i - 1) =~= segments);
    }
    if labels.len() == 2 {
        proof {
            assert(texts(labels@)[0] == labels@[0]@);
            assert(texts(labels@)[1] == labels@[1]@);
        }
        RepoInfo { path, group: Some(labels[0].clone()), vanity_name: labels[1].clone() }
    } else if labels.len() == 1 {
        proof {
            assert(texts(labels@)[0] == labels@[0]@);
        }
        RepoInfo { path, group: None, vanity_name: labels[0].clone() }
    } else {
        let vanity_name = path.clone();
        RepoInfo { path, group: None, vanity_name }
    }
}

/// The vanity names of a list of repositories, each once, in the order in
/// which they first appear.
pub open spec fn vanity_names(repos: Seq<RepoInfoModel>) -> Seq<Seq<char>>
    decreases repos.len(),
{
    if repos.len() == 0 {
        Seq::empty()
    } else {
        let before = vanity_names(repos.drop_last());
        if before.contains(repos.last().vanity_name) {
            before
        } else {
            before.push(repos.last().vanity_name)
        }
    }
}

/// The repositories of a list that carry the vanity name `name`, in order.
pub open spec fn members(repos: Seq<RepoInfoModel>, name: Seq<char>) -> Seq<RepoInfoModel> {
    repos.filter(|repo: RepoInfoModel| repo.vanity_name == name)
}

/// The projects of a list of repositories: each vanity name, in the order
/// of first appearance, with the repositories that carry it.
pub open spec fn grouped(repos: Seq<RepoInfoModel>) -> Seq<(Seq<char>, Seq<RepoInfoModel>)> {
    Seq::new(
        vanity_names(repos).len(),
        |i: int| (vanity_names(repos)[i], members(repos, vanity_names(repos)[i])),
    )
}

/// The models of a list of projects.
pub open spec fn group_models(groups: Seq<(String, Vec<RepoInfo>)>) -> Seq<
    (Seq<char>, Seq<RepoInfoModel>),
> {
    Seq::new(groups.len(), |i: int| (groups[i].0@, info_models(groups[i].1@)))
}

/// The vanity names of a list hold no name twice, and a name is among them
/// exactly when a repository of the list carries it.
pub proof fn lemma_vanity_names(repos: Seq<RepoInfoModel>)
    ensures
        vanity_names(repos).no_duplicates(),
        forall|name: Seq<char>| #[trigger]
            vanity_names(repos).contains(name) <==> exists|i: int|
                0 <= i < repos.len() && repos[i].vanity_name == name,
    decreases repos.len(),
{
    if repos.len() > 0 {
        let front = repos.drop_last();
        let last = repos.last().vanity_name;
        let before = vanity_names(front);
        lemma_vanity_names(front);
        let now = vanity_names(repos);
        assert(repos[repos.len() - 1].vanity_name == last);
        if !before.contains(last) {
            assert(now == before.push(last));
            assert(now.no_duplicates()) by {
                assert forall|a: int, b: int| 0 <= a < now.len() && 0 <= b < now.len() && a
                    != b implies now[a] != now[b] by {
                    if a == before.len() {
                        assert(before[b] == now[b]);
                    } else if b == before.len() {
                        assert(before[a] == now[a]);
                    } else {
                        assert(before[a] == now[a] && before[b] == now[b]);
                    }
                }
            }
        }
        assert forall|name: Seq<char>| #[trigger]
            now.contains(name) <==> exists|i: int|
                0 <= i < repos.len() && repos[i].vanity_name == name by {
            if now.contains(name) {
                let j = choose|j: int| 0 <= j < now.len() && now[j] == name;
                if j < before.len() {
                    assert(before[j] == name);
                    assert(before.contains(name));
                    let i = choose|i: int| 0 <= i < front.len() && front[i].vanity_name == name;
                    assert(repos[i].vanity_name == name);
                } else {
                    assert(name == last);
                }
            }
            if exists|i: int| 0 <= i < repos.len() && repos[i].vanity_name == name {
                let i = choose|i: int| 0 <= i < repos.len() && repos[i].vanity_name == name;
                if i < front.len() {
                    assert(front[i].vanity_name == name);
                    assert(before.contains(name));
                    let j = choose|j: int| 0 <= j < before.len() && before[j] == name;
                    assert(now[j] == name);
                } else if before.contains(name) {
                    let j = choose|j: int| 0 <= j < before.len() && before[j] == name;
                    assert(now[j] == name);
                } else {
                    assert(now[before.len() as int] == name);
                }
            }
        }
    }
}

proof fn lemma_members_push(repos: Seq<RepoInfoModel>, repo: RepoInfoModel, name: Seq<char>)
    ensures
        members(repos.push(repo), name) == if repo.vanity_name == name {
            members(repos, name).push(repo)
        } else {
            members(repos, name)
        },
{
    reveal(Seq::filter);
    assert(repos.push(repo).drop_last() =~= repos);
}

/// Groups repositories into projects by vanity name. The projects come in
/// the order in which their names first appear, and the repositories of a
/// project in the order of the list.
pub fn group_repos_by_vanity(repos: &[RepoInfo]) -> (groups: Vec<(String, Vec<RepoInfo>)>)
    ensures
        group_models(groups@) == grouped(info_models(repos@)),
{
    let ghost all = info_models(repos@);
    let mut groups: Vec<(String, Vec<RepoInfo>)> = Vec::new();
    let mut i: usize = 0;
    proof {
        assert(all.take(0) =~= Seq::<RepoInfoModel>::empty());
        assert(group_models(groups@) =~= grouped(all.take(0)));
    }
    while i < repos.len()
        invariant
            i <= repos@.len(),
            all == info_models(repos@),
            group_models(groups@) == grouped(all.take(i as int)),
        decreases repos@.len() - i,
    {
        let repo = &repos[i];
        let ghost seen = all.take(i as int);
        let ghost names = vanity_names(seen);
        let ghost before = groups@;
        let mut at: usize = 0;
        proof {
            assert(group_models(groups@).len() == groups@.len());
            assert(grouped(seen).len() == names.len());
            assert(groups@.len() == names.len());
            assert forall|j: int| 0 <= j < groups@.len() implies (#[trigger] groups@[j]).0@
                == names[j] by {
                assert(group_models(groups@)[j] == grouped(seen)[j]);
            }
        }
        while at < groups.len() && !str_eq(groups[at].0.as_str(), repo.vanity_name.as_str())
            invariant
                at <= groups@.len(),
                groups@.len() == names.len(),
                forall|j: int| 0 <= j < groups@.len() ==> (#[trigger] groups@[j]).0@ == names[j],
                forall|j: int| 0 <= j < at ==> names[j] != repo.vanity_name@,
            decreases groups@.len() - at,
        {
            at += 1;
        }
        let copy = repo.clone();
        if at < groups.len() {
            groups[at].1.push(copy);
        } else {
            let mut list: Vec<RepoInfo> = Vec::new();
            list.push(copy);
            groups.push((repo.vanity_name.clone(), list));
        }
        proof {
            let more = all.take(i + 1);
            let name = repo@.vanity_name;
            assert(seen.push(repo@) =~= more);
            assert(more.drop_last() =~= seen);
            assert(more.last() == repo@);
            lemma_vanity_names(seen);
            if at < before.len() {
                assert(names[at as int] == name);
                assert(names.contains(name));
                assert(vanity_names(more) == names);
                assert(groups@.len() == before.len());
                assert(groups@[at as int].0 == before[at as int].0);
                assert(groups@[at as int].1@ == before[at as int].1@.push(copy));
            } else {
                assert(!names.contains(name));
                assert(vanity_names(more) == names.push(name));
                assert(groups@ == before.push(groups@[at as int]));
                assert(groups@[at as int].0@ == name);
                assert(groups@[at as int].1@ =~= seq![copy]);
            }
            assert(group_models(groups@).len() == groups@.len());
            assert(grouped(more).len() == vanity_names(more).len());
            assert forall|j: int| 0 <= j < vanity_names(more).len() implies group_models(
                groups@,
            )[j] == grouped(more)[j] by {
                lemma_members_push(seen, repo@, vanity_names(more)[j]);
                if j < names.len() {
                    assert(group_models(before)[j] == grouped(seen)[j]);
                    assert(vanity_names(more)[j] == names[j]);
                    if j == at {
                        assert(info_models(groups@[j].1@) =~= info_models(before[j].1@).push(
                            repo@,
                        ));
                    } else {
                        assert(groups@[j] == before[j]);
                        assert(names[j] != name);
                    }
                } else {
                    lemma_members_new(seen, name);
                    assert(info_models(groups@[j].1@) =~= seq![repo@]);
                    assert(members(seen, name).push(repo@) =~= seq![repo@]);
                }
            }
            assert(group_models(groups@) =~= grouped(more));
        }
        i += 1;
    }
    proof {
        assert(all.take(i as int) =~= all);
    }
    groups
}

proof fn lemma_members_new(repos: Seq<RepoInfoModel>, name: Seq<char>)
    requires
        !vanity_names(repos).contains(name),
    ensures
        members(repos, name) == Seq::<RepoInfoModel>::empty(),
    decreases repos.len(),
{
    lemma_vanity_names(repos);
    if repos.len() > 0 {
        let front = repos.drop_last();
        lemma_vanity_names(front);
        assert(repos[repos.len() - 1].vanity_name != name);
        if vanity_names(front).contains(name) {
            let i = choose|i: int| 0 <= i < front.len() && front[i].vanity_name == name;
            assert(repos[i].vanity_name == name);
        }
        lemma_members_new(front, name);
        lemma_members_push(front, repos.last(), name);
        assert(front.push(repos.last()) =~= repos);
    } else {
        reveal(Seq::filter);
    }
}

/// The vanity name of the first repository of a list that lies at `path`,
/// if one does.
pub open spec fn vanity_at(repos: Seq<RepoInfoModel>, path: Seq<char>) -> Option<Seq<char>>
    decreases repos.len(),
{
    if repos.len() == 0 {
        None
    } else if repos[0].path == path {
        Some(repos[0].vanity_name)
    } else {
        vanity_at(repos.drop_first(), path)
    }
}

proof fn lemma_vanity_at_skip(repos: Seq<RepoInfoModel>, path: Seq<char>, n: int)
    requires
        0 <= n <= repos.len(),
        forall|i: int| 0 <= i < n ==> (#[trigger] repos[i]).path != path,
    ensures
        vanity_at(repos, path) == vanity_at(repos.skip(n), path),
    decreases n,
{
    if n > 0 {
        let rest = repos.drop_first();
        assert forall|i: int| 0 <= i < n - 1 implies (#[trigger] rest[i]).path != path by {
            assert(rest[i] == repos[i + 1]);
        }
        lemma_vanity_at_skip(rest, path, n - 1);
        assert(rest.skip(n - 1) =~= repos.skip(n));
        assert(repos[0].path != path);
    } else {
        assert(repos.skip(0) =~= repos);
    }
}

/// Finds the vanity name of the repository at `path`: that of the first
/// repository of the list that lies there.
pub fn find_vanity_name(repos: &[RepoInfo], path: &str) -> (name: Option<String>)
    ensures
        option_text(name) == vanity_at(info_models(repos@), path@),
{
    let ghost all = info_models(repos@);
    let mut i: usize = 0;
    while i < repos.len()
        invariant
            i <= repos@.len(),
            all == info_models(repos@),
            forall|k: int| 0 <= k < i ==> (#[trigger] all[k]).path != path@,
        decreases repos@.len() - i,
    {
        proof {
            lemma_vanity_at_skip(all, path@, i as int);
            assert(all.skip(i as int)[0] == repos@[i as int]@);
        }
        if str_eq(repos[i].path.as_str(), path) {
            return Some(repos[i].vanity_name.clone());
        }
        i += 1;
    }
    proof {
        lemma_vanity_at_skip(all, path@, i as int);
        assert(all.skip(i as int) =~= Seq::<RepoInfoModel>::empty());
    }
    None
}

} // verus!
