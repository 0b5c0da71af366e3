//! Counts keyed by text: the model of a histogram as a finite map, its
//! algebra, and an executable histogram that keeps its keys in the order in
//! which they first appeared.

use vstd::prelude::*;

use crate::text::str_eq;

verus! {

/// The count that `m` holds for `key`; a key that is absent counts zero.
pub open spec fn count_of(m: Map<Seq<char>, nat>, key: Seq<char>) -> nat {
    if m.dom().contains(key) {
        m[key]
    } else {
        0
    }
}

/// The sum of the counts of all keys of `m`.
pub open spec fn sum_values(m: Map<Seq<char>, nat>) -> nat
    decreases m.dom().len(),
    when m.dom().finite()
{
    if m.dom().len() == 0 {
        0
    } else {
        let k = m.dom().choose();
        m[k] + sum_values(m.remove(k))
    }
}

/// The key-wise sum of two histograms: every key of either, with the sum of
/// its two counts.
pub open spec fn merge_counts(a: Map<Seq<char>, nat>, b: Map<Seq<char>, nat>) -> Map<
    Seq<char>,
    nat,
> {
    Map::new(
        |k: Seq<char>| a.dom().contains(k) || b.dom().contains(k),
        |k: Seq<char>| count_of(a, k) + count_of(b, k),
    )
}

/// Whether every count of `m` can be held in a `usize`.
pub open spec fn counts_fit(m: Map<Seq<char>, nat>) -> bool {
    forall|k: Seq<char>| m.dom().contains(k) ==> #[trigger] m[k] <= usize::MAX
}

/// The largest count of `m` is `top`: no key counts more, and some key
/// counts as much unless `top` is zero.
pub open spec fn is_max_count(m: Map<Seq<char>, nat>, top: nat) -> bool {
    &&& forall|k: Seq<char>| m.dom().contains(k) ==> #[trigger] m[k] <= top
    &&& top > 0 ==> exists|k: Seq<char>| m.dom().contains(k) && #[trigger] m[k] == top
}

/// The sum of all counts is the count of any one key plus the sum over the
/// others.
pub proof fn lemma_sum_remove(m: Map<Seq<char>, nat>, key: Seq<char>)
    requires
        m.dom().finite(),
        m.dom().contains(key),
    ensures
        sum_values(m) == m[key] + sum_values(m.remove(key)),
    decreases m.dom().len(),
{
    let c = m.dom().choose();
    if c != key {
        lemma_sum_remove(m.remove(c), key);
        lemma_sum_remove(m.remove(key), c);
        assert(m.remove(c).remove(key) =~= m.remove(key).remove(c));
    }
}

/// Setting the count of one key changes the sum by the difference.
pub proof fn lemma_sum_insert(m: Map<Seq<char>, nat>, key: Seq<char>, value: nat)
    requires
        m.dom().finite(),
    ensures
        sum_values(m.insert(key, value)) + count_of(m, key) == sum_values(m) + value,
{
    let after = m.insert(key, value);
    lemma_sum_remove(after, key);
    assert(after.remove(key) =~= m.remove(key));
    if m.dom().contains(key) {
        lemma_sum_remove(m, key);
    } else {
        assert(m.remove(key) =~= m);
    }
}

/// No count exceeds the sum of all counts.
pub proof fn lemma_count_le_sum(m: Map<Seq<char>, nat>, key: Seq<char>)
    requires
        m.dom().finite(),
    ensures
        count_of(m, key) <= sum_values(m),
{
    if m.dom().contains(key) {
        lemma_sum_remove(m, key);
    }
}

/// Merging is commutative.
pub proof fn lemma_merge_counts_commutative(a: Map<Seq<char>, nat>, b: Map<Seq<char>, nat>)
    ensures
        merge_counts(a, b) == merge_counts(b, a),
{
    assert(merge_counts(a, b) =~= merge_counts(b, a));
}

/// Merging is associative.
pub proof fn lemma_merge_counts_associative(
    a: Map<Seq<char>, nat>,
    b: Map<Seq<char>, nat>,
    c: Map<Seq<char>, nat>,
)
    ensures
        merge_counts(merge_counts(a, b), c) == merge_counts(a, merge_counts(b, c)),
{
    assert(merge_counts(merge_counts(a, b), c) =~= merge_counts(a, merge_counts(b, c)));
}

/// The empty histogram is the unit of merging.
pub proof fn lemma_merge_counts_empty(a: Map<Seq<char>, nat>)
    ensures
        merge_counts(Map::empty(), a) == a,
        merge_counts(a, Map::empty()) == a,
{
    assert(merge_counts(Map::empty(), a) =~= a);
    assert(merge_counts(a, Map::empty()) =~= a);
}

/// The merge of two histograms holds finitely many keys if both do.
pub proof fn lemma_merge_counts_finite(a: Map<Seq<char>, nat>, b: Map<Seq<char>, nat>)
    requires
        a.dom().finite(),
        b.dom().finite(),
    ensures
        merge_counts(a, b).dom().finite(),
{
    assert(merge_counts(a, b).dom() =~= a.dom().union(b.dom()));
}

/// The counts of a merge add up to the sums of the two histograms together.
pub proof fn lemma_sum_merge(a: Map<Seq<char>, nat>, b: Map<Seq<char>, nat>)
    requires
        a.dom().finite(),
        b.dom().finite(),
    ensures
        sum_values(merge_counts(a, b)) == sum_values(a) + sum_values(b),
    decreases a.dom().len(),
{
    if a.dom().len() == 0 {
        assert(a =~= Map::<Seq<char>, nat>::empty());
        lemma_merge_counts_empty(b);
    } else {
        let key = a.dom().choose();
        let rest = a.remove(key);
        let merged = merge_counts(rest, b);
        lemma_sum_merge(rest, b);
        lemma_merge_counts_finite(rest, b);
        lemma_sum_remove(a, key);
        lemma_sum_insert(merged, key, a[key] + count_of(b, key));
        assert(merge_counts(a, b) =~= merged.insert(key, a[key] + count_of(b, key)));
    }
}

/// How often `key` occurs in `keys`.
pub open spec fn occurrences(keys: Seq<Seq<char>>, key: Seq<char>) -> nat
    decreases keys.len(),
{
    if keys.len() == 0 {
        0
    } else {
        occurrences(keys.drop_last(), key) + if keys.last() == key {
            1nat
        } else {
            0nat
        }
    }
}

/// The histogram of a list of keys: each key that occurs, with the number of
/// its occurrences.
pub open spec fn tally(keys: Seq<Seq<char>>) -> Map<Seq<char>, nat> {
    Map::new(|k: Seq<char>| occurrences(keys, k) > 0, |k: Seq<char>| occurrences(keys, k))
}

/// Counting one more key raises the count of that key by one.
pub proof fn lemma_tally_push(keys: Seq<Seq<char>>, key: Seq<char>)
    ensures
        tally(keys.push(key)) == tally(keys).insert(key, count_of(tally(keys), key) + 1),
{
    let more = keys.push(key);
    assert(more.drop_last() =~= keys);
    assert(tally(more) =~= tally(keys).insert(key, count_of(tally(keys), key) + 1));
}

/// The histogram of a list holds finitely many keys, and its counts add up to
/// the length of the list.
pub proof fn lemma_tally_sum(keys: Seq<Seq<char>>)
    ensures
        tally(keys).dom().finite(),
        sum_values(tally(keys)) == keys.len(),
    decreases keys.len(),
{
    if keys.len() == 0 {
        assert(tally(keys) =~= Map::<Seq<char>, nat>::empty());
    } else {
        let front = keys.drop_last();
        lemma_tally_sum(front);
        lemma_tally_push(front, keys.last());
        assert(front.push(keys.last()) =~= keys);
        lemma_sum_insert(tally(front), keys.last(), count_of(tally(front), keys.last()) + 1);
    }
}

/// The histogram of two lists, one after the other, is the merge of their
/// histograms.
pub proof fn lemma_tally_concat(a: Seq<Seq<char>>, b: Seq<Seq<char>>)
    ensures
        tally(a + b) == merge_counts(tally(a), tally(b)),
{
    assert forall|k: Seq<char>| occurrences(a + b, k) == occurrences(a, k) + occurrences(b, k) by {
        lemma_occurrences_concat(a, b, k);
    }
    assert(tally(a + b) =~= merge_counts(tally(a), tally(b)));
}

proof fn lemma_occurrences_concat(a: Seq<Seq<char>>, b: Seq<Seq<char>>, key: Seq<char>)
    ensures
        occurrences(a + b, key) == occurrences(a, key) + occurrences(b, key),
    decreases b.len(),
{
    if b.len() == 0 {
        assert(a + b =~= a);
    } else {
        lemma_occurrences_concat(a, b.drop_last(), key);
        assert((a + b).drop_last() =~= a + b.drop_last());
    }
}

/// A histogram: counts keyed by text. No key is held twice.
#[derive(Debug)]
pub struct Histogram {
    entries: Vec<(String, usize)>,
}

spec fn distinct_keys(entries: Seq<(String, usize)>) -> bool {
    forall|i: int, j: int| 0 <= i < j < entries.len() ==> entries[i].0@ != entries[j].0@
}

spec fn map_of(entries: Seq<(String, usize)>) -> Map<Seq<char>, nat>
    decreases entries.len(),
{
    if entries.len() == 0 {
        Map::empty()
    } else {
        map_of(entries.drop_last()).insert(entries.last().0@, entries.last().1 as nat)
    }
}

proof fn lemma_map_of_bounded(entries: Seq<(String, usize)>)
    ensures
        map_of(entries).dom().finite(),
        counts_fit(map_of(entries)),
        forall|k: Seq<char>| #[trigger]
            map_of(entries).dom().contains(k) ==> exists|i: int|
                0 <= i < entries.len() && entries[i].0@ == k,
    decreases entries.len(),
{
    if entries.len() > 0 {
        let front = entries.drop_last();
        lemma_map_of_bounded(front);
        assert forall|k: Seq<char>| #[trigger] map_of(entries).dom().contains(k) implies exists|
            i: int,
        |
            0 <= i < entries.len() && entries[i].0@ == k by {
            if k == entries.last().0@ {
                assert(entries[entries.len() - 1].0@ == k);
            } else {
                let i = choose|i: int| 0 <= i < front.len() && front[i].0@ == k;
                assert(entries[i].0@ == k);
            }
        }
    }
}

proof fn lemma_map_of_entries(entries: Seq<(String, usize)>)
    requires
        distinct_keys(entries),
    ensures
        map_of(entries).dom().len() == entries.len(),
        forall|i: int|
            0 <= i < entries.len() ==> map_of(entries).dom().contains(#[trigger] entries[i].0@)
                && map_of(entries)[entries[i].0@] == entries[i].1,
    decreases entries.len(),
{
    lemma_map_of_bounded(entries);
    if entries.len() > 0 {
        let front = entries.drop_last();
        let last = entries.last();
        lemma_map_of_entries(front);
        lemma_map_of_bounded(front);
        if map_of(front).dom().contains(last.0@) {
            let i = choose|i: int| 0 <= i < front.len() && front[i].0@ == last.0@;
            assert(entries[i].0@ == entries[entries.len() - 1].0@);
        }
        assert forall|i: int| 0 <= i < entries.len() implies map_of(entries).dom().contains(
            #[trigger] entries[i].0@,
        ) && map_of(entries)[entries[i].0@] == entries[i].1 by {
            if i < front.len() {
                assert(front[i] == entries[i]);
                assert(entries[i].0@ != entries[entries.len() - 1].0@);
            }
        }
    }
}

proof fn lemma_map_of_update(entries: Seq<(String, usize)>, at: int, entry: (String, usize))
    requires
        distinct_keys(entries),
        0 <= at < entries.len(),
        entry.0@ == entries[at].0@,
    ensures
        distinct_keys(entries.update(at, entry)),
        map_of(entries.update(at, entry)) == map_of(entries).insert(entry.0@, entry.1 as nat),
{
    let after = entries.update(at, entry);
    assert(distinct_keys(after)) by {
        assert forall|i: int, j: int| 0 <= i < j < after.len() implies after[i].0@
            != after[j].0@ by {
            assert(after[i].0@ == entries[i].0@);
            assert(after[j].0@ == entries[j].0@);
        }
    }
    lemma_map_of_entries(entries);
    lemma_map_of_entries(after);
    lemma_map_of_bounded(entries);
    lemma_map_of_bounded(after);
    let want = map_of(entries).insert(entry.0@, entry.1 as nat);
    assert forall|k: Seq<char>| map_of(after).dom().contains(k) == want.dom().contains(k) by {
        if map_of(after).dom().contains(k) {
            let i = choose|i: int| 0 <= i < after.len() && after[i].0@ == k;
            assert(entries[i].0@ == k);
        }
        if want.dom().contains(k) && k != entry.0@ {
            let i = choose|i: int| 0 <= i < entries.len() && entries[i].0@ == k;
            assert(after[i].0@ == k);
        }
        if k == entry.0@ {
            assert(after[at].0@ == k);
        }
    }
    assert forall|k: Seq<char>| map_of(after).dom().contains(k) implies map_of(after)[k]
        == want[k] by {
        let i = choose|i: int| 0 <= i < after.len() && after[i].0@ == k;
        assert(after[i].0@ == k);
        if i != at {
            assert(after[i] == entries[i]);
            assert(entries[i].0@ != entries[at].0@);
        }
    }
    assert(map_of(after) =~= want);
}

impl View for Histogram {
    type V = Map<Seq<char>, nat>;

    closed spec fn view(&self) -> Map<Seq<char>, nat> {
        map_of(self.entries@)
    }
}

impl Histogram {
    #[verifier::type_invariant]
    spec fn no_key_twice(&self) -> bool {
        distinct_keys(self.entries@)
    }

    /// A histogram holds finitely many keys, and each count fits in a
    /// `usize`.
    pub proof fn lemma_bounded(&self)
        ensures
            self@.dom().finite(),
            counts_fit(self@),
    {
        lemma_map_of_bounded(self.entries@);
    }

    /// The histogram without any key.
    pub fn new() -> (h: Self)
        ensures
            h@ == Map::<Seq<char>, nat>::empty(),
    {
        Histogram { entries: Vec::new() }
    }

    /// The number of keys.
    pub fn len(&self) -> (n: usize)
        ensures
            n == self@.dom().len(),
    {
        proof {
            use_type_invariant(self);
            lemma_map_of_entries(self.entries@);
        }
        self.entries.len()
    }

    /// Whether the histogram holds no key.
    pub fn is_empty(&self) -> (b: bool)
        ensures
            b == (self@.dom().len() == 0),
            b == (self@ == Map::<Seq<char>, nat>::empty()),
    {
        proof {
            use_type_invariant(self);
            lemma_map_of_entries(self.entries@);
            lemma_map_of_bounded(self.entries@);
            if self.entries@.len() == 0 {
                assert(self@ =~= Map::<Seq<char>, nat>::empty());
            }
        }
        self.entries.len() == 0
    }

    fn position(&self, key: &str) -> (at: usize)
        ensures
            at <= self.entries@.len(),
            at < self.entries@.len() ==> self.entries@[at as int].0@ == key@,
            at == self.entries@.len() ==> !self@.dom().contains(key@),
            at < self.entries@.len() ==> self@.dom().contains(key@) && self@[key@]
                == self.entries@[at as int].1,
    {
        proof {
            use_type_invariant(self);
            lemma_map_of_entries(self.entries@);
            lemma_map_of_bounded(self.entries@);
        }
        let mut at: usize = 0;
        while at < self.entries.len() && !str_eq(self.entries[at].0.as_str(), key)
            invariant
                at <= self.entries@.len(),
                forall|i: int| 0 <= i < at ==> self.entries@[i].0@ != key@,
            decreases self.entries@.len() - at,
        {
            at += 1;
        }
        at
    }

    /// The count of `key`, if the histogram holds the key.
    pub fn get(&self, key: &str) -> (count: Option<usize>)
        ensures
            match count {
                Some(n) => self@.dom().contains(key@) && self@[key@] == n,
                None => !self@.dom().contains(key@),
            },
    {
        let at = self.position(key);
        if at < self.entries.len() {
            Some(self.entries[at].1)
        } else {
            None
        }
    }

    /// Adds `n` to the count of `key`; a key that was absent is entered with
    /// the count `n`.
    pub fn add(&mut self, key: &str, n: usize)
        requires
            count_of(old(self)@, key@) + n <= usize::MAX,
        ensures
            final(self)@ == old(self)@.insert(key@, count_of(old(self)@, key@) + n as nat),
    {
        proof {
            use_type_invariant(&*self);
            lemma_map_of_bounded(self.entries@);
            lemma_map_of_entries(self.entries@);
        }
        let at = self.position(key);
        let mut entries: Vec<(String, usize)> = Vec::new();
        core::mem::swap(&mut self.entries, &mut entries);
        let ghost before = entries@;
        if at < entries.len() {
            let sum: usize = entries[at].1 + n;
            entries[at].1 = sum;
            proof {
                assert(entries@ =~= before.update(at as int, (before[at as int].0, sum)));
                lemma_map_of_update(before, at as int, (before[at as int].0, sum));
            }
        } else {
            entries.push((key.to_owned(), n));
            proof {
                assert(entries@.drop_last() =~= before);
                assert forall|i: int, j: int| 0 <= i < j < entries@.len() implies entries@[i].0@
                    != entries@[j].0@ by {
                    if j == before.len() {
                        assert(before[i].0@ != key@);
                    }
                }
            }
        }
        self.entries = entries;
    }

    /// The keys with their counts. Each key of the histogram comes once.
    pub fn entries(&self) -> (list: Vec<(String, usize)>)
        ensures
            list@.len() == self@.dom().len(),
            forall|i: int|
                0 <= i < list@.len() ==> self@.dom().contains(#[trigger] list@[i].0@)
                    && self@[list@[i].0@] == list@[i].1,
            forall|i: int, j: int| 0 <= i < j < list@.len() ==> list@[i].0@ != list@[j].0@,
            forall|k: Seq<char>| #[trigger]
                self@.dom().contains(k) ==> exists|i: int|
                    0 <= i < list@.len() && list@[i].0@ == k,
    {
        proof {
            use_type_invariant(self);
            lemma_map_of_entries(self.entries@);
            lemma_map_of_bounded(self.entries@);
        }
        let mut list: Vec<(String, usize)> = Vec::new();
        let mut i: usize = 0;
        while i < self.entries.len()
            invariant
                i <= self.entries@.len(),
                list@.len() == i,
                forall|j: int|
                    0 <= j < i ==> (#[trigger] list@[j]).0@ == self.entries@[j].0@ && list@[j].1
                        == self.entries@[j].1,
            decreases self.entries@.len() - i,
        {
            list.push((self.entries[i].0.clone(), self.entries[i].1));
            i += 1;
        }
        proof {
            assert forall|k: Seq<char>| #[trigger] self@.dom().contains(k) implies exists|i: int|
                0 <= i < list@.len() && list@[i].0@ == k by {
                let i = choose|i: int| 0 <= i < self.entries@.len() && self.entries@[i].0@ == k;
                assert(list@[i].0@ == k);
            }
        }
        list
    }

    /// Adds each count of `other` to the count that `self` holds for the
    /// same key. Reports whether every sum fits in a `usize`; when one does
    /// not, what `self` holds afterwards is not determined.
    pub fn absorb(&mut self, other: &Histogram) -> (fits: bool)
        ensures
            fits == counts_fit(merge_counts(old(self)@, other@)),
            fits ==> final(self)@ == merge_counts(old(self)@, other@),
    {
        let ghost orig = self@;
        proof {
            use_type_invariant(other);
            assert(other.entries@.take(0) =~= Seq::<(String, usize)>::empty());
            assert(self@ =~= merge_counts(orig, map_of(other.entries@.take(0))));
        }
        let mut i: usize = 0;
        while i < other.entries.len()
            invariant
                i <= other.entries@.len(),
                distinct_keys(other.entries@),
                orig == old(self)@,
                self@ == merge_counts(orig, map_of(other.entries@.take(i as int))),
            decreases other.entries@.len() - i,
        {
            let key = other.entries[i].0.as_str();
            let n = other.entries[i].1;
            let have = match self.get(key) {
                Some(count) => count,
                None => 0,
            };
            let ghost seen = other.entries@.take(i as int);
            proof {
                lemma_map_of_bounded(seen);
                lemma_map_of_entries(other.entries@);
                if map_of(seen).dom().contains(key@) {
                    let j = choose|j: int| 0 <= j < seen.len() && seen[j].0@ == key@;
                    assert(other.entries@[j].0@ == other.entries@[i as int].0@);
                }
                assert(have == count_of(orig, key@));
            }
            if n > usize::MAX - have {
                proof {
                    let all = merge_counts(orig, other@);
                    assert(all.dom().contains(key@));
                    assert(all[key@] == count_of(orig, key@) + n);
                }
                return false;
            }
            self.add(key, n);
            proof {
                let next = other.entries@.take(i + 1);
                assert(next.drop_last() =~= seen);
                assert(map_of(next) == map_of(seen).insert(key@, n as nat));
                assert(self@ =~= merge_counts(orig, map_of(next)));
            }
            i += 1;
        }
        proof {
            assert(other.entries@.take(i as int) =~= other.entries@);
            self.lemma_bounded();
        }
        true
    }
}

impl Clone for Histogram {
    fn clone(&self) -> (copy: Self)
        ensures
            copy@ == self@,
    {
        proof {
            use_type_invariant(self);
        }
        let mut entries: Vec<(String, usize)> = Vec::new();
        let mut i: usize = 0;
        while i < self.entries.len()
            invariant
                i <= self.entries@.len(),
                entries@ == self.entries@.take(i as int),
            decreases self.entries@.len() - i,
        {
            entries.push((self.entries[i].0.clone(), self.entries[i].1));
            proof {
                assert(entries@ =~= self.entries@.take(i + 1));
            }
            i += 1;
        }
        proof {
            assert(entries@ =~= self.entries@);
        }
        Histogram { entries }
    }
}

} // verus!
