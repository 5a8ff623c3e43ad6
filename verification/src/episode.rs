//! Episode records and the catalogue that holds them, ordered by key.

use vstd::prelude::*;

use crate::text::{chars_of, same_seq};

verus! {

/// A subtitle track offered for an episode.
#[derive(Debug, Clone)]
pub struct Subtitle {
    pub file: Option<String>,
    pub default: bool,
    pub label: Option<String>,
}

/// A single episode's metadata as stored in the episode data file.
#[derive(Debug, Clone)]
pub struct Episode {
    pub page: Option<String>,
    pub video: Option<String>,
    pub subtitles: Vec<Subtitle>,
    pub title: Option<String>,
    pub kind: Option<String>,
    pub air_date: Option<String>,
    pub duration: Option<String>,
    pub source: Option<String>,
    pub audio: Option<String>,
    pub softsub: Option<String>,
    pub summary: Option<String>,
    pub cover: Option<String>,
    pub error: Option<String>,
}

impl Episode {
    /// An episode with every field empty (what `Default` gives).
    pub fn empty() -> (e: Episode)
        ensures
            e.page is None && e.video is None && e.subtitles@.len() == 0 && e.title is None,
            e.kind is None && e.air_date is None && e.duration is None && e.source is None,
            e.audio is None && e.softsub is None && e.summary is None && e.cover is None,
            e.error is None,
    {
        Episode {
            page: None,
            video: None,
            subtitles: Vec::new(),
            title: None,
            kind: None,
            air_date: None,
            duration: None,
            source: None,
            audio: None,
            softsub: None,
            summary: None,
            cover: None,
            error: None,
        }
    }
}

/// `a` sorts strictly before `b`, comparing characters by code point (the order of `String`,
/// whose byte order under UTF-8 is the code point order).
pub open spec fn key_lt(a: Seq<char>, b: Seq<char>) -> bool
    decreases a.len(),
{
    if a.len() == 0 {
        b.len() > 0
    } else if b.len() == 0 {
        false
    } else if a[0] != b[0] {
        a[0] < b[0]
    } else {
        key_lt(a.drop_first(), b.drop_first())
    }
}

/// The key order is irreflexive.
pub proof fn lemma_key_lt_irreflexive(a: Seq<char>)
    ensures
        !key_lt(a, a),
    decreases a.len(),
{
    if a.len() > 0 {
        lemma_key_lt_irreflexive(a.drop_first());
    }
}

/// The key order is transitive.
pub proof fn lemma_key_lt_transitive(a: Seq<char>, b: Seq<char>, c: Seq<char>)
    requires
        key_lt(a, b),
        key_lt(b, c),
    ensures
        key_lt(a, c),
    decreases a.len(),
{
    if a.len() > 0 && b.len() > 0 && c.len() > 0 && a[0] == b[0] && b[0] == c[0] {
        lemma_key_lt_transitive(a.drop_first(), b.drop_first(), c.drop_first());
    }
}

/// Two different keys are ordered one way or the other.
pub proof fn lemma_key_lt_total(a: Seq<char>, b: Seq<char>)
    requires
        a != b,
    ensures
        key_lt(a, b) || key_lt(b, a),
    decreases a.len(),
{
    if a.len() > 0 && b.len() > 0 && a[0] == b[0] {
        if a.drop_first() == b.drop_first() {
            assert(a =~= seq![a[0]] + a.drop_first());
            assert(b =~= seq![b[0]] + b.drop_first());
        }
        lemma_key_lt_total(a.drop_first(), b.drop_first());
    } else if a.len() == 0 && b.len() == 0 {
        assert(a =~= b);
    }
}

/// Whether `a` sorts strictly before `b`.
pub fn key_less(a: &Vec<char>, b: &Vec<char>) -> (r: bool)
    ensures
        r == key_lt(a@, b@),
{
    let mut i: usize = 0;
    assert(a@.skip(0) =~= a@ && b@.skip(0) =~= b@);
    while i < a.len() && i < b.len() && a[i] == b[i]
        invariant
            i <= a.len(),
            i <= b.len(),
            key_lt(a@, b@) == key_lt(a@.skip(i as int), b@.skip(i as int)),
        decreases a.len() - i,
    {
        assert(a@.skip(i as int).drop_first() =~= a@.skip(i + 1));
        assert(b@.skip(i as int).drop_first() =~= b@.skip(i + 1));
        i = i + 1;
    }
    if i == a.len() {
        i < b.len()
    } else if i == b.len() {
        false
    } else {
        assert(a@.skip(i as int)[0] == a@[i as int]);
        assert(b@.skip(i as int)[0] == b@[i as int]);
        a[i] < b[i]
    }
}

/// All episodes, keyed by episode number as written in the data file, kept in key order (the
/// order in which a `BTreeMap<String, Episode>` would list them).
pub struct EpisodeStore {
    entries: Vec<(String, Episode)>,
}

/// The keys of a list of entries.
pub open spec fn entry_keys(entries: Seq<(String, Episode)>) -> Seq<Seq<char>> {
    entries.map_values(|e: (String, Episode)| e.0@)
}

/// Keys in strictly increasing order, hence pairwise distinct.
pub open spec fn strictly_sorted(keys: Seq<Seq<char>>) -> bool {
    forall|i: int, j: int| 0 <= i < j < keys.len() ==> key_lt(#[trigger] keys[i], #[trigger] keys[j])
}

/// `k` is the key of some entry.
pub open spec fn has_key(entries: Seq<(String, Episode)>, k: Seq<char>) -> bool {
    exists|i: int| 0 <= i < entries.len() && #[trigger] entries[i].0@ == k
}

/// A position whose entry has key `k`, when there is one.
pub open spec fn key_index(entries: Seq<(String, Episode)>, k: Seq<char>) -> int {
    choose|i: int| 0 <= i < entries.len() && #[trigger] entries[i].0@ == k
}

/// The map from key to episode that a sorted list of entries stands for.
pub open spec fn entries_map(entries: Seq<(String, Episode)>) -> Map<Seq<char>, Episode> {
    Map::new(|k: Seq<char>| has_key(entries, k), |k: Seq<char>| entries[key_index(entries, k)].1)
}

/// `after` is `before` with `episode` stored under `key`: still well-formed, the map updated at
/// `key`, and the entry list changed in place when the key was there, else grown by the new
/// entry at its sorted position.
pub open spec fn inserted(before: EpisodeStore, after: EpisodeStore, key: String, episode: Episode) -> bool {
    &&& after.wf()
    &&& after@ == before@.insert(key@, episode)
    &&& before@.contains_key(key@) ==> exists|i: int| 0 <= i < before.entries().len()
        && before.entries()[i].0@ == key@
        && after.entries() == before.entries().update(i, (before.entries()[i].0, episode))
    &&& !before@.contains_key(key@) ==> exists|i: int| 0 <= i <= before.entries().len()
        && after.entries() == before.entries().insert(i, (key, episode))
}

impl EpisodeStore {
    /// The entries, in key order.
    pub closed spec fn entries(&self) -> Seq<(String, Episode)> {
        self.entries@
    }

    /// The keys, in order.
    pub open spec fn keys(&self) -> Seq<Seq<char>> {
        entry_keys(self.entries())
    }

    /// The catalogue as a map from key to episode.
    pub open spec fn view(&self) -> Map<Seq<char>, Episode> {
        entries_map(self.entries())
    }

    /// Well-formed: keys strictly increasing.
    pub open spec fn wf(&self) -> bool {
        strictly_sorted(self.keys())
    }

    /// The empty catalogue.
    pub fn new() -> (s: EpisodeStore)
        ensures
            s.wf(),
            s.entries().len() == 0,
    {
        EpisodeStore { entries: Vec::new() }
    }

    /// The number of episodes.
    pub fn len(&self) -> (n: usize)
        ensures
            n == self.entries().len(),
    {
        self.entries.len()
    }

    /// The key of the `i`-th entry in key order.
    pub fn key_at(&self, i: usize) -> (k: &String)
        requires
            i < self.entries().len(),
        ensures
            *k == self.entries()[i as int].0,
    {
        &self.entries[i].0
    }

    /// The episode of the `i`-th entry in key order.
    pub fn episode_at(&self, i: usize) -> (e: &Episode)
        requires
            i < self.entries().len(),
        ensures
            *e == self.entries()[i as int].1,
    {
        &self.entries[i].1
    }

    /// The position of `key`, if the catalogue holds it.
    pub fn find(&self, key: &str) -> (r: Option<usize>)
        ensures
            match r {
                Some(i) => i < self.entries().len() && self.entries()[i as int].0@ == key@,
                None => forall|i: int| 0 <= i < self.entries().len() ==> #[trigger] self.entries()[i].0@ != key@,
            },
    {
        let k = chars_of(key);
        let mut i: usize = 0;
        while i < self.entries.len()
            invariant
                i <= self.entries@.len(),
                k@ == key@,
                forall|j: int| 0 <= j < i ==> #[trigger] self.entries@[j].0@ != key@,
            decreases self.entries.len() - i,
        {
            let c = chars_of(self.entries[i].0.as_str());
            if same_seq(&c, &k) {
                return Some(i);
            }
            i = i + 1;
        }
        None
    }

    /// Whether the catalogue holds `key` (`BTreeMap::contains_key`).
    pub fn contains_key(&self, key: &str) -> (b: bool)
        requires
            self.wf(),
        ensures
            b == self@.contains_key(key@),
    {
        let r = self.find(key);
        proof {
            match r {
                Some(i) => { assert(self.entries()[i as int].0@ == key@); }
                None => {}
            }
        }
        r.is_some()
    }

    /// The episode under `key` (`BTreeMap::get`).
    pub fn get(&self, key: &str) -> (r: Option<&Episode>)
        requires
            self.wf(),
        ensures
            match r {
                Some(e) => self@.contains_key(key@) && *e == self@[key@],
                None => !self@.contains_key(key@),
            },
    {
        match self.find(key) {
            Some(i) => {
                proof {
                    lemma_entry_lookup(self.entries(), i as int);
                }
                Some(&self.entries[i].1)
            }
            None => None,
        }
    }

    /// Puts `episode` in place of the episode of the `i`-th entry, keeping its key, and hands
    /// back the episode it replaces.
    pub fn replace_at(&mut self, i: usize, episode: Episode) -> (prev: Episode)
        requires
            old(self).wf(),
            i < old(self).entries().len(),
        ensures
            final(self).wf(),
            prev == old(self).entries()[i as int].1,
            final(self).entries() == old(self).entries().update(
                i as int,
                (old(self).entries()[i as int].0, episode),
            ),
            final(self)@ == old(self)@.insert(old(self).entries()[i as int].0@, episode),
    {
        let ghost before = self.entries@;
        let (key, prev) = self.entries.remove(i);
        self.entries.insert(i, (key, episode));
        proof {
            assert(self.entries@ =~= before.update(i as int, (before[i as int].0, episode)));
            assert(entry_keys(self.entries@) =~= entry_keys(before));
            lemma_map_after_replace(before, i as int, episode);
        }
        prev
    }

    /// Puts `episode` under `key`, replacing the episode already there (`BTreeMap::insert`).
    pub fn insert(&mut self, key: String, episode: Episode)
        requires
            old(self).wf(),
        ensures
            inserted(*old(self), *final(self), key, episode),
    {
        let k = chars_of(key.as_str());
        let n = self.entries.len();
        let mut i: usize = 0;
        while i < n
            invariant
                n == self.entries@.len(),
                i <= n,
                k@ == key@,
                forall|j: int| 0 <= j < i ==> key_lt(#[trigger] self.entries@[j].0@, key@),
            ensures
                i <= n,
                forall|j: int| 0 <= j < i ==> key_lt(#[trigger] self.entries@[j].0@, key@),
                i < n ==> !key_lt(self.entries@[i as int].0@, key@),
            decreases n - i,
        {
            let c = chars_of(self.entries[i].0.as_str());
            if !key_less(&c, &k) {
                break;
            }
            i = i + 1;
        }
        let ghost before = self.entries@;
        let same = if i < n {
            let c = chars_of(self.entries[i].0.as_str());
            same_seq(&c, &k)
        } else {
            false
        };
        if same {
            let (old_key, _replaced) = self.entries.remove(i);
            self.entries.insert(i, (old_key, episode));
            proof {
                let after = self.entries@;
                assert(after =~= before.update(i as int, (before[i as int].0, episode)));
                assert(entry_keys(after) =~= entry_keys(before));
                lemma_map_after_replace(before, i as int, episode);
                lemma_entry_lookup(before, i as int);
            }
        } else {
            proof {
                if i < n {
                    lemma_key_lt_total(before[i as int].0@, key@);
                }
            }
            self.entries.insert(i, (key, episode));
            proof {
                let after = self.entries@;
                assert(after =~= before.insert(i as int, (key, episode)));
                lemma_insert_sorted(before, i as int, key, episode);
                if entries_map(before).contains_key(key@) {
                    let j = key_index(before, key@);
                    assert(before[j].0@ == key@);
                    if j < i {
                        lemma_key_lt_irreflexive(key@);
                    } else if j == i {
                    } else {
                        assert(entry_keys(before)[i as int] == before[i as int].0@);
                        assert(entry_keys(before)[j] == before[j].0@);
                        assert(key_lt(before[i as int].0@, before[j].0@));
                        lemma_key_lt_transitive(key@, before[i as int].0@, before[j].0@);
                        lemma_key_lt_irreflexive(key@);
                    }
                }
            }
        }
    }
}

/// Replacing the episode of the `i`-th entry changes the map at that key only.
proof fn lemma_map_after_replace(entries: Seq<(String, Episode)>, i: int, episode: Episode)
    requires
        strictly_sorted(entry_keys(entries)),
        0 <= i < entries.len(),
    ensures
        entries_map(entries.update(i, (entries[i].0, episode)))
            == entries_map(entries).insert(entries[i].0@, episode),
{
    let after = entries.update(i, (entries[i].0, episode));
    assert(entry_keys(after) =~= entry_keys(entries));
    let m1 = entries_map(after);
    let m2 = entries_map(entries).insert(entries[i].0@, episode);
    assert forall|k: Seq<char>| m1.contains_key(k) <==> m2.contains_key(k) by {
        if m1.contains_key(k) {
            let j = choose|j: int| 0 <= j < after.len() && #[trigger] after[j].0@ == k;
            assert(entries[j].0@ == k);
        }
        if m2.contains_key(k) && k != entries[i].0@ {
            let j = choose|j: int| 0 <= j < entries.len() && #[trigger] entries[j].0@ == k;
            assert(after[j].0@ == k);
        }
        if k == entries[i].0@ {
            assert(after[i].0@ == k);
        }
    }
    assert forall|k: Seq<char>| m1.contains_key(k) implies m1[k] == m2[k] by {
        let j = choose|j: int| 0 <= j < after.len() && #[trigger] after[j].0@ == k;
        lemma_entry_lookup(after, j);
        if j != i {
            assert(entries[j].0@ == k);
            lemma_entry_lookup(entries, j);
            lemma_key_lt_irreflexive(k);
            let keys = entry_keys(entries);
            assert(keys[i] != keys[j]) by {
                if i < j {
                    assert(key_lt(keys[i], keys[j]));
                } else {
                    assert(key_lt(keys[j], keys[i]));
                }
                lemma_key_lt_irreflexive(keys[i]);
            }
        }
    }
    assert(m1 =~= m2);
}

/// Putting a new key at its place in key order keeps the keys sorted and adds it to the map.
proof fn lemma_insert_sorted(entries: Seq<(String, Episode)>, i: int, key: String, episode: Episode)
    requires
        strictly_sorted(entry_keys(entries)),
        0 <= i <= entries.len(),
        forall|j: int| 0 <= j < i ==> key_lt(#[trigger] entries[j].0@, key@),
        i < entries.len() ==> key_lt(key@, entries[i].0@),
    ensures
        strictly_sorted(entry_keys(entries.insert(i, (key, episode)))),
        entries_map(entries.insert(i, (key, episode))) == entries_map(entries).insert(key@, episode),
{
    let after = entries.insert(i, (key, episode));
    let keys = entry_keys(entries);
    let nk = entry_keys(after);
    assert forall|a: int, b: int| 0 <= a < b < nk.len() implies key_lt(#[trigger] nk[a], #[trigger] nk[b]) by {
        if b < i {
            assert(nk[a] == keys[a] && nk[b] == keys[b]);
        } else if b == i {
            assert(nk[a] == keys[a]);
        } else if a < i {
            assert(nk[a] == keys[a] && nk[b] == keys[b - 1]);
            if b - 1 > i {
                assert(key_lt(keys[i], keys[b - 1]));
                lemma_key_lt_transitive(key@, keys[i], keys[b - 1]);
            }
            lemma_key_lt_transitive(keys[a], key@, keys[b - 1]);
        } else if a == i {
            assert(nk[b] == keys[b - 1]);
            if b - 1 > i {
                assert(key_lt(keys[i], keys[b - 1]));
                lemma_key_lt_transitive(key@, keys[i], keys[b - 1]);
            }
        } else {
            assert(nk[a] == keys[a - 1] && nk[b] == keys[b - 1]);
        }
    }
    let m1 = entries_map(after);
    let m2 = entries_map(entries).insert(key@, episode);
    assert forall|k: Seq<char>| m1.contains_key(k) <==> m2.contains_key(k) by {
        if m1.contains_key(k) {
            let j = choose|j: int| 0 <= j < after.len() && #[trigger] after[j].0@ == k;
            if j < i {
                assert(entries[j].0@ == k);
            } else if j > i {
                assert(entries[j - 1].0@ == k);
            }
        }
        if m2.contains_key(k) && k != key@ {
            let j = choose|j: int| 0 <= j < entries.len() && #[trigger] entries[j].0@ == k;
            if j < i {
                assert(after[j].0@ == k);
            } else {
                assert(after[j + 1].0@ == k);
            }
        }
        if k == key@ {
            assert(after[i].0@ == k);
        }
    }
    assert forall|k: Seq<char>| m1.contains_key(k) implies m1[k] == m2[k] by {
        let j = choose|j: int| 0 <= j < after.len() && #[trigger] after[j].0@ == k;
        lemma_entry_lookup(after, j);
        if j != i {
            let oj = if j < i { j } else { j - 1 };
            assert(entries[oj] == after[j]);
            lemma_entry_lookup(entries, oj);
            assert(nk[j] == k && nk[i] == key@);
            lemma_key_lt_irreflexive(k);
            if j < i {
                assert(key_lt(nk[j], nk[i]));
            } else {
                assert(key_lt(nk[i], nk[j]));
            }
        }
    }
    assert(m1 =~= m2);
}

/// In a list with distinct keys, the map's value under the `i`-th key is the `i`-th episode.
pub proof fn lemma_entry_lookup(entries: Seq<(String, Episode)>, n: int)
    requires
        strictly_sorted(entry_keys(entries)),
        0 <= n < entries.len(),
    ensures
        entries_map(entries).contains_key(entries[n].0@),
        entries_map(entries)[entries[n].0@] == entries[n].1,
{
    let k = entries[n].0@;
    assert(entries_map(entries).dom().contains(k));
    assert(has_key(entries, k));
    let i = key_index(entries, k);
    if i != n {
        let keys = entry_keys(entries);
        assert(keys[i] == k && keys[n] == k);
        lemma_key_lt_irreflexive(k);
        if i < n {
            assert(key_lt(keys[i], keys[n]));
        } else {
            assert(key_lt(keys[n], keys[i]));
        }
    }
    assert(i == n);
}

} // verus!
