//! The episode browser: search, the filtered episode list and its selection, playback state
//! and the player's output. Each operation changes the state and says what the caller must
//! do outside (load a cover, start the player, save the history).

use vstd::prelude::*;

use crate::episode::{Episode, EpisodeStore, Subtitle};
use crate::history::{watched_after, watched_keys, EntryView, History, ItemView};
use crate::outside::{regex_replace_all, regex_replaced};
use crate::url::{clean_url, unescape};
use crate::text::{
    chars_of, contains, contains_exec, decimal, decimal_chars, decimal_string, lowercase, opt_view,
    parse_u32, parse_u32_exec, push_all, string_of, to_lowercase, trim, trim_chars,
};

verus! {

/// A single row in the episode list.
#[derive(Debug)]
pub struct EpisodeRow {
    pub number: u32,
    pub title: String,
    pub watched: bool,
}

/// The view of a row: number, title, watched.
pub open spec fn row_view(r: EpisodeRow) -> (u32, Seq<char>, bool) {
    (r.number, r.title@, r.watched)
}

/// What the caller must do after an operation.
#[derive(Debug)]
pub enum Action {
    /// Load the cover of `episode` in the background (from the cache, else from `url`).
    LoadCover { episode: u32, url: Option<String> },
    /// Show no cover.
    ClearCover,
    /// Start the player on `video`, with `subtitle` as subtitle file if given.
    Play { video: String, subtitle: Option<String> },
    /// Write the history to disk.
    SaveHistory,
}

/// The text of an optional string, empty when absent (`as_deref().unwrap_or("")`).
pub open spec fn or_empty(o: Option<String>) -> Seq<char> {
    match o {
        Some(s) => s@,
        None => Seq::empty(),
    }
}

/// The search query: the search text trimmed and lower-cased.
pub open spec fn search_query(search: Seq<char>) -> Seq<char> {
    lowercase(trim(search))
}

/// Whether an episode is shown for `query`: always for an empty query; otherwise when the query
/// contains the episode's key, or its lower-cased title or summary contains the query.
pub open spec fn entry_matches(query: Seq<char>, key: Seq<char>, e: Episode) -> bool {
    ||| query.len() == 0
    ||| contains(query, key)
    ||| contains(lowercase(or_empty(e.title)), query)
    ||| contains(lowercase(or_empty(e.summary)), query)
}

/// The shown episodes in key order, each as its number (its key read as a number; episodes
/// whose key does not read as one are left out) and its position in the catalogue.
pub open spec fn matched(entries: Seq<(String, Episode)>, query: Seq<char>) -> Seq<(u32, int)>
    decreases entries.len(),
{
    if entries.len() == 0 {
        Seq::empty()
    } else {
        let r = matched(entries.drop_last(), query);
        let e = entries.last();
        if entry_matches(query, e.0@, e.1) && parse_u32(e.0@) is Some {
            r.push((parse_u32(e.0@)->0, entries.len() - 1))
        } else {
            r
        }
    }
}

/// Where `n` goes in a list sorted by number so that it follows every equal number.
pub open spec fn insert_pos(s: Seq<(u32, int)>, n: u32) -> int
    decreases s.len(),
{
    if s.len() == 0 || s[0].0 > n {
        0
    } else {
        1 + insert_pos(s.drop_first(), n)
    }
}

/// `m` sorted by number, equal numbers keeping their order (a stable sort).
pub open spec fn sorted_by_number(m: Seq<(u32, int)>) -> Seq<(u32, int)>
    decreases m.len(),
{
    if m.len() == 0 {
        m
    } else {
        let s = sorted_by_number(m.drop_last());
        s.insert(insert_pos(s, m.last().0), m.last())
    }
}

/// The title shown for an episode: its own, else `Episode {n}`.
pub open spec fn shown_title(title: Option<String>, n: u32) -> Seq<char> {
    match title {
        Some(t) => t@,
        None => "Episode "@ + decimal(n as nat),
    }
}

/// The rows for a search over a catalogue with a history: the shown episodes in ascending
/// number, each with its shown title and whether the history lists it as watched.
pub open spec fn expected_rows(store: EpisodeStore, history: History, search: Seq<char>) -> Seq<(u32, Seq<char>, bool)> {
    sorted_by_number(matched(store.entries(), search_query(search))).map_values(
        |p: (u32, int)| (
            p.0,
            shown_title(store.entries()[p.1].1.title, p.0),
            watched_keys(history.watched_view()).contains(decimal(p.0 as nat)),
        ),
    )
}

/// The browser's state.
pub struct Browser {
    pub episodes: EpisodeStore,
    pub history: History,
    pub rows: Vec<EpisodeRow>,
    pub selected: Option<usize>,
    pub search: String,
    pub search_focused: bool,
    pub current_episode: Option<u32>,
    pub selected_subtitle: Option<usize>,
    pub now_playing: bool,
    pub np_episode: u32,
    pub np_title: String,
    pub np_lines: Vec<String>,
    pub should_quit: bool,
}

impl Browser {
    /// The rows, viewed.
    pub open spec fn rows_view(&self) -> Seq<(u32, Seq<char>, bool)> {
        self.rows@.map_values(|r: EpisodeRow| row_view(r))
    }

    /// Well-formed: the catalogue is sorted, a selection exists exactly when there are rows,
    /// it points at a row, and the current episode is that row's.
    pub open spec fn wf(&self) -> bool {
        &&& self.episodes.wf()
        &&& (self.selected is None <==> self.rows@.len() == 0)
        &&& (self.selected matches Some(i) ==> i < self.rows@.len()
            && self.current_episode == Some(self.rows@[i as int].number))
        &&& (self.rows@.len() == 0 ==> self.current_episode is None)
    }

    /// The list shows the results of the current search, with the first row selected.
    pub open spec fn shows_results(&self) -> bool {
        &&& self.rows_view() == expected_rows(self.episodes, self.history, self.search@)
        &&& if self.rows@.len() == 0 {
            self.selected is None && self.current_episode is None
        } else {
            self.selected == Some(0usize) && self.current_episode == Some(self.rows@[0].number)
        }
    }

    /// The cover action for the current episode: clear it when there is none or the catalogue
    /// lacks it, else load it with the episode's cover URL.
    pub open spec fn is_cover_action(&self, a: Action) -> bool {
        match self.current_episode {
            None => a is ClearCover,
            Some(ep) => if self.episodes@.contains_key(decimal(ep as nat)) {
                a matches Action::LoadCover { episode, url } && episode == ep
                    && opt_view(url) == opt_view(self.episodes@[decimal(ep as nat)].cover)
            } else {
                a is ClearCover
            },
        }
    }

    /// The same state apart from the rows, the selection, the current episode and the chosen
    /// subtitle.
    pub open spec fn same_but_list(&self, other: &Browser) -> bool {
        &&& self.episodes == other.episodes
        &&& self.history == other.history
        &&& self.search == other.search
        &&& self.search_focused == other.search_focused
        &&& self.now_playing == other.now_playing
        &&& self.np_episode == other.np_episode
        &&& self.np_title == other.np_title
        &&& self.np_lines == other.np_lines
        &&& self.should_quit == other.should_quit
    }

    /// A browser over a catalogue and a history, with an empty search and no rows yet.
    pub fn new(episodes: EpisodeStore, history: History) -> (b: Browser)
        requires
            episodes.wf(),
        ensures
            b.wf(),
            b.episodes == episodes,
            b.history == history,
            b.rows@.len() == 0,
            b.search@.len() == 0,
            !b.search_focused && !b.now_playing && !b.should_quit,
            b.selected_subtitle is None,
            b.np_lines@.len() == 0,
            b.np_title@.len() == 0,
            b.np_episode == 0,
    {
        Browser {
            episodes,
            history,
            rows: Vec::new(),
            selected: None,
            search: String::new(),
            search_focused: false,
            current_episode: None,
            selected_subtitle: None,
            now_playing: false,
            np_episode: 0,
            np_title: String::new(),
            np_lines: Vec::new(),
            should_quit: false,
        }
    }

    /// The cover action for the current episode.
    pub fn load_cover(&self) -> (a: Action)
        requires
            self.episodes.wf(),
        ensures
            self.is_cover_action(a),
    {
        match self.current_episode {
            None => Action::ClearCover,
            Some(ep) => {
                let key = decimal_string(ep);
                match self.episodes.get(key.as_str()) {
                    Some(e) => Action::LoadCover { episode: ep, url: clone_opt(&e.cover) },
                    None => Action::ClearCover,
                }
            },
        }
    }
}

/// A copy of an optional string.
pub fn clone_opt(o: &Option<String>) -> (r: Option<String>)
    ensures
        r == *o,
{
    match o {
        Some(s) => Some(s.clone()),
        None => None,
    }
}


/// Number and position pairs, viewed with integer positions.
pub open spec fn pairs_view(v: Seq<(u32, usize)>) -> Seq<(u32, int)> {
    v.map_values(|p: (u32, usize)| (p.0, p.1 as int))
}

/// Whether the lower-cased form of an optional text contains `query`.
fn lower_contains(text: &Option<String>, query: &Vec<char>) -> (b: bool)
    ensures
        b == contains(lowercase(or_empty(*text)), query@),
{
    let lower = match text {
        Some(t) => to_lowercase(t.as_str()),
        None => {
            let empty = String::new();
            to_lowercase(empty.as_str())
        },
    };
    contains_exec(&chars_of(lower.as_str()), query)
}

/// The shown episodes in key order (see `matched`).
fn matched_exec(store: &EpisodeStore, query: &Vec<char>) -> (m: Vec<(u32, usize)>)
    ensures
        pairs_view(m@) == matched(store.entries(), query@),
        forall|j: int| 0 <= j < m@.len() ==> (#[trigger] m@[j]).1 < store.entries().len(),
{
    let n = store.len();
    let mut m: Vec<(u32, usize)> = Vec::new();
    let mut i: usize = 0;
    assert(store.entries().take(0) =~= Seq::<(String, Episode)>::empty());
    while i < n
        invariant
            n == store.entries().len(),
            i <= n,
            pairs_view(m@) == matched(store.entries().take(i as int), query@),
            forall|j: int| 0 <= j < m@.len() ==> (#[trigger] m@[j]).1 < i,
        decreases n - i,
    {
        let ghost prefix = store.entries().take(i + 1);
        assert(prefix.drop_last() =~= store.entries().take(i as int));
        let key = chars_of(store.key_at(i).as_str());
        let e = store.episode_at(i);
        let shown = query.len() == 0 || contains_exec(query, &key) || lower_contains(&e.title, query)
            || lower_contains(&e.summary, query);
        if shown {
            match parse_u32_exec(&key) {
                Some(number) => {
                    m.push((number, i));
                    assert(pairs_view(m@) =~= pairs_view(m@.drop_last()).push((number, i as int)));
                },
                None => {},
            }
        }
        i = i + 1;
    }
    assert(store.entries().take(n as int) =~= store.entries());
    m
}

/// The position of the first pair with a number above `n`.
fn insert_pos_exec(s: &Vec<(u32, usize)>, n: u32) -> (k: usize)
    ensures
        k as int == insert_pos(pairs_view(s@), n),
        k <= s@.len(),
{
    let ghost sv = pairs_view(s@);
    let mut k: usize = 0;
    assert(sv.skip(0) =~= sv);
    while k < s.len() && s[k].0 <= n
        invariant
            k <= s@.len(),
            sv == pairs_view(s@),
            insert_pos(sv, n) == k + insert_pos(sv.skip(k as int), n),
        decreases s.len() - k,
    {
        assert(sv.skip(k as int)[0] == sv[k as int]);
        assert(sv.skip(k as int).drop_first() =~= sv.skip(k + 1));
        k = k + 1;
    }
    if k < s.len() {
        assert(sv.skip(k as int)[0] == sv[k as int]);
    }
    k
}

/// `m` sorted by number, equal numbers keeping their order (see `sorted_by_number`).
fn sort_by_number(m: &Vec<(u32, usize)>) -> (s: Vec<(u32, usize)>)
    ensures
        pairs_view(s@) == sorted_by_number(pairs_view(m@)),
        forall|j: int| 0 <= j < s@.len() ==> exists|i: int| 0 <= i < m@.len() && (#[trigger] s@[j]) == m@[i],
{
    let mut s: Vec<(u32, usize)> = Vec::new();
    let mut i: usize = 0;
    assert(pairs_view(m@).take(0) =~= Seq::<(u32, int)>::empty());
    while i < m.len()
        invariant
            i <= m@.len(),
            pairs_view(s@) == sorted_by_number(pairs_view(m@).take(i as int)),
            forall|j: int| 0 <= j < s@.len() ==> exists|k: int| 0 <= k < m@.len() && (#[trigger] s@[j]) == m@[k],
        decreases m.len() - i,
    {
        let x = m[i];
        let ghost before = s@;
        let pos = insert_pos_exec(&s, x.0);
        s.insert(pos, x);
        proof {
            let t = pairs_view(m@).take(i + 1);
            assert(t.drop_last() =~= pairs_view(m@).take(i as int));
            assert(t.last() == (x.0, x.1 as int));
            assert(pairs_view(s@) =~= pairs_view(before).insert(pos as int, (x.0, x.1 as int)));
            assert forall|j: int| 0 <= j < s@.len() implies exists|k: int| 0 <= k < m@.len() && (#[trigger] s@[j]) == m@[k] by {
                if j < pos {
                    assert(s@[j] == before[j]);
                } else if j == pos {
                    assert(s@[j] == m@[i as int]);
                } else {
                    assert(s@[j] == before[j - 1]);
                }
            }
        }
        i = i + 1;
    }
    assert(pairs_view(m@).take(m@.len() as int) =~= pairs_view(m@));
    s
}

impl Browser {
    /// Rebuilds the list from the search: the shown episodes in ascending number with their
    /// shown titles and watched marks, the first one selected; then asks for its cover.
    pub fn populate_episodes(&mut self) -> (a: Action)
        requires
            old(self).wf(),
        ensures
            final(self).wf(),
            final(self).shows_results(),
            trim(old(self).search@).len() == 0 ==> search_query(old(self).search@).len() == 0,
            final(self).same_but_list(old(self)),
            final(self).selected_subtitle == old(self).selected_subtitle,
            final(self).is_cover_action(a),
    {
        let query = chars_of(to_lowercase(string_of(&trim_chars(&chars_of(self.search.as_str()))).as_str()).as_str());
        let matches = matched_exec(&self.episodes, &query);
        let sorted = sort_by_number(&matches);
        let ghost sp = sorted_by_number(matched(self.episodes.entries(), search_query(self.search@)));
        let ghost expected = expected_rows(self.episodes, self.history, self.search@);
        let mut rows: Vec<EpisodeRow> = Vec::new();
        let mut k: usize = 0;
        while k < sorted.len()
            invariant
                self.episodes.wf(),
                pairs_view(sorted@) == sp,
                sp == sorted_by_number(matched(self.episodes.entries(), search_query(self.search@))),
                expected == expected_rows(self.episodes, self.history, self.search@),
                expected.len() == sp.len(),
                forall|j: int| 0 <= j < sorted@.len() ==> (#[trigger] sorted@[j]).1 < self.episodes.entries().len(),
                k <= sorted@.len(),
                rows@.map_values(|r: EpisodeRow| row_view(r)) == expected.take(k as int),
            decreases sorted.len() - k,
        {
            let (number, at) = sorted[k];
            let e = self.episodes.episode_at(at);
            let title = match &e.title {
                Some(t) => t.clone(),
                None => {
                    let mut v = chars_of("Episode ");
                    push_all(&mut v, &decimal_chars(number));
                    string_of(&v)
                },
            };
            let key = decimal_string(number);
            let watched = self.history.is_watched(key.as_str());
            let ghost before = rows@.map_values(|r: EpisodeRow| row_view(r));
            rows.push(EpisodeRow { number, title, watched });
            proof {
                assert(sp[k as int] == (number, at as int));
                assert(expected[k as int] == (number, shown_title(self.episodes.entries()[at as int].1.title, number), watched_keys(self.history.watched_view()).contains(decimal(number as nat))));
                assert(rows@.map_values(|r: EpisodeRow| row_view(r)) =~= before.push(expected[k as int]));
                assert(expected.take(k + 1) =~= expected.take(k as int).push(expected[k as int]));
            }
            k = k + 1;
        }
        assert(expected.take(k as int) =~= expected);
        self.rows = rows;
        if self.rows.len() == 0 {
            self.current_episode = None;
            self.selected = None;
        } else {
            self.selected = Some(0);
            self.current_episode = Some(self.rows[0].number);
        }
        self.load_cover()
    }
}


/// The position of the first row showing episode `ep`.
pub open spec fn first_row_with(rows: Seq<(u32, Seq<char>, bool)>, ep: u32) -> Option<int>
    decreases rows.len(),
{
    if rows.len() == 0 {
        None
    } else if rows[0].0 == ep {
        Some(0)
    } else {
        match first_row_with(rows.drop_first(), ep) {
            Some(i) => Some(i + 1),
            None => None,
        }
    }
}

/// `first_row_with` gives a row that shows `ep`, and no earlier row does.
pub proof fn lemma_first_row_with(rows: Seq<(u32, Seq<char>, bool)>, ep: u32)
    ensures
        match first_row_with(rows, ep) {
            Some(i) => 0 <= i < rows.len() && rows[i].0 == ep
                && forall|j: int| 0 <= j < i ==> (#[trigger] rows[j]).0 != ep,
            None => forall|j: int| 0 <= j < rows.len() ==> (#[trigger] rows[j]).0 != ep,
        },
    decreases rows.len(),
{
    if rows.len() > 0 && rows[0].0 != ep {
        lemma_first_row_with(rows.drop_first(), ep);
        let t = rows.drop_first();
        match first_row_with(t, ep) {
            Some(i) => {
                assert forall|j: int| 0 <= j < i + 1 implies (#[trigger] rows[j]).0 != ep by {
                    if j > 0 {
                        assert(rows[j] == t[j - 1]);
                    }
                }
            },
            None => {
                assert forall|j: int| 0 <= j < rows.len() implies (#[trigger] rows[j]).0 != ep by {
                    if j > 0 {
                        assert(rows[j] == t[j - 1]);
                    }
                }
            },
        }
    }
}

/// Where the first row showing episode `ep` is.
fn find_row(rows: &Vec<EpisodeRow>, ep: u32) -> (r: Option<usize>)
    ensures
        match r {
            Some(j) => first_row_with(rows@.map_values(|r: EpisodeRow| row_view(r)), ep) == Some(j as int),
            None => first_row_with(rows@.map_values(|r: EpisodeRow| row_view(r)), ep) is None,
        },
{
    let ghost rv = rows@.map_values(|r: EpisodeRow| row_view(r));
    let mut j: usize = 0;
    assert(rv.skip(0) =~= rv);
    while j < rows.len()
        invariant
            j <= rows@.len(),
            rv == rows@.map_values(|r: EpisodeRow| row_view(r)),
            first_row_with(rv, ep) == (match first_row_with(rv.skip(j as int), ep) {
                Some(i) => Some(i + j),
                None => None::<int>,
            }),
        decreases rows.len() - j,
    {
        assert(rv.skip(j as int)[0] == rv[j as int]);
        if rows[j].number == ep {
            return Some(j);
        }
        assert(rv.skip(j as int).drop_first() =~= rv.skip(j + 1));
        j = j + 1;
    }
    None
}

impl Browser {
    /// Everything as in `old` but the selection and the current episode.
    pub open spec fn same_but_selection(&self, old: &Browser) -> bool {
        &&& self.same_but_list(old)
        &&& self.rows == old.rows
        &&& self.selected_subtitle == old.selected_subtitle
    }

    /// The selection moved to row `i`, with a cover action for it.
    pub open spec fn moved_to(&self, old: &Browser, i: int, a: Option<Action>) -> bool {
        &&& self.same_but_selection(old)
        &&& self.selected == Some(i as usize)
        &&& self.current_episode == Some(self.rows@[i].number)
        &&& (a matches Some(x) && self.is_cover_action(x))
    }

    /// Selects episode `ep` if the catalogue holds it and a row shows it: the first such row
    /// becomes the selection, `ep` the current episode, no subtitle is chosen, and its cover is
    /// asked for. Otherwise nothing changes.
    pub fn select_episode(&mut self, ep: u32) -> (a: Option<Action>)
        requires
            old(self).wf(),
        ensures
            final(self).wf(),
            if old(self).episodes@.contains_key(decimal(ep as nat)) && first_row_with(old(self).rows_view(), ep) is Some {
                &&& final(self).same_but_list(old(self))
                &&& final(self).rows == old(self).rows
                &&& final(self).selected == Some(first_row_with(old(self).rows_view(), ep)->0 as usize)
                &&& final(self).current_episode == Some(ep)
                &&& final(self).selected_subtitle is None
                &&& (a matches Some(x) && final(self).is_cover_action(x))
            } else {
                &&& *final(self) == *old(self)
                &&& a is None
            },
    {
        let key = decimal_string(ep);
        if !self.episodes.contains_key(key.as_str()) {
            return None;
        }
        proof {
            lemma_first_row_with(self.rows_view(), ep);
        }
        match find_row(&self.rows, ep) {
            Some(j) => {
                assert(self.rows_view()[j as int].0 == self.rows@[j as int].number);
                self.selected = Some(j);
                self.current_episode = Some(ep);
                self.selected_subtitle = None;
                Some(self.load_cover())
            },
            None => None,
        }
    }

    /// Selects the episode the history names as watched last, when the catalogue holds it;
    /// otherwise episode 1.
    pub fn restore_selection(&mut self) -> (a: Option<Action>)
        requires
            old(self).wf(),
        ensures
            final(self).wf(),
            ({
                let target = match crate::history::last_watched_episode(old(self).history.last_view()) {
                    Some(e) => if old(self).episodes@.contains_key(decimal(e as nat)) { e } else { 1u32 },
                    None => 1u32,
                };
                if old(self).episodes@.contains_key(decimal(target as nat))
                    && first_row_with(old(self).rows_view(), target) is Some {
                    &&& final(self).same_but_list(old(self))
                    &&& final(self).rows == old(self).rows
                    &&& final(self).selected == Some(first_row_with(old(self).rows_view(), target)->0 as usize)
                    &&& final(self).current_episode == Some(target)
                    &&& final(self).selected_subtitle is None
                    &&& (a matches Some(x) && final(self).is_cover_action(x))
                } else {
                    &&& *final(self) == *old(self)
                    &&& a is None
                }
            }),
    {
        match self.history.last_watched_number() {
            Some(ep) => {
                let key = decimal_string(ep);
                if self.episodes.contains_key(key.as_str()) {
                    return self.select_episode(ep);
                }
            },
            None => {},
        }
        self.select_episode(1)
    }

    /// Moves the selection one row up, if there is a row above.
    pub fn move_up(&mut self) -> (a: Option<Action>)
        requires
            old(self).wf(),
        ensures
            final(self).wf(),
            match old(self).selected {
                Some(i) if i > 0 => final(self).moved_to(old(self), i - 1, a),
                _ => *final(self) == *old(self) && a is None,
            },
    {
        let i = match self.selected {
            Some(i) => i,
            None => 0,
        };
        if i > 0 {
            self.selected = Some(i - 1);
            self.current_episode = Some(self.rows[i - 1].number);
            Some(self.load_cover())
        } else {
            None
        }
    }

    /// Moves the selection one row down, if there is a row below.
    pub fn move_down(&mut self) -> (a: Option<Action>)
        requires
            old(self).wf(),
        ensures
            final(self).wf(),
            ({
                let i: int = match old(self).selected {
                    Some(i) => i as int,
                    None => 0,
                };
                if i + 1 < old(self).rows@.len() {
                    final(self).moved_to(old(self), i + 1, a)
                } else {
                    *final(self) == *old(self) && a is None
                }
            }),
    {
        let i = match self.selected {
            Some(i) => i,
            None => 0,
        };
        if self.rows.len() > 0 && i < self.rows.len() - 1 {
            self.selected = Some(i + 1);
            self.current_episode = Some(self.rows[i + 1].number);
            Some(self.load_cover())
        } else {
            None
        }
    }

    /// Moves to the next episode in the list, if there is one (the `n` key).
    pub fn next_episode(&mut self) -> (a: Option<Action>)
        requires
            old(self).wf(),
        ensures
            final(self).wf(),
            ({
                let i: int = match old(self).selected {
                    Some(i) => i as int,
                    None => 0,
                };
                if i + 1 < old(self).rows@.len() {
                    final(self).moved_to(old(self), i + 1, a)
                } else {
                    *final(self) == *old(self) && a is None
                }
            }),
    {
        self.move_down()
    }

    /// The catalogue's record of the current episode, if any.
    pub fn current_data(&self) -> (e: Option<&Episode>)
        requires
            self.episodes.wf(),
        ensures
            match self.current_episode {
                None => e is None,
                Some(ep) => if self.episodes@.contains_key(decimal(ep as nat)) {
                    e matches Some(x) && *x == self.episodes@[decimal(ep as nat)]
                } else {
                    e is None
                },
            },
    {
        match self.current_episode {
            None => None,
            Some(ep) => {
                let key = decimal_string(ep);
                self.episodes.get(key.as_str())
            },
        }
    }

    /// Whether a cover loaded for `episode` is still wanted: it is the current episode.
    pub fn cover_applies(&self, episode: u32) -> (b: bool)
        ensures
            b == (self.current_episode == Some(episode)),
    {
        match self.current_episode {
            Some(ep) => ep == episode,
            None => false,
        }
    }
}


/// The position of the first subtitle marked default that has a file.
pub open spec fn first_default(subs: Seq<Subtitle>) -> Option<int>
    decreases subs.len(),
{
    if subs.len() == 0 {
        None
    } else if subs[0].default && subs[0].file is Some {
        Some(0)
    } else {
        match first_default(subs.drop_first()) {
            Some(i) => Some(i + 1),
            None => None,
        }
    }
}

/// The subtitle played with an episode: the chosen one if it exists, else the first default
/// one that has a file.
pub open spec fn chosen_subtitle(e: Episode, choice: Option<usize>) -> Option<Subtitle> {
    match choice {
        Some(i) if i < e.subtitles@.len() => Some(e.subtitles@[i as int]),
        _ => match first_default(e.subtitles@) {
            Some(i) => Some(e.subtitles@[i]),
            None => None,
        },
    }
}

/// The subtitle file handed to the player: the subtitle's file with escaped slashes undone,
/// when that is not empty.
pub open spec fn subtitle_url(s: Option<Subtitle>) -> Option<Seq<char>> {
    match s {
        Some(sub) => match sub.file {
            Some(f) => if unescape(f@).len() > 0 { Some(unescape(f@)) } else { None },
            None => None,
        },
        None => None,
    }
}

/// The video URL handed to the player: the episode's video with escaped slashes undone, or
/// empty.
pub open spec fn video_url(e: Episode) -> Seq<char> {
    match e.video {
        Some(v) => unescape(v@),
        None => Seq::empty(),
    }
}

/// The last `n` elements of `s` (all of `s` when it has no more than `n`).
pub open spec fn keep_last<T>(s: Seq<T>, n: nat) -> Seq<T> {
    if s.len() > n {
        s.skip(s.len() - n)
    } else {
        s
    }
}

/// The number of player output lines kept.
pub const MAX_PLAYER_LINES: usize = 200;

/// The regular expression for a terminal colour or cursor escape sequence.
pub const ANSI_PATTERN: &'static str = "\\x1b\\[[0-9;]*[A-Za-z]";

/// A line of player output as shown: escape sequences removed (when the pattern compiles),
/// trimmed; an empty result shows nothing.
pub open spec fn shown_player_line(raw: Seq<char>) -> Option<Seq<char>> {
    match regex_replaced(ANSI_PATTERN@, raw, ""@) {
        Some(stripped) => if trim(stripped).len() > 0 { Some(trim(stripped)) } else { None },
        None => None,
    }
}

/// Cleans a line of player output for display (see `shown_player_line`).
pub fn clean_player_line(raw: &str) -> (r: Option<String>)
    ensures
        opt_view(r) == shown_player_line(raw@),
{
    match regex_replace_all(ANSI_PATTERN, raw, "") {
        Some(stripped) => {
            let t = trim_chars(&chars_of(stripped.as_str()));
            if t.len() > 0 {
                Some(string_of(&t))
            } else {
                None
            }
        },
        None => None,
    }
}

/// The text with its last character removed, if any (`String::pop`).
pub open spec fn pop_last(s: Seq<char>) -> Seq<char> {
    if s.len() > 0 {
        s.drop_last()
    } else {
        s
    }
}

/// `c` is a visible ASCII character (`char::is_ascii_graphic`).
pub open spec fn is_ascii_graphic(c: char) -> bool {
    '!' <= c && c <= '~'
}

/// A key press, as the browser reads it.
#[derive(Debug, Clone, Copy, PartialEq, Eq)]
pub enum Key {
    Char(char),
    Esc,
    Enter,
    Backspace,
    Up,
    Down,
    Other,
}

impl Browser {
    /// Everything as in `old` but the player output lines.
    pub open spec fn same_but_lines(&self, old: &Browser) -> bool {
        *self == (Browser { np_lines: self.np_lines, ..*old })
    }

    /// The list was rebuilt for the search text `text`, focus `focused`, with a cover action;
    /// nothing else changed.
    pub open spec fn researched(&self, old: &Browser, text: Seq<char>, focused: bool, a: Option<Action>) -> bool {
        &&& self.search@ == text
        &&& self.search_focused == focused
        &&& self.shows_results()
        &&& self.episodes == old.episodes
        &&& self.history == old.history
        &&& self.selected_subtitle == old.selected_subtitle
        &&& self.now_playing == old.now_playing
        &&& self.np_episode == old.np_episode
        &&& self.np_title == old.np_title
        &&& self.np_lines == old.np_lines
        &&& self.should_quit == old.should_quit
        &&& (a matches Some(x) && self.is_cover_action(x))
    }

    /// What moving up does (see `move_up`).
    pub open spec fn moved_up(&self, old: &Browser, a: Option<Action>) -> bool {
        match old.selected {
            Some(i) if i > 0 => self.moved_to(old, i - 1, a),
            _ => *self == *old && a is None,
        }
    }

    /// What moving down does (see `move_down`).
    pub open spec fn moved_down(&self, old: &Browser, a: Option<Action>) -> bool {
        let i: int = match old.selected {
            Some(i) => i as int,
            None => 0,
        };
        if i + 1 < old.rows@.len() {
            self.moved_to(old, i + 1, a)
        } else {
            *self == *old && a is None
        }
    }

    /// What playing episode `ep` does (see `play_episode`).
    pub open spec fn played(&self, old: &Browser, ep: u32, a: Option<Action>) -> bool {
        let key = decimal(ep as nat);
        if !old.episodes@.contains_key(key) || video_url(old.episodes@[key]).len() == 0 {
            *self == *old && a is None
        } else {
            let e = old.episodes@[key];
            &&& self.now_playing
            &&& self.np_episode == ep
            &&& self.np_title@ == shown_title(e.title, ep)
            &&& self.np_lines@.len() == 0
            &&& self.episodes == old.episodes
            &&& self.history == old.history
            &&& self.rows == old.rows
            &&& self.selected == old.selected
            &&& self.search == old.search
            &&& self.search_focused == old.search_focused
            &&& self.current_episode == old.current_episode
            &&& self.selected_subtitle == old.selected_subtitle
            &&& self.should_quit == old.should_quit
            &&& (a matches Some(Action::Play { video, subtitle }) && video@ == video_url(e)
                && opt_view(subtitle) == subtitle_url(chosen_subtitle(e, old.selected_subtitle)))
        }
    }

    /// Clears the search text and rebuilds the list.
    pub fn clear_search(&mut self) -> (a: Action)
        requires
            old(self).wf(),
        ensures
            final(self).wf(),
            final(self).researched(old(self), Seq::empty(), old(self).search_focused, Some(a)),
    {
        self.search = String::new();
        self.populate_episodes()
    }

    /// Rebuilds the list for the current search text.
    pub fn apply_search(&mut self) -> (a: Action)
        requires
            old(self).wf(),
        ensures
            final(self).wf(),
            final(self).researched(old(self), old(self).search@, old(self).search_focused, Some(a)),
    {
        self.populate_episodes()
    }

    /// Starts playing episode `ep`: when the catalogue holds it and it has a video URL, the
    /// now-playing state is set up and the player is asked for, with the chosen or default
    /// subtitle; otherwise nothing changes.
    pub fn play_episode(&mut self, ep: u32) -> (a: Option<Action>)
        requires
            old(self).wf(),
        ensures
            final(self).wf(),
            final(self).played(old(self), ep, a),
    {
        let key = decimal_string(ep);
        let e = match self.episodes.get(key.as_str()) {
            Some(e) => e,
            None => return None,
        };
        let video = match &e.video {
            Some(v) => clean_url(v.as_str()),
            None => String::new(),
        };
        if video.as_str().is_empty() {
            return None;
        }
        proof {
            lemma_first_default(e.subtitles@);
        }
        let chosen: Option<usize> = match self.selected_subtitle {
            Some(i) if i < e.subtitles.len() => Some(i),
            _ => find_default(&e.subtitles),
        };
        let subtitle = match chosen {
            Some(i) => match &e.subtitles[i].file {
                Some(f) => {
                    let u = clean_url(f.as_str());
                    if u.as_str().is_empty() {
                        None
                    } else {
                        Some(u)
                    }
                },
                None => None,
            },
            None => None,
        };
        let title = match &e.title {
            Some(t) => t.clone(),
            None => {
                let mut v = chars_of("Episode ");
                push_all(&mut v, &decimal_chars(ep));
                string_of(&v)
            },
        };
        self.now_playing = true;
        self.np_episode = ep;
        self.np_title = title;
        self.np_lines = Vec::new();
        Some(Action::Play { video, subtitle })
    }

    /// Records one line of player output, keeping only the most recent 200.
    pub fn on_player_line(&mut self, line: String)
        requires
            old(self).wf(),
        ensures
            final(self).wf(),
            final(self).np_lines@ == keep_last(old(self).np_lines@.push(line), MAX_PLAYER_LINES as nat),
            final(self).np_lines@.len() <= MAX_PLAYER_LINES,
            final(self).same_but_lines(old(self)),
    {
        self.np_lines.push(line);
        let n = self.np_lines.len();
        if n > MAX_PLAYER_LINES {
            let excess = n - MAX_PLAYER_LINES;
            let ghost all = self.np_lines@;
            let mut kept: Vec<String> = Vec::new();
            let mut old_lines = Vec::new();
            std::mem::swap(&mut old_lines, &mut self.np_lines);
            let mut rev: Vec<String> = Vec::new();
            // take the lines out from the back, then put the most recent ones back in order
            while old_lines.len() > excess
                invariant
                    excess <= n,
                    n == all.len(),
                    old_lines@ == all.take(old_lines@.len() as int),
                    excess <= old_lines@.len(),
                    rev@.len() + old_lines@.len() == n,
                    forall|j: int| 0 <= j < rev@.len() ==> #[trigger] rev@[j] == all[n - 1 - j],
                decreases old_lines.len(),
            {
                let l = old_lines.pop().unwrap();
                rev.push(l);
                assert(old_lines@ =~= all.take(old_lines@.len() as int));
            }
            let mut k: usize = 0;
            let m = rev.len();
            while k < m
                invariant
                    m == n - excess,
                    rev@.len() + k == m,
                    n == all.len(),
                    forall|j: int| 0 <= j < rev@.len() ==> #[trigger] rev@[j] == all[n - 1 - j],
                    k <= m,
                    kept@ == all.subrange(excess as int, excess + k),
                decreases m - k,
            {
                let l = rev.pop().unwrap();
                kept.push(l);
                k = k + 1;
                assert(kept@ =~= all.subrange(excess as int, excess + k));
            }
            assert(kept@ =~= all.skip(excess as int));
            self.np_lines = kept;
        }
    }

    /// The player could not be started: its error is shown as a line of output.
    pub fn on_player_launch_failed(&mut self, error: &str)
        requires
            old(self).wf(),
        ensures
            final(self).wf(),
            final(self).np_lines@.len() == old(self).np_lines@.len() + 1,
            final(self).np_lines@.drop_last() == old(self).np_lines@,
            final(self).np_lines@.last()@ == "Failed to launch mpv: "@ + error@,
            final(self).same_but_lines(old(self)),
    {
        let mut v = chars_of("Failed to launch mpv: ");
        push_all(&mut v, &chars_of(error));
        self.np_lines.push(string_of(&v));
    }

    /// The player finished: playback ends, and a real episode is recorded as watched, after
    /// which the history must be saved.
    pub fn on_player_finished(&mut self) -> (a: Option<Action>)
        requires
            old(self).wf(),
        ensures
            final(self).wf(),
            !final(self).now_playing,
            old(self).np_episode > 0 ==> {
                &&& final(self).history.watched_view() == watched_after(
                    old(self).history.watched_view(), decimal(old(self).np_episode as nat))
                &&& final(self).history.last_view() == EntryView::Single(ItemView::Text(decimal(old(self).np_episode as nat)))
                &&& a matches Some(Action::SaveHistory)
            },
            old(self).np_episode == 0 ==> final(self).history == old(self).history && a is None,
            final(self).episodes == old(self).episodes,
            final(self).rows == old(self).rows,
            final(self).selected == old(self).selected,
            final(self).search == old(self).search,
            final(self).search_focused == old(self).search_focused,
            final(self).current_episode == old(self).current_episode,
            final(self).selected_subtitle == old(self).selected_subtitle,
            final(self).np_episode == old(self).np_episode,
            final(self).np_title == old(self).np_title,
            final(self).np_lines == old(self).np_lines,
            final(self).should_quit == old(self).should_quit,
    {
        self.now_playing = false;
        if self.np_episode > 0 {
            let ep = self.np_episode;
            self.history.mark_watched(ep);
            Some(Action::SaveHistory)
        } else {
            None
        }
    }
}

/// `first_default` gives a default subtitle with a file, with none before it; it gives nothing
/// only when no subtitle is default with a file.
pub proof fn lemma_first_default(subs: Seq<Subtitle>)
    ensures
        first_default(subs) matches Some(i) ==> 0 <= i < subs.len() && subs[i].default && subs[i].file is Some
            && forall|j: int| 0 <= j < i ==> !((#[trigger] subs[j]).default && subs[j].file is Some),
        first_default(subs) is None ==> forall|j: int|
            0 <= j < subs.len() ==> !((#[trigger] subs[j]).default && subs[j].file is Some),
    decreases subs.len(),
{
    if subs.len() > 0 && !(subs[0].default && subs[0].file is Some) {
        let rest = subs.drop_first();
        lemma_first_default(rest);
        assert forall|j: int| 0 < j < subs.len() implies subs[j] == rest[j - 1] by {}
    }
}

/// The position of the first default subtitle that has a file.
fn find_default(subs: &Vec<Subtitle>) -> (r: Option<usize>)
    ensures
        match r {
            Some(i) => first_default(subs@) == Some(i as int),
            None => first_default(subs@) is None,
        },
{
    let mut j: usize = 0;
    assert(subs@.skip(0) =~= subs@);
    while j < subs.len()
        invariant
            j <= subs@.len(),
            first_default(subs@) == (match first_default(subs@.skip(j as int)) {
                Some(i) => Some(i + j),
                None => None::<int>,
            }),
        decreases subs.len() - j,
    {
        assert(subs@.skip(j as int)[0] == subs@[j as int]);
        if subs[j].default && subs[j].file.is_some() {
            return Some(j);
        }
        assert(subs@.skip(j as int).drop_first() =~= subs@.skip(j + 1));
        j = j + 1;
    }
    None
}


impl Browser {
    /// Handles a key press. While playing, only `q` counts: it leaves the now-playing screen.
    /// In the search box, characters edit the search (the list follows), Esc clears it and
    /// leaves the box, Enter leaves it, Up and Down move. Otherwise `q` quits, `n` moves to the
    /// next episode, `c` does nothing, another visible character or a space starts a search
    /// with it, Up and Down move, Enter plays the current episode and Esc enters the box.
    pub fn on_key(&mut self, key: Key) -> (a: Option<Action>)
        requires
            old(self).wf(),
        ensures
            final(self).wf(),
            if old(self).now_playing {
                if key == Key::Char('q') {
                    *final(self) == (Browser { now_playing: false, ..*old(self) }) && a is None
                } else {
                    *final(self) == *old(self) && a is None
                }
            } else if old(self).search_focused {
                match key {
                    Key::Esc => final(self).researched(old(self), Seq::empty(), false, a),
                    Key::Enter => *final(self) == (Browser { search_focused: false, ..*old(self) }) && a is None,
                    Key::Backspace => final(self).researched(old(self), pop_last(old(self).search@), true, a),
                    Key::Char(c) => final(self).researched(old(self), old(self).search@.push(c), true, a),
                    Key::Up => final(self).moved_up(old(self), a),
                    Key::Down => final(self).moved_down(old(self), a),
                    Key::Other => *final(self) == *old(self) && a is None,
                }
            } else {
                match key {
                    Key::Char(c) => if c == 'q' {
                        *final(self) == (Browser { should_quit: true, ..*old(self) }) && a is None
                    } else if c == 'n' {
                        final(self).moved_down(old(self), a)
                    } else if c == 'c' {
                        *final(self) == *old(self) && a is None
                    } else if is_ascii_graphic(c) || c == ' ' {
                        final(self).researched(old(self), seq![c], true, a)
                    } else {
                        *final(self) == *old(self) && a is None
                    },
                    Key::Up => final(self).moved_up(old(self), a),
                    Key::Down => final(self).moved_down(old(self), a),
                    Key::Enter => match old(self).current_episode {
                        Some(ep) => final(self).played(old(self), ep, a),
                        None => *final(self) == *old(self) && a is None,
                    },
                    Key::Esc => *final(self) == (Browser { search_focused: true, ..*old(self) }) && a is None,
                    _ => *final(self) == *old(self) && a is None,
                }
            },
    {
        if self.now_playing {
            match key {
                Key::Char(c) => {
                    if c == 'q' {
                        self.now_playing = false;
                    }
                },
                _ => {},
            }
            return None;
        }
        if self.search_focused {
            match key {
                Key::Esc => {
                    self.search_focused = false;
                    Some(self.clear_search())
                },
                Key::Enter => {
                    self.search_focused = false;
                    None
                },
                Key::Backspace => {
                    let text = chars_of(self.search.as_str());
                    let mut kept: Vec<char> = Vec::new();
                    if text.len() > 0 {
                        let mut k: usize = 0;
                        while k + 1 < text.len()
                            invariant
                                text@.len() > 0,
                                k + 1 <= text@.len(),
                                kept@ == text@.take(k as int),
                            decreases text.len() - k,
                        {
                            kept.push(text[k]);
                            k = k + 1;
                            assert(kept@ =~= text@.take(k as int));
                        }
                        assert(kept@ =~= text@.drop_last());
                    } else {
                        assert(kept@ =~= text@);
                    }
                    self.search = string_of(&kept);
                    Some(self.apply_search())
                },
                Key::Char(c) => {
                    let mut text = chars_of(self.search.as_str());
                    text.push(c);
                    self.search = string_of(&text);
                    Some(self.apply_search())
                },
                Key::Up => self.move_up(),
                Key::Down => self.move_down(),
                Key::Other => None,
            }
        } else {
            match key {
                Key::Char(c) => {
                    if c == 'q' {
                        self.should_quit = true;
                        None
                    } else if c == 'n' {
                        self.next_episode()
                    } else if c == 'c' {
                        None
                    } else if ('!' <= c && c <= '~') || c == ' ' {
                        self.search_focused = true;
                        let mut text: Vec<char> = Vec::new();
                        text.push(c);
                        self.search = string_of(&text);
                        Some(self.apply_search())
                    } else {
                        None
                    }
                },
                Key::Up => self.move_up(),
                Key::Down => self.move_down(),
                Key::Enter => match self.current_episode {
                    Some(ep) => self.play_episode(ep),
                    None => None,
                },
                Key::Esc => {
                    self.search_focused = true;
                    None
                },
                _ => None,
            }
        }
    }
}

} // verus!
