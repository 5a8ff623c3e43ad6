//! Properties of the library as a whole, each proved from the functions' own contracts.

use vstd::prelude::*;

use crate::browser::{
    entry_matches, first_default, lemma_first_default, expected_rows, insert_pos, matched, or_empty, pop_last, search_query, sorted_by_number,
    Action, Browser,
};
use crate::episode::{entries_map, inserted, key_index, lemma_entry_lookup, Episode, EpisodeStore};
use crate::paths::{
    cover_file_name, join_path, lemma_cover_file_name_injective, lemma_cover_file_name_relative,
    lemma_join_path_injective, CACHE_DIR,
};
use crate::display::{metadata_parts, part};
use crate::metadata::{first_summary, is_summary, paragraph_text};
use crate::history::{last_watched_episode, watched_after, watched_keys, EntryView, ItemView};
use crate::text::{
    decimal, join, join_position, lemma_join_item, lemma_join_positions, lemma_parse_decimal, lowercase,
    occurs_at, opt_view, parse_u32, trim,
};
use crate::url::{escaped_slash, lemma_unescape_clean, lemma_unescape_idempotent, unescape};
use crate::text::contains;

verus! {

broadcast use vstd::seq_lib::group_to_multiset_ensures;

/// `(n1, i1)` comes strictly before `(n2, i2)`: a smaller number, or the same number at an
/// earlier catalogue position.
pub open spec fn before(a: (u32, int), b: (u32, int)) -> bool {
    a.0 < b.0 || (a.0 == b.0 && a.1 < b.1)
}

/// Strictly ordered by number, then by catalogue position.
pub open spec fn ordered(s: Seq<(u32, int)>) -> bool {
    forall|j: int, k: int| 0 <= j < k < s.len() ==> before(#[trigger] s[j], #[trigger] s[k])
}

/// Catalogue positions strictly increasing.
pub open spec fn positions_increasing(s: Seq<(u32, int)>) -> bool {
    forall|j: int, k: int| 0 <= j < k < s.len() ==> (#[trigger] s[j]).1 < (#[trigger] s[k]).1
}

/// `insert_pos` lands after every number not above `n` and before the first one above it.
proof fn lemma_insert_pos(s: Seq<(u32, int)>, n: u32)
    ensures
        0 <= insert_pos(s, n) <= s.len(),
        forall|j: int| 0 <= j < insert_pos(s, n) ==> (#[trigger] s[j]).0 <= n,
        insert_pos(s, n) < s.len() ==> s[insert_pos(s, n)].0 > n,
    decreases s.len(),
{
    if s.len() > 0 && s[0].0 <= n {
        lemma_insert_pos(s.drop_first(), n);
        assert forall|j: int| 0 <= j < insert_pos(s, n) implies (#[trigger] s[j]).0 <= n by {
            if j > 0 {
                assert(s[j] == s.drop_first()[j - 1]);
            }
        }
    }
}

/// The shown episodes come in increasing catalogue position.
proof fn lemma_matched_positions(entries: Seq<(String, Episode)>, q: Seq<char>)
    ensures
        positions_increasing(matched(entries, q)),
        forall|j: int| 0 <= j < matched(entries, q).len() ==> 0 <= (#[trigger] matched(entries, q)[j]).1 < entries.len(),
    decreases entries.len(),
{
    if entries.len() > 0 {
        lemma_matched_positions(entries.drop_last(), q);
    }
}

/// Sorting keeps the elements, and orders them by number then position when the positions
/// were increasing.
proof fn lemma_sorted(m: Seq<(u32, int)>)
    requires
        positions_increasing(m),
    ensures
        ordered(sorted_by_number(m)),
        sorted_by_number(m).to_multiset() == m.to_multiset(),
        forall|j: int| 0 <= j < sorted_by_number(m).len() ==> m.contains(#[trigger] sorted_by_number(m)[j]),
    decreases m.len(),
{
    if m.len() > 0 {
        let rest = m.drop_last();
        assert(positions_increasing(rest));
        lemma_sorted(rest);
        let s = sorted_by_number(rest);
        let x = m.last();
        let p = insert_pos(s, x.0);
        lemma_insert_pos(s, x.0);
        let t = s.insert(p, x);
        assert(t == sorted_by_number(m));
        // every element already sorted sits at an earlier position than x
        assert forall|j: int| 0 <= j < s.len() implies (#[trigger] s[j]).1 < x.1 by {
            assert(rest.contains(s[j]));
            let k = choose|k: int| 0 <= k < rest.len() && rest[k] == s[j];
            assert(m[k] == rest[k]);
        }
        assert forall|j: int, k: int| 0 <= j < k < t.len() implies before(#[trigger] t[j], #[trigger] t[k]) by {
            if k < p {
                assert(t[j] == s[j] && t[k] == s[k]);
            } else if k == p {
                assert(t[j] == s[j]);
            } else if j < p {
                assert(t[j] == s[j] && t[k] == s[k - 1]);
                if k - 1 > p {
                    assert(before(s[p], s[k - 1]));
                }
            } else if j == p {
                assert(t[k] == s[k - 1]);
                if k - 1 > p {
                    assert(before(s[p], s[k - 1]));
                }
            } else {
                assert(t[j] == s[j - 1] && t[k] == s[k - 1]);
            }
        }
        vstd::seq_lib::to_multiset_insert(s, p, x);
        vstd::seq_lib::to_multiset_build(rest, x);
        assert(rest.push(x) =~= m);
        assert forall|j: int| 0 <= j < t.len() implies m.contains(#[trigger] t[j]) by {
            if j < p {
                assert(rest.contains(s[j]));
                let k = choose|k: int| 0 <= k < rest.len() && rest[k] == s[j];
                assert(m[k] == s[j]);
            } else if j == p {
                assert(m[m.len() - 1] == x);
            } else {
                assert(t[j] == s[j - 1]);
                assert(rest.contains(s[j - 1]));
                let k = choose|k: int| 0 <= k < rest.len() && rest[k] == s[j - 1];
                assert(m[k] == s[j - 1]);
            }
        }
    }
}

/// The list is in ascending episode number; episodes with the same number keep their key
/// order; and it holds each shown episode exactly once.
pub proof fn law_rows_sorted_and_complete(store: EpisodeStore, search: Seq<char>)
    ensures
        ordered(sorted_by_number(matched(store.entries(), search_query(search)))),
        sorted_by_number(matched(store.entries(), search_query(search))).to_multiset()
            == matched(store.entries(), search_query(search)).to_multiset(),
{
    lemma_matched_positions(store.entries(), search_query(search));
    lemma_sorted(matched(store.entries(), search_query(search)));
}

/// Clean URLs stay clean: collapsing escaped slashes twice is collapsing them once, and leaves
/// none behind.
pub proof fn law_clean_url_idempotent(url: Seq<char>)
    ensures
        unescape(unescape(url)) == unescape(url),
        !contains(unescape(url), escaped_slash()),
{
    lemma_unescape_idempotent(url);
    lemma_unescape_clean(url);
}

/// Reading back the key under which an episode is stored gives its number:
/// `n.to_string().parse() == Ok(n)`.
pub proof fn law_key_roundtrip(n: u32)
    ensures
        parse_u32(decimal(n as nat)) == Some(n),
{
    lemma_parse_decimal(n);
}

/// After an episode is marked watched, the history names it as the one watched last (so the
/// next start selects it), and it is listed as watched unless `watched` holds a non-list value.
pub proof fn law_marked_episode_is_restored(watched: EntryView, episode: u32)
    ensures
        last_watched_episode(EntryView::Single(ItemView::Text(decimal(episode as nat)))) == Some(episode),
        !(watched is Single) ==> watched_keys(watched_after(watched, decimal(episode as nat))).contains(
            decimal(episode as nat),
        ),
{
    lemma_parse_decimal(episode);
    let k = decimal(episode as nat);
    match watched {
        EntryView::Missing => {
            assert(seq![ItemView::Text(k)][0] == ItemView::Text(k));
        },
        EntryView::List(items) => {
            if items.contains(ItemView::Text(k)) {
                let i = choose|i: int| 0 <= i < items.len() && items[i] == ItemView::Text(k);
                assert(items[i] == ItemView::Text(k));
            } else {
                assert(items.push(ItemView::Text(k))[items.len() as int] == ItemView::Text(k));
            }
        },
        EntryView::Single(_) => {},
    }
}

/// Marking the same episode watched twice leaves the list as marking it once: no duplicates.
pub proof fn law_mark_watched_idempotent(watched: EntryView, key: Seq<char>)
    ensures
        watched_after(watched_after(watched, key), key) == watched_after(watched, key),
{
    match watched {
        EntryView::Missing => {
            assert(seq![ItemView::Text(key)].contains(ItemView::Text(key))) by {
                assert(seq![ItemView::Text(key)][0] == ItemView::Text(key));
            }
        },
        EntryView::List(items) => {
            if !items.contains(ItemView::Text(key)) {
                assert(items.push(ItemView::Text(key))[items.len() as int] == ItemView::Text(key));
            }
        },
        EntryView::Single(_) => {},
    }
}

/// Storing an episode under a key and then looking the key up gives that episode; other keys
/// keep theirs, and the catalogue grows by one entry exactly when the key was new.
pub proof fn law_get_after_insert(before: EpisodeStore, after: EpisodeStore, key: String, e: Episode, other: Seq<char>)
    requires
        before.wf(),
        inserted(before, after, key, e),
    ensures
        after.wf(),
        after@.contains_key(key@),
        after@[key@] == e,
        other != key@ ==> (after@.contains_key(other) == before@.contains_key(other)),
        other != key@ && before@.contains_key(other) ==> after@[other] == before@[other],
        after.entries().len() == before.entries().len() + (if before@.contains_key(key@) { 0int } else { 1int }),
{
}

/// Different episodes get different cached cover paths, whatever the data directory.
pub proof fn law_cover_paths_distinct(dir: Seq<char>, e1: u32, e2: u32)
    requires
        e1 != e2,
    ensures
        join_path(join_path(dir, CACHE_DIR@), cover_file_name(e1))
            != join_path(join_path(dir, CACHE_DIR@), cover_file_name(e2)),
{
    let base = join_path(dir, CACHE_DIR@);
    lemma_cover_file_name_relative(e1);
    lemma_cover_file_name_relative(e2);
    if join_path(base, cover_file_name(e1)) == join_path(base, cover_file_name(e2)) {
        lemma_join_path_injective(base, cover_file_name(e1), cover_file_name(e2));
        lemma_cover_file_name_injective(e1, e2);
    }
}

/// Moving down and then up comes back to the same row and episode.
pub proof fn law_down_then_up(b0: Browser, b1: Browser, b2: Browser, a1: Option<Action>, a2: Option<Action>)
    requires
        b0.wf(),
        b1.wf(),
        b0.rows@.len() <= usize::MAX,
        b1.moved_down(&b0, a1),
        b2.moved_up(&b1, a2),
        b1 != b0,
    ensures
        b2.selected == b0.selected,
        b2.current_episode == b0.current_episode,
        b2.rows == b0.rows,
{
    let i: int = match b0.selected {
        Some(i) => i as int,
        None => 0,
    };
    assert(i + 1 < b0.rows@.len());
    assert(b0.selected is Some);
    assert(b1.selected == Some((i + 1) as usize));
    assert(b2.selected == Some(i as usize));
}

/// Typing a character into the search and erasing it again shows the same list as before.
pub proof fn law_type_then_erase(b0: Browser, b1: Browser, b2: Browser, c: char, a1: Option<Action>, a2: Option<Action>)
    requires
        b1.researched(&b0, b0.search@.push(c), true, a1),
        b2.researched(&b1, pop_last(b1.search@), true, a2),
    ensures
        b2.search@ == b0.search@,
        b2.rows_view() == expected_rows(b0.episodes, b0.history, b0.search@),
{
    assert(b0.search@.push(c).drop_last() =~= b0.search@);
}

/// An episode that matches the query and whose key reads as a number is among the shown ones.
proof fn lemma_matching_entry_shown(entries: Seq<(String, Episode)>, q: Seq<char>, i: int)
    requires
        0 <= i < entries.len(),
        entry_matches(q, entries[i].0@, entries[i].1),
        parse_u32(entries[i].0@) is Some,
    ensures
        matched(entries, q).contains((parse_u32(entries[i].0@)->0, i)),
    decreases entries.len(),
{
    let m = matched(entries, q);
    if i == entries.len() - 1 {
        assert(m[m.len() - 1] == (parse_u32(entries[i].0@)->0, i));
    } else {
        let rest = entries.drop_last();
        assert(rest[i] == entries[i]);
        lemma_matching_entry_shown(rest, q, i);
        let r = matched(rest, q);
        let k = choose|k: int| 0 <= k < r.len() && r[k] == (parse_u32(entries[i].0@)->0, i);
        assert(m[k] == r[k]);
    }
}

/// Each shown episode matches the query, and its number is its key read as a number.
proof fn lemma_shown_entries_match(entries: Seq<(String, Episode)>, q: Seq<char>)
    ensures
        forall|j: int| 0 <= j < matched(entries, q).len() ==> {
            let p = #[trigger] matched(entries, q)[j];
            &&& 0 <= p.1 < entries.len()
            &&& entry_matches(q, entries[p.1].0@, entries[p.1].1)
            &&& parse_u32(entries[p.1].0@) == Some(p.0)
        },
    decreases entries.len(),
{
    if entries.len() > 0 {
        let rest = entries.drop_last();
        lemma_shown_entries_match(rest, q);
        let m = matched(entries, q);
        let r = matched(rest, q);
        assert forall|j: int| 0 <= j < m.len() implies {
            let p = #[trigger] m[j];
            &&& 0 <= p.1 < entries.len()
            &&& entry_matches(q, entries[p.1].0@, entries[p.1].1)
            &&& parse_u32(entries[p.1].0@) == Some(p.0)
        } by {
            if j < r.len() {
                assert(m[j] == r[j]);
                assert(entries[r[j].1] == rest[r[j].1]);
            }
        }
    }
}

/// An empty search query shows every episode whose key reads as a number.
pub proof fn law_empty_query_shows_all(store: EpisodeStore, search: Seq<char>, i: int)
    requires
        search_query(search).len() == 0,
        0 <= i < store.entries().len(),
        parse_u32(store.entries()[i].0@) is Some,
    ensures
        matched(store.entries(), search_query(search)).contains((parse_u32(store.entries()[i].0@)->0, i)),
        sorted_by_number(matched(store.entries(), search_query(search))).contains(
            (parse_u32(store.entries()[i].0@)->0, i),
        ),
{
    lemma_matching_entry_shown(store.entries(), search_query(search), i);
    law_rows_sorted_and_complete(store, search);
    let m = matched(store.entries(), search_query(search));
    let x = (parse_u32(store.entries()[i].0@)->0, i);
    assert(m.to_multiset().count(x) > 0);
    assert(sorted_by_number(m).to_multiset().count(x) > 0);
}

/// Whatever the search, an episode is listed when its key reads as a number and the search,
/// trimmed and lower-cased, is empty, holds the key, or occurs in the episode's lower-cased
/// title or in its lower-cased summary.
pub proof fn law_search_shows_every_hit(b: Browser, key: Seq<char>)
    requires
        b.episodes.wf(),
        b.shows_results(),
        b.episodes@.contains_key(key),
        parse_u32(key) is Some,
        ({
            let q = lowercase(trim(b.search@));
            let e = b.episodes@[key];
            ||| q.len() == 0
            ||| contains(q, key)
            ||| contains(lowercase(or_empty(e.title)), q)
            ||| contains(lowercase(or_empty(e.summary)), q)
        }),
    ensures
        exists|j: int| 0 <= j < b.rows_view().len() && (#[trigger] b.rows_view()[j]).0 == parse_u32(key)->0,
{
    let entries = b.episodes.entries();
    let q = search_query(b.search@);
    assert(entries_map(entries).dom().contains(key));
    let i = key_index(entries, key);
    lemma_entry_lookup(entries, i);
    lemma_matching_entry_shown(entries, q, i);
    law_rows_sorted_and_complete(b.episodes, b.search@);
    let m = matched(entries, q);
    let s = sorted_by_number(m);
    let x = (parse_u32(key)->0, i);
    assert(m.to_multiset().count(x) > 0);
    assert(s.to_multiset().count(x) > 0);
    assert(s.contains(x));
    let j = choose|j: int| 0 <= j < s.len() && s[j] == x;
    assert(b.rows_view()[j] == expected_rows(b.episodes, b.history, b.search@)[j]);
}

/// Whatever the search, every listed row is an episode of the catalogue whose key reads as the
/// row's number and for which the search, trimmed and lower-cased, is empty, holds the key, or
/// occurs in its lower-cased title or summary.
pub proof fn law_search_shows_only_hits(b: Browser, j: int)
    requires
        b.episodes.wf(),
        b.shows_results(),
        0 <= j < b.rows_view().len(),
    ensures
        exists|key: Seq<char>| {
            let q = lowercase(trim(b.search@));
            let e = b.episodes@[key];
            &&& #[trigger] b.episodes@.contains_key(key)
            &&& parse_u32(key) == Some(b.rows_view()[j].0)
            &&& (q.len() == 0 || contains(q, key) || contains(lowercase(or_empty(e.title)), q)
                || contains(lowercase(or_empty(e.summary)), q))
        },
{
    let entries = b.episodes.entries();
    let q = search_query(b.search@);
    let m = matched(entries, q);
    lemma_matched_positions(entries, q);
    lemma_sorted(m);
    lemma_shown_entries_match(entries, q);
    let s = sorted_by_number(m);
    assert(b.rows_view()[j] == expected_rows(b.episodes, b.history, b.search@)[j]);
    assert(m.contains(s[j]));
    let k = choose|k: int| 0 <= k < m.len() && m[k] == s[j];
    let p = m[k];
    lemma_entry_lookup(entries, p.1);
    let key = entries[p.1].0@;
    assert(b.episodes@.contains_key(key));
}

/// A listed row is marked watched exactly when the history's `watched` entry is a list that
/// holds the row's number as a string.
pub proof fn law_rows_marked_watched(b: Browser, j: int)
    requires
        b.shows_results(),
        0 <= j < b.rows_view().len(),
    ensures
        b.rows_view()[j].2 <==> (b.history.watched_view() matches EntryView::List(items)
            && items.contains(ItemView::Text(decimal(b.rows_view()[j].0 as nat)))),
{
    assert(b.rows_view()[j] == expected_rows(b.episodes, b.history, b.search@)[j]);
    let k = decimal(b.rows_view()[j].0 as nat);
    match b.history.watched_view() {
        EntryView::List(items) => {
            if items.contains(ItemView::Text(k)) {
                let i = choose|i: int| 0 <= i < items.len() && items[i] == ItemView::Text(k);
                assert(watched_keys(b.history.watched_view()).contains(k));
            }
        },
        _ => {},
    }
}

/// Playing an episode without a subtitle chosen (or with a choice beyond its list) hands the
/// player the file of its first subtitle marked default that has a file, escaped slashes
/// undone (none if that comes out empty); no subtitle when none is default with a file.
pub proof fn law_play_uses_first_default_subtitle(b0: Browser, b1: Browser, ep: u32, a: Option<Action>)
    requires
        b1.played(&b0, ep, a),
        b0.episodes@.contains_key(decimal(ep as nat)),
        !(b0.selected_subtitle matches Some(i) && i < b0.episodes@[decimal(ep as nat)].subtitles@.len()),
    ensures
        a matches Some(Action::Play { video, subtitle }) ==> {
            let subs = b0.episodes@[decimal(ep as nat)].subtitles@;
            if exists|k: int| 0 <= k < subs.len() && (#[trigger] subs[k]).default && subs[k].file is Some {
                exists|k: int| {
                    &&& 0 <= k < subs.len()
                    &&& (#[trigger] subs[k]).default
                    &&& subs[k].file is Some
                    &&& forall|j: int| 0 <= j < k ==> !((#[trigger] subs[j]).default && subs[j].file is Some)
                    &&& opt_view(subtitle) == (if unescape(subs[k].file->0@).len() > 0 {
                        Some(unescape(subs[k].file->0@))
                    } else {
                        None
                    })
                }
            } else {
                subtitle is None
            }
        },
{
    let subs = b0.episodes@[decimal(ep as nat)].subtitles@;
    lemma_first_default(subs);
    match first_default(subs) {
        Some(k) => {
            assert(subs[k].default);
        },
        None => {},
    }
}

/// The summary read off a page is the text of a paragraph fit to be one, with no fitting
/// paragraph before it; there is none only when no paragraph fits.
pub proof fn law_summary_is_first_fitting_paragraph(paragraphs: Seq<Seq<Seq<char>>>, summary: Option<Seq<char>>)
    requires
        summary == first_summary(paragraphs),
    ensures
        summary matches Some(s) ==> exists|k: int| {
            &&& 0 <= k < paragraphs.len()
            &&& is_summary(paragraph_text(#[trigger] paragraphs[k]))
            &&& s == paragraph_text(paragraphs[k])
            &&& forall|j: int| 0 <= j < k ==> !is_summary(paragraph_text(#[trigger] paragraphs[j]))
        },
        summary is None ==> forall|k: int| 0 <= k < paragraphs.len() ==> !is_summary(paragraph_text(#[trigger] paragraphs[k])),
    decreases paragraphs.len(),
{
    if paragraphs.len() > 0 && !is_summary(paragraph_text(paragraphs[0])) {
        let rest = paragraphs.drop_first();
        law_summary_is_first_fitting_paragraph(rest, first_summary(rest));
        assert forall|k: int| 0 < k < paragraphs.len() implies paragraphs[k] == rest[k - 1] by {}
        match summary {
            Some(s) => {
                let k = choose|k: int| {
                    &&& 0 <= k < rest.len()
                    &&& is_summary(paragraph_text(#[trigger] rest[k]))
                    &&& s == paragraph_text(rest[k])
                    &&& forall|j: int| 0 <= j < k ==> !is_summary(paragraph_text(#[trigger] rest[j]))
                };
                assert(paragraphs[k + 1] == rest[k]);
                assert forall|j: int| 0 <= j < k + 1 implies !is_summary(paragraph_text(#[trigger] paragraphs[j])) by {
                    if j > 0 {
                        assert(paragraphs[j] == rest[j - 1]);
                    }
                }
            },
            None => {},
        }
    } else if paragraphs.len() > 0 {
        assert(is_summary(paragraph_text(paragraphs[0])));
    }
}

/// A field of the metadata line as shown: `prefix` and the value, when the value is given.
pub open spec fn shown_field(o: Option<String>, prefix: Seq<char>) -> Option<Seq<char>> {
    match o {
        Some(v) => Some(prefix + v@),
        None => None,
    }
}

/// The fields of an episode's metadata line in the order they are shown: type, air date,
/// duration, source, `Audio: ` and the audio, `CC: ` and the softsub.
pub open spec fn metadata_fields(e: Episode) -> Seq<Option<Seq<char>>> {
    seq![
        shown_field(e.kind, Seq::empty()),
        shown_field(e.air_date, Seq::empty()),
        shown_field(e.duration, Seq::empty()),
        shown_field(e.source, Seq::empty()),
        shown_field(e.audio, "Audio: "@),
        shown_field(e.softsub, "CC: "@),
    ]
}

/// The given fields, in order.
spec fn given(f: Seq<Option<Seq<char>>>) -> Seq<Seq<char>>
    decreases f.len(),
{
    if f.len() == 0 {
        Seq::empty()
    } else {
        given(f.drop_last()) + match f.last() {
            Some(x) => seq![x],
            None => Seq::empty(),
        }
    }
}

/// The given fields among the first `k` come first among all given fields.
proof fn lemma_given_prefix(f: Seq<Option<Seq<char>>>, k: int)
    requires
        0 <= k <= f.len(),
    ensures
        given(f.take(k)).len() <= given(f).len(),
        forall|t: int| 0 <= t < given(f.take(k)).len() ==> #[trigger] given(f)[t] == given(f.take(k))[t],
    decreases f.len(),
{
    if k == f.len() {
        assert(f.take(k) =~= f);
    } else {
        let r = f.drop_last();
        lemma_given_prefix(r, k);
        assert(r.take(k) =~= f.take(k));
    }
}

/// A given field sits in the list of given fields after the given fields before it.
proof fn lemma_given_index(f: Seq<Option<Seq<char>>>, i: int)
    requires
        0 <= i < f.len(),
        f[i] is Some,
    ensures
        given(f.take(i)).len() < given(f).len(),
        given(f)[given(f.take(i)).len() as int] == f[i]->0,
        given(f.take(i + 1)).len() == given(f.take(i)).len() + 1,
{
    let t = f.take(i + 1);
    assert(t.drop_last() =~= f.take(i));
    lemma_given_prefix(f, i + 1);
}

/// The metadata line's pieces are the given fields, in order.
proof fn lemma_metadata_parts_given(e: Episode)
    ensures
        metadata_parts(e) == given(metadata_fields(e)),
{
    let f = metadata_fields(e);
    assert(f.take(0) =~= Seq::<Option<Seq<char>>>::empty());
    assert forall|k: int| 1 <= k <= 6 implies #[trigger] f.take(k).drop_last() =~= f.take(k - 1) by {}
    assert(f.take(6) =~= f);
    let parts = seq![
        part(e.kind, Seq::empty()),
        part(e.air_date, Seq::empty()),
        part(e.duration, Seq::empty()),
        part(e.source, Seq::empty()),
        part(e.audio, "Audio: "@),
        part(e.softsub, "CC: "@),
    ];
    assert forall|k: int| 0 <= k < 6 implies (match #[trigger] f[k] {
        Some(x) => seq![x],
        None => Seq::<Seq<char>>::empty(),
    }) == parts[k] by {}
    assert forall|k: int| 0 <= k < 6 implies #[trigger] given(f.take(k + 1)) == given(f.take(k)) + parts[k] by {
        assert(f.take(k + 1).drop_last() =~= f.take(k));
        assert(f.take(k + 1).last() == f[k]);
    }
    assert(given(f.take(0)) == Seq::<Seq<char>>::empty());
    assert(given(f.take(1)) =~= parts[0]);
    assert(given(f.take(2)) =~= parts[0] + parts[1]);
    assert(given(f.take(3)) =~= parts[0] + parts[1] + parts[2]);
    assert(given(f.take(4)) =~= parts[0] + parts[1] + parts[2] + parts[3]);
    assert(given(f.take(5)) =~= parts[0] + parts[1] + parts[2] + parts[3] + parts[4]);
    assert(given(f.take(6)) =~= parts[0] + parts[1] + parts[2] + parts[3] + parts[4] + parts[5]);
}

/// The metadata line of an episode (`detail_metadata`) shows each of its given fields, and
/// shows them in order: type, air date, duration, source, audio, softsub. An episode with none
/// of them gives an empty line.
pub proof fn law_metadata_line_shows_fields_in_order(e: Episode, line: Seq<char>)
    requires
        line == join(metadata_parts(e), " • "@),
    ensures
        forall|i: int| 0 <= i < 6 && (#[trigger] metadata_fields(e)[i]) is Some ==> contains(line, metadata_fields(e)[i]->0),
        forall|i: int, j: int| 0 <= i < j < 6 && (#[trigger] metadata_fields(e)[i]) is Some
            && (#[trigger] metadata_fields(e)[j]) is Some ==> exists|p: int, q: int| p < q
                && occurs_at(line, metadata_fields(e)[i]->0, p) && occurs_at(line, metadata_fields(e)[j]->0, q),
        (forall|i: int| 0 <= i < 6 ==> (#[trigger] metadata_fields(e)[i]) is None) ==> line.len() == 0,
{
    let f = metadata_fields(e);
    let sep = " • "@;
    reveal_strlit(" • ");
    lemma_metadata_parts_given(e);
    let g = given(f);
    assert forall|i: int| 0 <= i < 6 && (#[trigger] f[i]) is Some implies contains(line, f[i]->0) by {
        lemma_given_index(f, i);
        let a = given(f.take(i)).len() as int;
        lemma_join_item(g, sep, a);
    }
    assert forall|i: int, j: int| 0 <= i < j < 6 && (#[trigger] f[i]) is Some && (#[trigger] f[j]) is Some implies
        exists|p: int, q: int| p < q && occurs_at(line, f[i]->0, p) && occurs_at(line, f[j]->0, q) by {
        lemma_given_index(f, i);
        lemma_given_index(f, j);
        let a = given(f.take(i)).len() as int;
        let b = given(f.take(j)).len() as int;
        let fj = f.take(j);
        lemma_given_prefix(fj, i + 1);
        assert(fj.take(i + 1) =~= f.take(i + 1));
        assert(a < b);
        lemma_join_positions(g, sep, a, b);
        let p = join_position(g, sep, a);
        let q = join_position(g, sep, b);
        assert(occurs_at(line, f[i]->0, p) && occurs_at(line, f[j]->0, q));
    }
    if forall|i: int| 0 <= i < 6 ==> (#[trigger] f[i]) is None {
        assert forall|k: int| 0 <= k <= 6 implies #[trigger] given(f.take(k)).len() == 0 by {
            lemma_given_prefix(f, k);
            if k > 0 {
                assert(f.take(k).drop_last() =~= f.take(k - 1));
            }
        }
        assert(f.take(6) =~= f);
    }
}

} // verus!
