//! Episode metadata read off an episode's web page: title, type, air date, summary and the
//! labelled fields (duration, source, audio, soft subtitles).

use vstd::prelude::*;

use crate::episode::{Episode, EpisodeStore};
use crate::outside::{
    select_parent_texts, selected_parent_texts, regex_find, regex_first_match, regex_has_match,
    regex_is_match, root_element_texts, root_texts, select_texts, selected_texts,
};
use crate::text::{
    opt_view,
    chars_of, contains, contains_exec, join, join_exec, lowercase, occurs_at_exec, same_seq,
    starts_with, string_of, text_lines, text_lines_exec, to_lowercase, trim, trim_chars, views,
};

verus! {

/// The regular expression for an air date such as `1989-04-26`.
pub const DATE_PATTERN: &'static str = "\\d{4}-\\d{2}-\\d{2}";

/// The regular expression for a running time such as `24:10`.
pub const DURATION_PATTERN: &'static str = "^\\d+:\\d+$";

/// The metadata found on an episode page; a field is `None` when the page does not give it.
#[derive(Debug)]
pub struct Metadata {
    pub title: Option<String>,
    pub kind: Option<String>,
    pub air_date: Option<String>,
    pub duration: Option<String>,
    pub source: Option<String>,
    pub audio: Option<String>,
    pub softsub: Option<String>,
    pub summary: Option<String>,
}

impl Metadata {
    /// Metadata with every field absent.
    pub fn empty() -> (m: Metadata)
        ensures
            m.title is None && m.kind is None && m.air_date is None && m.duration is None,
            m.source is None && m.audio is None && m.softsub is None && m.summary is None,
    {
        Metadata {
            title: None,
            kind: None,
            air_date: None,
            duration: None,
            source: None,
            audio: None,
            softsub: None,
            summary: None,
        }
    }
}

// ---------------------------------------------------------------- the heading

/// `s` with `p` removed from its front as many times as it occurs there
/// (`str::trim_start_matches` with a non-empty pattern).
pub open spec fn strip_prefix_all(s: Seq<char>, p: Seq<char>) -> Seq<char>
    decreases s.len(),
{
    if p.len() > 0 && starts_with(s, p) {
        strip_prefix_all(s.skip(p.len() as int), p)
    } else {
        s
    }
}

/// The episode title made from the heading's text nodes: joined with spaces, trimmed, any
/// leading `"- "` removed, trimmed again.
pub open spec fn heading_title(texts: Seq<Seq<char>>) -> Seq<char> {
    trim(strip_prefix_all(trim(join(texts, " "@)), "- "@))
}

/// `str::trim_start_matches` with a non-empty pattern.
fn strip_prefix_all_exec(s: &Vec<char>, p: &Vec<char>) -> (r: Vec<char>)
    requires
        p@.len() > 0,
    ensures
        r@ == strip_prefix_all(s@, p@),
{
    let mut i: usize = 0;
    assert(s@.skip(0) =~= s@);
    while occurs_at_exec(s, p, i)
        invariant
            p@.len() > 0,
            i <= s@.len(),
            strip_prefix_all(s@, p@) == strip_prefix_all(s@.skip(i as int), p@),
        decreases s@.len() - i,
    {
        assert(s@.skip(i as int).subrange(0, p@.len() as int) =~= s@.subrange(i as int, i + p@.len()));
        assert(s@.skip(i as int).skip(p@.len() as int) =~= s@.skip(i + p@.len()));
        let plen = p.len();
        assert(i + plen <= s.len());
        i = i + plen;
    }
    assert(!starts_with(s@.skip(i as int), p@)) by {
        if s@.skip(i as int).len() >= p@.len() {
            assert(s@.skip(i as int).subrange(0, p@.len() as int) =~= s@.subrange(i as int, i + p@.len()));
        }
    }
    let mut r: Vec<char> = Vec::new();
    let mut k: usize = i;
    while k < s.len()
        invariant
            i <= k <= s@.len(),
            r@ == s@.subrange(i as int, k as int),
        decreases s.len() - k,
    {
        r.push(s[k]);
        k = k + 1;
        assert(r@ =~= s@.subrange(i as int, k as int));
    }
    assert(r@ =~= s@.skip(i as int));
    r
}

/// The title for the heading's text nodes.
pub fn title_from_heading(texts: &Vec<String>) -> (t: String)
    ensures
        t@ == heading_title(views(texts@)),
{
    let space = chars_of(" ");
    let dash = chars_of("- ");
    proof {
        reveal_strlit("- ");
    }
    let joined = join_exec(texts, &space);
    let trimmed = trim_chars(&joined);
    let stripped = strip_prefix_all_exec(&trimmed, &dash);
    string_of(&trim_chars(&stripped))
}

// ---------------------------------------------------------------- type and air date

/// Whether one of `lines` is exactly `s`.
pub open spec fn has_line(lines: Seq<Seq<char>>, s: Seq<char>) -> bool {
    exists|i: int| 0 <= i < lines.len() && lines[i] == s
}

/// The episode type: `Regular` if a line says so, else `Special` if a line says so.
pub open spec fn episode_kind(lines: Seq<Seq<char>>) -> Option<Seq<char>> {
    if has_line(lines, "Regular"@) {
        Some("Regular"@)
    } else if has_line(lines, "Special"@) {
        Some("Special"@)
    } else {
        None
    }
}

/// The first match of the date pattern in the first line that has one.
pub open spec fn first_date(lines: Seq<Seq<char>>) -> Option<Seq<char>>
    decreases lines.len(),
{
    if lines.len() == 0 {
        None
    } else {
        match regex_first_match(DATE_PATTERN@, lines[0]) {
            Some(Some(m)) => Some(m),
            _ => first_date(lines.drop_first()),
        }
    }
}

/// Whether one of `lines` is exactly `s`.
fn has_line_exec(lines: &Vec<String>, s: &str) -> (b: bool)
    ensures
        b == has_line(views(lines@), s@),
{
    let target = chars_of(s);
    let mut i: usize = 0;
    while i < lines.len()
        invariant
            i <= lines.len(),
            target@ == s@,
            forall|j: int| 0 <= j < i ==> views(lines@)[j] != s@,
        decreases lines.len() - i,
    {
        let line = chars_of(lines[i].as_str());
        if same_seq(&line, &target) {
            assert(views(lines@)[i as int] == s@);
            return true;
        }
        i = i + 1;
    }
    false
}

/// The episode type named by the lines.
pub fn kind_from_lines(lines: &Vec<String>) -> (k: Option<String>)
    ensures
        opt_view(k) == episode_kind(views(lines@)),
{
    if has_line_exec(lines, "Regular") {
        Some(string_of(&chars_of("Regular")))
    } else if has_line_exec(lines, "Special") {
        Some(string_of(&chars_of("Special")))
    } else {
        None
    }
}

/// The air date: the first date-pattern match in the first line that has one.
pub fn date_from_lines(lines: &Vec<String>) -> (d: Option<String>)
    ensures
        opt_view(d) == first_date(views(lines@)),
{
    let mut i: usize = 0;
    assert(views(lines@).skip(0) =~= views(lines@));
    while i < lines.len()
        invariant
            i <= lines.len(),
            first_date(views(lines@)) == first_date(views(lines@).skip(i as int)),
        decreases lines.len() - i,
    {
        let ghost rest = views(lines@).skip(i as int);
        assert(rest[0] == lines@[i as int]@);
        assert(rest.drop_first() =~= views(lines@).skip(i + 1));
        match regex_find(DATE_PATTERN, lines[i].as_str()) {
            Some(Some(m)) => {
                return Some(m);
            },
            _ => {},
        }
        i = i + 1;
    }
    None
}

// ---------------------------------------------------------------- the summary

/// The text of a paragraph: its text nodes joined with spaces, trimmed.
pub open spec fn paragraph_text(texts: Seq<Seq<char>>) -> Seq<char> {
    trim(join(texts, " "@))
}

/// A paragraph text fit to be the summary: not empty, not the site's advert notice, and at
/// least 40 characters long.
pub open spec fn is_summary(s: Seq<char>) -> bool {
    &&& s.len() > 0
    &&& !contains(lowercase(s), "intrusive ads"@)
    &&& !contains(lowercase(s), "disable your adblock"@)
    &&& s.len() >= 40
}

/// The text of the first paragraph fit to be the summary.
pub open spec fn first_summary(paragraphs: Seq<Seq<Seq<char>>>) -> Option<Seq<char>>
    decreases paragraphs.len(),
{
    if paragraphs.len() == 0 {
        None
    } else if is_summary(paragraph_text(paragraphs[0])) {
        Some(paragraph_text(paragraphs[0]))
    } else {
        first_summary(paragraphs.drop_first())
    }
}

/// The summary: the text of the first paragraph fit to be one.
pub fn summary_from_paragraphs(paragraphs: &Vec<Vec<String>>) -> (s: Option<String>)
    ensures
        opt_view(s) == first_summary(crate::outside::deep_views(paragraphs@)),
{
    let ghost all = crate::outside::deep_views(paragraphs@);
    let space = chars_of(" ");
    let ads = chars_of("intrusive ads");
    let adblock = chars_of("disable your adblock");
    let mut i: usize = 0;
    assert(all.skip(0) =~= all);
    while i < paragraphs.len()
        invariant
            i <= paragraphs.len(),
            all == crate::outside::deep_views(paragraphs@),
            space@ == " "@,
            ads@ == "intrusive ads"@,
            adblock@ == "disable your adblock"@,
            first_summary(all) == first_summary(all.skip(i as int)),
        decreases paragraphs.len() - i,
    {
        let ghost rest = all.skip(i as int);
        assert(rest[0] == views(paragraphs@[i as int]@));
        assert(rest.drop_first() =~= all.skip(i + 1));
        let text = trim_chars(&join_exec(&paragraphs[i], &space));
        if text.len() > 0 {
            let shown = string_of(&text);
            let lower = chars_of(to_lowercase(shown.as_str()).as_str());
            if !contains_exec(&lower, &ads) && !contains_exec(&lower, &adblock) && text.len() >= 40 {
                return Some(shown);
            }
        }
        i = i + 1;
    }
    None
}

// ---------------------------------------------------------------- labelled fields

/// The line after the last line among the first `n` that is exactly `label`, when such a line
/// has one after it.
pub open spec fn labelled_upto(lines: Seq<Seq<char>>, label: Seq<char>, n: int) -> Option<Seq<char>>
    decreases n,
{
    if n <= 0 {
        None
    } else if lines[n - 1] == label && n < lines.len() {
        Some(lines[n])
    } else {
        labelled_upto(lines, label, n - 1)
    }
}

/// The value given after the last `label` line in `lines`.
pub open spec fn labelled(lines: Seq<Seq<char>>, label: Seq<char>) -> Option<Seq<char>> {
    labelled_upto(lines, label, lines.len() as int)
}

/// Like `labelled_upto` for `Duration:`, counting only values that look like a running time.
pub open spec fn duration_upto(lines: Seq<Seq<char>>, n: int) -> Option<Seq<char>>
    decreases n,
{
    if n <= 0 {
        None
    } else if lines[n - 1] == "Duration:"@ && n < lines.len()
        && regex_has_match(DURATION_PATTERN@, lines[n]) == Some(true) {
        Some(lines[n])
    } else {
        duration_upto(lines, n - 1)
    }
}

/// The running time given after the last `Duration:` line whose next line looks like one.
pub open spec fn duration(lines: Seq<Seq<char>>) -> Option<Seq<char>> {
    duration_upto(lines, lines.len() as int)
}

/// The value after the last line that is exactly `label`; with `check_duration`, only values
/// that match the running-time pattern count.
fn labelled_exec(lines: &Vec<String>, label: &str, check_duration: bool) -> (r: Option<String>)
    requires
        check_duration ==> label@ == "Duration:"@,
    ensures
        check_duration ==> opt_view(r) == duration(views(lines@)),
        !check_duration ==> opt_view(r) == labelled(views(lines@), label@),
{
    let target = chars_of(label);
    let ghost ls = views(lines@);
    let mut found: Option<String> = None;
    let mut i: usize = 0;
    while i < lines.len()
        invariant
            i <= lines.len(),
            ls == views(lines@),
            target@ == label@,
            check_duration ==> label@ == "Duration:"@,
            check_duration ==> opt_view(found) == duration_upto(ls, i as int),
            !check_duration ==> opt_view(found) == labelled_upto(ls, label@, i as int),
        decreases lines.len() - i,
    {
        let line = chars_of(lines[i].as_str());
        if same_seq(&line, &target) && i + 1 < lines.len() {
            let next = &lines[i + 1];
            let fits = if check_duration {
                match regex_is_match(DURATION_PATTERN, next.as_str()) {
                    Some(b) => b,
                    None => false,
                }
            } else {
                true
            };
            if fits {
                found = Some(string_of(&chars_of(next.as_str())));
            }
        }
        i = i + 1;
    }
    found
}

// ---------------------------------------------------------------- the whole page

/// The text of the page heading (its first `h1`), if it has one.
pub open spec fn page_heading(html: Seq<char>) -> Option<Seq<Seq<char>>> {
    match selected_texts(html, "h1"@) {
        Some(list) => if list.len() > 0 { Some(list[0]) } else { None },
        None => None,
    }
}

/// The lines of the element around the heading; none without a heading.
pub open spec fn heading_block_lines(html: Seq<char>) -> Seq<Seq<char>> {
    match page_heading(html) {
        Some(_) => match selected_parent_texts(html, "h1"@) {
            Some(parents) => if parents.len() > 0 {
                match parents[0] {
                    Some(t) => text_lines(join(t, "\n"@)),
                    None => Seq::empty(),
                }
            } else {
                Seq::empty()
            },
            None => Seq::empty(),
        },
        None => Seq::empty(),
    }
}

/// The paragraphs (`p` elements) of the page, each as its text nodes.
pub open spec fn page_paragraphs(html: Seq<char>) -> Seq<Seq<Seq<char>>> {
    match selected_texts(html, "p"@) {
        Some(ps) => ps,
        None => Seq::empty(),
    }
}

/// The non-empty trimmed lines of the whole page's text.
pub open spec fn page_lines(html: Seq<char>) -> Seq<Seq<char>> {
    text_lines(join(root_texts(html), "\n"@))
}

/// The metadata that the page text, split into its parts, gives.
pub open spec fn metadata_spec(
    heading: Option<Seq<Seq<char>>>,
    block: Seq<Seq<char>>,
    paragraphs: Seq<Seq<Seq<char>>>,
    page: Seq<Seq<char>>,
    m: Metadata,
) -> bool {
    &&& opt_view(m.title) == (match heading {
        Some(h) => Some(heading_title(h)),
        None => None,
    })
    &&& opt_view(m.kind) == episode_kind(block)
    &&& opt_view(m.air_date) == first_date(block)
    &&& opt_view(m.summary) == first_summary(paragraphs)
    &&& opt_view(m.duration) == duration(page)
    &&& opt_view(m.source) == labelled(page, "Source:"@)
    &&& opt_view(m.audio) == labelled(page, "Audio:"@)
    &&& opt_view(m.softsub) == labelled(page, "Softsub:"@)
}

/// The metadata from the parts of an episode page: the text nodes of its heading (if any),
/// of the element around the heading (if any and if it is an element), of each paragraph, and
/// of the whole page.
pub fn metadata_from_texts(
    heading: Option<Vec<String>>,
    block: Option<Vec<String>>,
    paragraphs: &Vec<Vec<String>>,
    page: &Vec<String>,
) -> (m: Metadata)
    ensures
        metadata_spec(
            match heading { Some(h) => Some(views(h@)), None => None },
            match (heading, block) {
                (Some(_), Some(b)) => text_lines(join(views(b@), "\n"@)),
                _ => Seq::empty(),
            },
            crate::outside::deep_views(paragraphs@),
            text_lines(join(views(page@), "\n"@)),
            m,
        ),
{
    let newline = chars_of("\n");
    let mut m = Metadata::empty();
    let mut block_lines: Vec<String> = Vec::new();
    match heading {
        Some(h) => {
            m.title = Some(title_from_heading(&h));
            match block {
                Some(b) => {
                    block_lines = text_lines_exec(&join_exec(&b, &newline));
                },
                None => {},
            }
        },
        None => {},
    }
    assert(views(Seq::<String>::empty()) =~= Seq::<Seq<char>>::empty());
    m.kind = kind_from_lines(&block_lines);
    m.air_date = date_from_lines(&block_lines);
    m.summary = summary_from_paragraphs(paragraphs);
    let page_lines = text_lines_exec(&join_exec(page, &newline));
    m.duration = labelled_exec(&page_lines, "Duration:", true);
    m.source = labelled_exec(&page_lines, "Source:", false);
    m.audio = labelled_exec(&page_lines, "Audio:", false);
    m.softsub = labelled_exec(&page_lines, "Softsub:", false);
    m
}

/// Reads the metadata off an episode page's HTML.
pub fn extract_metadata(html: &str) -> (m: Metadata)
    ensures
        metadata_spec(
            page_heading(html@),
            heading_block_lines(html@),
            page_paragraphs(html@),
            page_lines(html@),
            m,
        ),
{
    let heading = match select_texts(html, "h1") {
        Some(list) => {
            if list.len() > 0 {
                let mut list = list;
                Some(list.swap_remove(0))
            } else {
                None
            }
        },
        None => None,
    };
    let block = match select_parent_texts(html, "h1") {
        Some(parents) => {
            if parents.len() > 0 {
                let mut parents = parents;
                parents.swap_remove(0)
            } else {
                None
            }
        },
        None => None,
    };
    let paragraphs = match select_texts(html, "p") {
        Some(ps) => ps,
        None => Vec::new(),
    };
    let page = root_element_texts(html);
    proof {
        assert(crate::outside::deep_views(Seq::<Vec<String>>::empty()) =~= Seq::<Seq<Seq<char>>>::empty());
    }
    metadata_from_texts(heading, block, &paragraphs, &page)
}

/// Puts the metadata on the episode: each of the eight fields is set to what the page gave,
/// absent ones included; the other fields stay as they were.
pub fn apply_metadata(episode: &mut Episode, m: Metadata)
    ensures
        final(episode).title == m.title,
        final(episode).kind == m.kind,
        final(episode).air_date == m.air_date,
        final(episode).duration == m.duration,
        final(episode).source == m.source,
        final(episode).audio == m.audio,
        final(episode).softsub == m.softsub,
        final(episode).summary == m.summary,
        final(episode).page == old(episode).page,
        final(episode).video == old(episode).video,
        final(episode).subtitles == old(episode).subtitles,
        final(episode).cover == old(episode).cover,
        final(episode).error == old(episode).error,
{
    episode.title = m.title;
    episode.kind = m.kind;
    episode.air_date = m.air_date;
    episode.duration = m.duration;
    episode.source = m.source;
    episode.audio = m.audio;
    episode.softsub = m.softsub;
    episode.summary = m.summary;
}


/// What enriching one episode gives: its key, the metadata read off its page, and the error
/// that stopped the reading, if any. `page_html` is what fetching the episode's page gave (its
/// body, or the error's text); it is not looked at when the episode has no page.
pub fn fetch_episode(episode: String, episode_data: &Episode, page_html: Result<String, String>) -> (r: (String, Metadata, Option<String>))
    ensures
        r.0 == episode,
        (match (episode_data.page, page_html) {
            (None, _) => r.1.title is None && r.1.kind is None && r.1.air_date is None
                && r.1.duration is None && r.1.source is None && r.1.audio is None
                && r.1.softsub is None && r.1.summary is None
                && (r.2 matches Some(e) && e@ == "no page URL"@),
            (Some(_), Err(e)) => r.1.title is None && r.1.kind is None && r.1.air_date is None
                && r.1.duration is None && r.1.source is None && r.1.audio is None
                && r.1.softsub is None && r.1.summary is None && r.2 == Some(e),
            (Some(_), Ok(html)) => r.2 is None && metadata_spec(
                page_heading(html@),
                heading_block_lines(html@),
                page_paragraphs(html@),
                page_lines(html@),
                r.1,
            ),
        }),
{
    if episode_data.page.is_none() {
        return (episode, Metadata::empty(), Some(string_of(&chars_of("no page URL"))));
    }
    match page_html {
        Ok(html) => {
            let m = extract_metadata(html.as_str());
            (episode, m, None)
        },
        Err(e) => (episode, Metadata::empty(), Some(e)),
    }
}


/// Puts the metadata on the episode stored under `key`, if there is one (see `apply_metadata`);
/// tells whether there was.
pub fn apply_metadata_to(store: &mut EpisodeStore, key: &str, m: Metadata) -> (found: bool)
    requires
        old(store).wf(),
    ensures
        final(store).wf(),
        found == old(store)@.contains_key(key@),
        !found ==> final(store)@ == old(store)@,
        found ==> final(store)@.dom() == old(store)@.dom(),
        found ==> ({
            let e = final(store)@[key@];
            let o = old(store)@[key@];
            &&& e.title == m.title && e.kind == m.kind && e.air_date == m.air_date
            &&& e.duration == m.duration && e.source == m.source && e.audio == m.audio
            &&& e.softsub == m.softsub && e.summary == m.summary
            &&& e.page == o.page && e.video == o.video && e.subtitles == o.subtitles
            &&& e.cover == o.cover && e.error == o.error
        }),
        found ==> forall|k: Seq<char>| k != key@ && old(store)@.contains_key(k) ==> final(store)@[k] == old(store)@[k],
{
    match store.find(key) {
        Some(i) => {
            proof {
                crate::episode::lemma_entry_lookup(store.entries(), i as int);
            }
            let mut e = store.replace_at(i, Episode::empty());
            apply_metadata(&mut e, m);
            store.replace_at(i, e);
            assert(store@.dom() =~= old(store)@.dom());
            true
        },
        None => {
            proof {
                if old(store)@.contains_key(key@) {
                    let j = crate::episode::key_index(store.entries(), key@);
                    assert(store.entries()[j].0@ == key@);
                }
            }
            false
        },
    }
}

} // verus!
