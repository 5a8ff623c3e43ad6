//! Reading an episode's video configuration off its web page.

use vstd::prelude::*;

use crate::episode::{Episode, Subtitle};
use crate::outside::{json_list_at, json_list_field, json_str_field, json_string_at, select_attrs, selected_attrs};
use crate::text::{
    opt_view, views,
    chars_of, contains, contains_exec, decimal, decimal_chars, occurs_at, occurs_at_exec, replace,
    replace_exec, string_of,
};

verus! {

/// The page of an episode: `{}` stands for the episode number.
pub const BASE_URL: &'static str = "https://anizone.to/anime/99nxtlfu/{}";

/// The first episode fetched.
pub const START_EPISODE: u32 = 1;

/// The last episode fetched.
pub const END_EPISODE: u32 = 291;

/// Why no video configuration could be read off a page.
#[derive(Debug, PartialEq, Eq)]
pub enum VideoError {
    /// No element carries a player configuration.
    ConfigNotFound,
    /// The configuration holds no `JSON.parse('`.
    JsonStartNotFound,
    /// Nothing closes the embedded JSON.
    JsonEndNotFound,
    /// The embedded text is not valid JSON.
    InvalidJson,
}

impl VideoError {
    /// The error's message.
    pub fn message(&self) -> (s: String)
        ensures
            s@ == self.message_spec(),
    {
        match self {
            VideoError::ConfigNotFound => string_of(&chars_of("Video configuration not found")),
            VideoError::JsonStartNotFound => string_of(&chars_of("JSON.parse data not found")),
            VideoError::JsonEndNotFound => string_of(&chars_of("End of JSON data not found")),
            VideoError::InvalidJson => string_of(&chars_of("failed to parse embedded JSON")),
        }
    }

    /// The error's message, as text.
    pub open spec fn message_spec(&self) -> Seq<char> {
        match self {
            VideoError::ConfigNotFound => "Video configuration not found"@,
            VideoError::JsonStartNotFound => "JSON.parse data not found"@,
            VideoError::JsonEndNotFound => "End of JSON data not found"@,
            VideoError::InvalidJson => "failed to parse embedded JSON"@,
        }
    }
}

/// The first position at or after `i` where `p` occurs in `s` (`str::find` on `s[i..]`, offset
/// by `i`).
pub open spec fn find_from(s: Seq<char>, p: Seq<char>, i: int) -> Option<int>
    decreases s.len() + 1 - i,
{
    if i < 0 || i > s.len() {
        None
    } else if occurs_at(s, p, i) {
        Some(i)
    } else {
        find_from(s, p, i + 1)
    }
}

/// `str::find` from position `i`.
fn find_from_exec(s: &Vec<char>, p: &Vec<char>, i: usize) -> (r: Option<usize>)
    requires
        i <= s@.len(),
    ensures
        match r {
            Some(k) => find_from(s@, p@, i as int) == Some(k as int),
            None => find_from(s@, p@, i as int) is None,
        },
{
    let mut k: usize = i;
    while k < s.len()
        invariant
            i <= k <= s@.len(),
            find_from(s@, p@, i as int) == find_from(s@, p@, k as int),
        decreases s.len() - k,
    {
        if occurs_at_exec(s, p, k) {
            return Some(k);
        }
        k = k + 1;
    }
    if occurs_at_exec(s, p, k) {
        return Some(k);
    }
    assert(find_from(s@, p@, k + 1) is None);
    None
}

/// The value of the first `x-data` attribute that mentions `vidstackPlayer`.
pub open spec fn player_config(attrs: Seq<Option<Seq<char>>>) -> Option<Seq<char>>
    decreases attrs.len(),
{
    if attrs.len() == 0 {
        None
    } else {
        match attrs[0] {
            Some(v) => if contains(v, "vidstackPlayer"@) { Some(v) } else { player_config(attrs.drop_first()) },
            None => player_config(attrs.drop_first()),
        }
    }
}

/// The JSON embedded in a player configuration: the text between `JSON.parse('` and the next
/// `')`, with `\/` turned into `/` and then `\u0022` into `"`.
pub open spec fn embedded_json(x_data: Seq<char>) -> Result<Seq<char>, VideoError> {
    match find_from(x_data, "JSON.parse('"@, 0) {
        None => Err(VideoError::JsonStartNotFound),
        Some(at) => {
            let start = at + "JSON.parse('"@.len();
            match find_from(x_data, "')"@, start) {
                None => Err(VideoError::JsonEndNotFound),
                Some(end) => Ok(replace(
                    replace(x_data.subrange(start, end), "\\/"@, "/"@),
                    "\\u0022"@,
                    "\""@,
                )),
            }
        },
    }
}

/// The JSON text of the player configuration found among the `x-data` attribute values.
pub fn json_from_configs(attrs: &Vec<Option<String>>) -> (r: Result<String, VideoError>)
    ensures
        match player_config(attrs@.map_values(|a: Option<String>| opt_view(a))) {
            None => r == Err::<String, VideoError>(VideoError::ConfigNotFound),
            Some(x) => match (r, embedded_json(x)) {
                (Ok(s), Ok(j)) => s@ == j,
                (Err(e1), Err(e2)) => e1 == e2,
                _ => false,
            },
        },
{
    let ghost all = attrs@.map_values(|a: Option<String>| opt_view(a));
    let marker = chars_of("vidstackPlayer");
    let mut i: usize = 0;
    assert(all.skip(0) =~= all);
    let mut found: Option<Vec<char>> = None;
    while i < attrs.len()
        invariant
            i <= attrs@.len(),
            all == attrs@.map_values(|a: Option<String>| opt_view(a)),
            marker@ == "vidstackPlayer"@,
            player_config(all) == player_config(all.skip(i as int)),
        decreases attrs.len() - i,
    {
        let ghost rest = all.skip(i as int);
        assert(rest[0] == opt_view(attrs@[i as int]));
        assert(rest.drop_first() =~= all.skip(i + 1));
        match &attrs[i] {
            Some(v) => {
                let chars = chars_of(v.as_str());
                if contains_exec(&chars, &marker) {
                    return json_from_config(&chars);
                }
            },
            None => {},
        }
        i = i + 1;
    }
    Err(VideoError::ConfigNotFound)
}

/// The embedded JSON of one player configuration.
fn json_from_config(x_data: &Vec<char>) -> (r: Result<String, VideoError>)
    ensures
        match (r, embedded_json(x_data@)) {
            (Ok(s), Ok(j)) => s@ == j,
            (Err(e1), Err(e2)) => e1 == e2,
            _ => false,
        },
{
    let open = chars_of("JSON.parse('");
    let close = chars_of("')");
    let escaped_slash = chars_of("\\/");
    let slash = chars_of("/");
    let escaped_quote = chars_of("\\u0022");
    let quote = chars_of("\"");
    proof {
        reveal_strlit("\\/");
        reveal_strlit("\\u0022");
    }
    let at = match find_from_exec(x_data, &open, 0) {
        None => return Err(VideoError::JsonStartNotFound),
        Some(at) => at,
    };
    proof {
        lemma_find_from_bounds(x_data@, open@, 0);
    }
    let olen = open.len();
    assert(at + olen <= x_data.len());
    let start = at + olen;
    let end = match find_from_exec(x_data, &close, start) {
        None => return Err(VideoError::JsonEndNotFound),
        Some(end) => end,
    };
    proof {
        lemma_find_from_bounds(x_data@, close@, start as int);
    }
    let mut inner: Vec<char> = Vec::new();
    let mut k: usize = start;
    while k < end
        invariant
            start <= k <= end <= x_data@.len(),
            inner@ == x_data@.subrange(start as int, k as int),
        decreases end - k,
    {
        inner.push(x_data[k]);
        k = k + 1;
        assert(inner@ =~= x_data@.subrange(start as int, k as int));
    }
    let unslashed = replace_exec(&inner, &escaped_slash, &slash);
    let unquoted = replace_exec(&unslashed, &escaped_quote, &quote);
    Ok(string_of(&unquoted))
}

/// A position `find_from` gives lies between where it started and the end of the string.
proof fn lemma_find_from_bounds(s: Seq<char>, p: Seq<char>, i: int)
    ensures
        find_from(s, p, i) matches Some(k) ==> i <= k <= s.len() && occurs_at(s, p, k),
    decreases s.len() + 1 - i,
{
    if 0 <= i <= s.len() && !occurs_at(s, p, i) {
        lemma_find_from_bounds(s, p, i + 1);
    }
}

/// The `x-data` attribute values of an HTML page, in document order (none when the selector
/// does not parse).
pub open spec fn page_configs(html: Seq<char>) -> Seq<Option<Seq<char>>> {
    match selected_attrs(html, "[x-data]"@, "x-data"@) {
        Some(a) => a,
        None => Seq::empty(),
    }
}

/// The key of the video source in a player's JSON.
pub const SRC_KEY: &'static str = "src";

/// The key of the subtitle list in a player's JSON.
pub const SUBTITLES_KEY: &'static str = "subtitles";

/// What the JSON of a player configuration gives: the string under `src` and the entries of the
/// list under `subtitles` (each as JSON text), or `InvalidJson` when the text does not parse.
pub open spec fn player_fields(json: Seq<char>) -> Result<(Option<Seq<char>>, Option<Seq<Seq<char>>>), VideoError> {
    match (json_string_at(json, SRC_KEY@), json_list_at(json, SUBTITLES_KEY@)) {
        (Some(src), Some(subtitles)) => Ok((src, subtitles)),
        _ => Err(VideoError::InvalidJson),
    }
}

/// What an episode page yields: the video source and the subtitle entries (as JSON text) of
/// the JSON embedded in its player configuration, or the step that failed.
pub open spec fn page_video_data(html: Seq<char>) -> Result<(Option<Seq<char>>, Option<Seq<Seq<char>>>), VideoError> {
    match player_config(page_configs(html)) {
        None => Err(VideoError::ConfigNotFound),
        Some(x) => match embedded_json(x) {
            Err(e) => Err(e),
            Ok(j) => player_fields(j),
        },
    }
}

/// The fields read off a player's JSON, as character sequences.
pub open spec fn fields_view(f: (Option<String>, Option<Vec<String>>)) -> (Option<Seq<char>>, Option<Seq<Seq<char>>>) {
    (opt_view(f.0), match f.1 {
        Some(v) => Some(views(v@)),
        None => None,
    })
}

/// The player's fields from what the JSON parser read under `src` and under `subtitles`
/// (`None` where the text did not parse): both fields, or `InvalidJson`.
pub fn player_data(src: Option<Option<String>>, subtitles: Option<Option<Vec<String>>>) -> (r: Result<(Option<String>, Option<Vec<String>>), VideoError>)
    ensures
        r == (match (src, subtitles) {
            (Some(s), Some(l)) => Ok::<(Option<String>, Option<Vec<String>>), VideoError>((s, l)),
            _ => Err(VideoError::InvalidJson),
        }),
{
    match (src, subtitles) {
        (Some(s), Some(l)) => Ok((s, l)),
        _ => Err(VideoError::InvalidJson),
    }
}

/// The video source and subtitle entries (as JSON text) of the JSON embedded in the player
/// configuration of an episode page's HTML.
pub fn get_video_data(html: &str) -> (r: Result<(Option<String>, Option<Vec<String>>), VideoError>)
    ensures
        match (r, page_video_data(html@)) {
            (Ok(f), Ok(g)) => fields_view(f) == g,
            (Err(e1), Err(e2)) => e1 == e2,
            _ => false,
        },
{
    let attrs = match select_attrs(html, "[x-data]", "x-data") {
        Some(a) => a,
        None => Vec::new(),
    };
    proof {
        assert(Seq::<Option<String>>::empty().map_values(|a: Option<String>| opt_view(a))
            =~= Seq::<Option<Seq<char>>>::empty());
    }
    let json = match json_from_configs(&attrs) {
        Ok(json) => json,
        Err(e) => return Err(e),
    };
    let src = json_str_field(json.as_str(), SRC_KEY);
    let subtitles = json_list_field(json.as_str(), SUBTITLES_KEY);
    player_data(src, subtitles)
}

/// The page address of an episode: `BASE_URL` with `{}` replaced by the episode number.
pub fn episode_page_url(episode: u32) -> (u: String)
    ensures
        u@ == replace(BASE_URL@, "{}"@, decimal(episode as nat)),
{
    let base = chars_of(BASE_URL);
    let braces = chars_of("{}");
    proof {
        reveal_strlit("{}");
    }
    string_of(&replace_exec(&base, &braces, &decimal_chars(episode)))
}

/// The subtitles that parsed, in order.
pub open spec fn parsed_subtitles(items: Seq<Option<Subtitle>>) -> Seq<Subtitle>
    decreases items.len(),
{
    if items.len() == 0 {
        Seq::empty()
    } else {
        let r = parsed_subtitles(items.drop_last());
        match items.last() {
            Some(s) => r.push(s),
            None => r,
        }
    }
}

/// The record of an episode whose page gave a player configuration: its page, the
/// configuration's `src` (when a string) as video, and the subtitle entries that parsed (none
/// when `subtitles` is not a list).
pub fn episode_from_player(page: String, src: Option<String>, subtitles: Option<Vec<Option<Subtitle>>>) -> (e: Episode)
    ensures
        e.page == Some(page),
        e.video == src,
        e.subtitles@ == (match subtitles {
            Some(items) => parsed_subtitles(items@),
            None => Seq::empty(),
        }),
        e.title is None && e.kind is None && e.air_date is None && e.duration is None,
        e.source is None && e.audio is None && e.softsub is None && e.summary is None,
        e.cover is None && e.error is None,
{
    let mut e = Episode::empty();
    e.page = Some(page);
    e.video = src;
    match subtitles {
        Some(items) => {
            let mut items = items;
            let ghost all = items@;
            let mut kept: Vec<Subtitle> = Vec::new();
            let mut i: usize = 0;
            let n = items.len();
            // take the items out from the back, then restore their order
            let mut rev: Vec<Option<Subtitle>> = Vec::new();
            while items.len() > 0
                invariant
                    items@.len() + rev@.len() == n,
                    n == all.len(),
                    items@ == all.take(items@.len() as int),
                    forall|j: int| 0 <= j < rev@.len() ==> #[trigger] rev@[j] == all[n - 1 - j],
                decreases items.len(),
            {
                let last = items.pop().unwrap();
                rev.push(last);
                assert(items@ =~= all.take(items@.len() as int));
            }
            while i < n
                invariant
                    n == all.len(),
                    rev@.len() + i == n,
                    forall|j: int| 0 <= j < rev@.len() ==> #[trigger] rev@[j] == all[n - 1 - j],
                    i <= n,
                    kept@ == parsed_subtitles(all.take(i as int)),
                decreases n - i,
            {
                let item = rev.pop().unwrap();
                assert(all.take(i + 1).drop_last() =~= all.take(i as int));
                match item {
                    Some(s) => kept.push(s),
                    None => {},
                }
                i = i + 1;
            }
            assert(all.take(n as int) =~= all);
            e.subtitles = kept;
        },
        None => {},
    }
    e
}

/// The record of an episode whose page could not be read: its page and the error.
pub fn failed_episode(page: String, error: String) -> (e: Episode)
    ensures
        e.page == Some(page),
        e.error == Some(error),
        e.video is None && e.subtitles@.len() == 0,
        e.title is None && e.kind is None && e.air_date is None && e.duration is None,
        e.source is None && e.audio is None && e.softsub is None && e.summary is None,
        e.cover is None,
{
    let mut e = Episode::empty();
    e.page = Some(page);
    e.error = Some(error);
    e
}

} // verus!
