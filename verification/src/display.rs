//! The text that the browser's screens show.

use vstd::prelude::*;

use crate::browser::{Browser, EpisodeRow};
use crate::episode::Episode;
use crate::text::{
    chars_of, decimal, join, join_exec, opt_view, pad3_decimal, push_all, split, split_exec,
    std_lines, strip_cr, string_of, views, zero_pad,
};

verus! {

/// `prefix` and the value, as a one-element list, when the value is present; else nothing.
pub open spec fn part(o: Option<String>, prefix: Seq<char>) -> Seq<Seq<char>> {
    match o {
        Some(v) => seq![prefix + v@],
        None => Seq::empty(),
    }
}

/// The pieces of an episode's metadata line: type, air date, duration, source, then
/// `Audio: ..` and `CC: ..`, each only when given.
pub open spec fn metadata_parts(e: Episode) -> Seq<Seq<char>> {
    part(e.kind, Seq::empty()) + part(e.air_date, Seq::empty()) + part(e.duration, Seq::empty())
        + part(e.source, Seq::empty()) + part(e.audio, "Audio: "@) + part(e.softsub, "CC: "@)
}

/// The episode number as shown: zero-padded to three digits.
pub open spec fn padded(n: u32) -> Seq<char> {
    zero_pad(decimal(n as nat), 3)
}

/// The label of a row in the episode list: the padded number, two spaces, a check mark when
/// watched, then the title.
pub open spec fn row_label_spec(number: u32, title: Seq<char>, watched: bool) -> Seq<char> {
    padded(number) + "  "@ + (if watched { "✓ "@ } else { Seq::empty() }) + title
}

/// Appends `prefix` and the value to `parts` when the value is present.
fn push_part(parts: &mut Vec<String>, o: &Option<String>, prefix: &str)
    ensures
        views(final(parts)@) == views(old(parts)@) + part(*o, prefix@),
{
    match o {
        Some(v) => {
            let mut c = chars_of(prefix);
            push_all(&mut c, &chars_of(v.as_str()));
            parts.push(string_of(&c));
            assert(views(parts@) =~= views(old(parts)@) + part(*o, prefix@));
        },
        None => {
            assert(views(parts@) =~= views(old(parts)@) + part(*o, prefix@));
        },
    }
}

/// The label of a row in the episode list.
pub fn row_label(row: &EpisodeRow) -> (s: String)
    ensures
        s@ == row_label_spec(row.number, row.title@, row.watched),
{
    let mut v = pad3_decimal(row.number);
    push_all(&mut v, &chars_of("  "));
    if row.watched {
        push_all(&mut v, &chars_of("✓ "));
    }
    push_all(&mut v, &chars_of(row.title.as_str()));
    proof {
        if !row.watched {
            assert(v@ =~= row_label_spec(row.number, row.title@, row.watched));
        }
    }
    string_of(&v)
}

/// The lines of `s` as `str::lines` gives them (see `std_lines`).
pub fn std_lines_exec(s: &Vec<char>) -> (r: Vec<String>)
    ensures
        views(r@) == std_lines(s@),
{
    let pieces = split_exec(s, '\n');
    proof {
        crate::text::lemma_split_nonempty(s@, '\n');
    }
    let ghost p = split(s@, '\n');
    let n = pieces.len();
    let mut r: Vec<String> = Vec::new();
    let mut i: usize = 0;
    while i + 1 < n
        invariant
            n == pieces@.len(),
            n == p.len(),
            n > 0,
            pieces@.map_values(|v: Vec<char>| v@) == p,
            i + 1 <= n,
            views(r@) == p.drop_last().take(i as int).map_values(|l: Seq<char>| strip_cr(l)),
        decreases n - i,
    {
        let piece = &pieces[i];
        assert(piece@ == p[i as int]);
        let mut line: Vec<char> = Vec::new();
        let mut end = piece.len();
        if end > 0 && piece[end - 1] == '\r' {
            end = end - 1;
        }
        let mut k: usize = 0;
        while k < end
            invariant
                end <= piece@.len(),
                k <= end,
                line@ == piece@.take(k as int),
            decreases end - k,
        {
            line.push(piece[k]);
            k = k + 1;
            assert(line@ =~= piece@.take(k as int));
        }
        assert(line@ =~= strip_cr(piece@));
        let ghost before = views(r@);
        r.push(string_of(&line));
        assert(views(r@) =~= before.push(line@));
        assert(p.drop_last()[i as int] == p[i as int]);
        assert(p.drop_last().take(i + 1) =~= p.drop_last().take(i as int).push(p[i as int]));
        assert(views(r@) =~= p.drop_last().take(i + 1).map_values(|l: Seq<char>| strip_cr(l)));
        i = i + 1;
    }
    assert(p.drop_last().take(i as int) =~= p.drop_last());
    let last = &pieces[n - 1];
    assert(last@ == p.last());
    if last.len() > 0 {
        r.push(string_of(last));
        assert(views(r@) =~= p.drop_last().map_values(|l: Seq<char>| strip_cr(l)).push(p.last()));
    }
    r
}

impl Browser {
    /// The heading of the detail panel: `Episode` and the current episode's padded number, or
    /// nothing without a current episode.
    pub fn episode_heading(&self) -> (s: String)
        ensures
            s@ == match self.current_episode {
                Some(ep) => "Episode "@ + padded(ep),
                None => Seq::empty(),
            },
    {
        match self.current_episode {
            Some(ep) => {
                let mut v = chars_of("Episode ");
                push_all(&mut v, &pad3_decimal(ep));
                string_of(&v)
            },
            None => String::new(),
        }
    }

    /// The title in the detail panel: the current episode's title, else `No episodes found`.
    pub fn detail_title(&self) -> (s: String)
        requires
            self.episodes.wf(),
        ensures
            s@ == match self.current_episode {
                Some(ep) if self.episodes@.contains_key(decimal(ep as nat))
                    && self.episodes@[decimal(ep as nat)].title is Some =>
                    self.episodes@[decimal(ep as nat)].title->0@,
                _ => "No episodes found"@,
            },
    {
        match self.current_data() {
            Some(e) => match &e.title {
                Some(t) => t.clone(),
                None => string_of(&chars_of("No episodes found")),
            },
            None => string_of(&chars_of("No episodes found")),
        }
    }

    /// The metadata line in the detail panel: the current episode's metadata parts joined with
    /// ` • `; empty without a current episode.
    pub fn detail_metadata(&self) -> (s: String)
        requires
            self.episodes.wf(),
        ensures
            s@ == match self.current_episode {
                Some(ep) if self.episodes@.contains_key(decimal(ep as nat)) =>
                    join(metadata_parts(self.episodes@[decimal(ep as nat)]), " • "@),
                _ => Seq::empty(),
            },
    {
        match self.current_data() {
            Some(e) => {
                let mut parts: Vec<String> = Vec::new();
                push_part(&mut parts, &e.kind, "");
                push_part(&mut parts, &e.air_date, "");
                push_part(&mut parts, &e.duration, "");
                push_part(&mut parts, &e.source, "");
                push_part(&mut parts, &e.audio, "Audio: ");
                push_part(&mut parts, &e.softsub, "CC: ");
                proof {
                    reveal_strlit("");
                    assert(""@ =~= Seq::<char>::empty());
                    assert(views(Seq::<String>::empty()) =~= Seq::<Seq<char>>::empty());
                }
                string_of(&join_exec(&parts, &chars_of(" • ")))
            },
            None => {
                proof {
                    assert(join(Seq::<Seq<char>>::empty(), " • "@) =~= Seq::<char>::empty());
                }
                String::new()
            },
        }
    }

    /// The summary in the detail panel: the current episode's, else empty.
    pub fn detail_summary(&self) -> (s: String)
        requires
            self.episodes.wf(),
        ensures
            s@ == match self.current_episode {
                Some(ep) if self.episodes@.contains_key(decimal(ep as nat))
                    && self.episodes@[decimal(ep as nat)].summary is Some =>
                    self.episodes@[decimal(ep as nat)].summary->0@,
                _ => Seq::empty(),
            },
    {
        match self.current_data() {
            Some(e) => match &e.summary {
                Some(t) => t.clone(),
                None => String::new(),
            },
            None => String::new(),
        }
    }

    /// What the search box shows: the search text, or a prompt when it is empty.
    pub fn search_box_text(&self) -> (s: String)
        ensures
            s@ == if self.search@.len() == 0 { "Type to search..."@ } else { self.search@ },
    {
        if self.search.as_str().is_empty() {
            string_of(&chars_of("Type to search..."))
        } else {
            self.search.clone()
        }
    }

    /// The heading of the now-playing screen.
    pub fn now_playing_heading(&self) -> (s: String)
        ensures
            s@ == "Now Playing — Episode "@ + padded(self.np_episode),
    {
        let mut v = chars_of("Now Playing — Episode ");
        push_all(&mut v, &pad3_decimal(self.np_episode));
        string_of(&v)
    }

    /// The player output as shown: the recorded lines joined with newlines, read back as lines.
    pub fn player_log_lines(&self) -> (r: Vec<String>)
        ensures
            views(r@) == std_lines(join(views(self.np_lines@), "\n"@)),
    {
        std_lines_exec(&join_exec(&self.np_lines, &chars_of("\n")))
    }

    /// The key hints in the footer.
    pub fn footer_text(&self) -> (s: String)
        ensures
            s@ == if self.now_playing {
                "q Back"@
            } else {
                "q Quit"@ + "   "@ + "n Next"@ + "   "@ + "Enter Play"@ + "   "@ + "Type to search"@
            },
    {
        if self.now_playing {
            string_of(&chars_of("q Back"))
        } else {
            let mut v = chars_of("q Quit");
            let gap = chars_of("   ");
            push_all(&mut v, &gap);
            push_all(&mut v, &chars_of("n Next"));
            push_all(&mut v, &gap);
            push_all(&mut v, &chars_of("Enter Play"));
            push_all(&mut v, &gap);
            push_all(&mut v, &chars_of("Type to search"));
            string_of(&v)
        }
    }
}

} // verus!
