//! Deriving each episode's cover image URL from its video URL.

use vstd::prelude::*;

use crate::episode::{Episode, EpisodeStore};
use crate::text::{chars_of, ends_with, ends_with_exec, replace, replace_exec, string_of};
use crate::url::{clean_url, unescape};

verus! {

/// What became of one episode when covers were added.
#[derive(Debug)]
pub enum CoverOutcome {
    /// The episode has no video URL; it was skipped.
    NoVideo,
    /// The video URL does not end in `/master.m3u8`; it was skipped.
    UnexpectedUrl,
    /// The episode's cover was set to this URL.
    Added(String),
}

/// The cover URL for a video URL, if it has the expected form: the unescaped URL with
/// `/master.m3u8` replaced by `/snapshot.webp`, when it ends in `/master.m3u8`.
pub open spec fn cover_url_for(video: Seq<char>) -> Option<Seq<char>> {
    let url = unescape(video);
    if ends_with(url, "/master.m3u8"@) {
        Some(replace(url, "/master.m3u8"@, "/snapshot.webp"@))
    } else {
        None
    }
}

/// The outcome that a video URL gives.
pub open spec fn outcome_spec(video: Option<Seq<char>>, o: CoverOutcome) -> bool {
    match video {
        None => o is NoVideo,
        Some(v) => match cover_url_for(v) {
            None => o is UnexpectedUrl,
            Some(c) => o matches CoverOutcome::Added(u) && u@ == c,
        },
    }
}

/// The cover URL for an episode's video URL.
pub fn cover_for(video: &Option<String>) -> (o: CoverOutcome)
    ensures
        outcome_spec(crate::text::opt_view(*video), o),
{
    match video {
        None => CoverOutcome::NoVideo,
        Some(v) => {
            let url = chars_of(clean_url(v.as_str()).as_str());
            let master = chars_of("/master.m3u8");
            let snapshot = chars_of("/snapshot.webp");
            proof {
                reveal_strlit("/master.m3u8");
            }
            if !ends_with_exec(&url, &master) {
                CoverOutcome::UnexpectedUrl
            } else {
                CoverOutcome::Added(string_of(&replace_exec(&url, &master, &snapshot)))
            }
        },
    }
}

/// Sets the cover of every episode whose video URL has the expected form, in key order, and
/// reports for each key what happened; the episodes' other fields and the keys stay as they
/// were.
pub fn add_covers(store: &mut EpisodeStore) -> (report: Vec<(String, CoverOutcome)>)
    requires
        old(store).wf(),
    ensures
        final(store).wf(),
        final(store).entries().len() == old(store).entries().len(),
        report@.len() == old(store).entries().len(),
        forall|i: int| 0 <= i < report@.len() ==> {
            let before = #[trigger] old(store).entries()[i];
            let after = final(store).entries()[i];
            &&& report@[i].0@ == before.0@
            &&& after.0 == before.0
            &&& outcome_spec(crate::text::opt_view(before.1.video), report@[i].1)
            &&& after.1 == (match report@[i].1 {
                CoverOutcome::Added(u) => Episode { cover: Some(u), ..before.1 },
                _ => before.1,
            })
        },
{
    let mut report: Vec<(String, CoverOutcome)> = Vec::new();
    let n = store.len();
    let mut i: usize = 0;
    while i < n
        invariant
            store.wf(),
            n == store.entries().len(),
            n == old(store).entries().len(),
            i <= n,
            report@.len() == i,
            forall|j: int| i <= j < n ==> #[trigger] store.entries()[j] == old(store).entries()[j],
            forall|j: int| 0 <= j < i ==> {
                let before = #[trigger] old(store).entries()[j];
                let after = store.entries()[j];
                &&& report@[j].0@ == before.0@
                &&& after.0 == before.0
                &&& outcome_spec(crate::text::opt_view(before.1.video), report@[j].1)
                &&& after.1 == (match report@[j].1 {
                    CoverOutcome::Added(u) => Episode { cover: Some(u), ..before.1 },
                    _ => before.1,
                })
            },
        decreases n - i,
    {
        let key = store.key_at(i).clone();
        let outcome = cover_for(&store.episode_at(i).video);
        let recorded = match &outcome {
            CoverOutcome::Added(u) => {
                let mut e = store.replace_at(i, Episode::empty());
                e.cover = Some(u.clone());
                store.replace_at(i, e);
                CoverOutcome::Added(u.clone())
            },
            CoverOutcome::NoVideo => CoverOutcome::NoVideo,
            CoverOutcome::UnexpectedUrl => CoverOutcome::UnexpectedUrl,
        };
        report.push((key, recorded));
        i = i + 1;
    }
    report
}


/// The number of episodes whose cover was set.
pub open spec fn count_added(r: Seq<(String, CoverOutcome)>) -> nat
    decreases r.len(),
{
    if r.len() == 0 {
        0
    } else {
        count_added(r.drop_last()) + if r.last().1 is Added { 1nat } else { 0nat }
    }
}

/// How many covers a report says were added, and how many episodes were skipped.
pub fn tally(report: &Vec<(String, CoverOutcome)>) -> (counts: (usize, usize))
    ensures
        counts.0 == count_added(report@),
        counts.0 + counts.1 == report@.len(),
{
    let mut added: usize = 0;
    let mut skipped: usize = 0;
    let mut i: usize = 0;
    assert(report@.take(0) =~= Seq::<(String, CoverOutcome)>::empty());
    while i < report.len()
        invariant
            i <= report@.len(),
            added == count_added(report@.take(i as int)),
            added + skipped == i,
        decreases report.len() - i,
    {
        assert(report@.take(i + 1).drop_last() =~= report@.take(i as int));
        match &report[i].1 {
            CoverOutcome::Added(_) => added = added + 1,
            _ => skipped = skipped + 1,
        }
        i = i + 1;
    }
    assert(report@.take(i as int) =~= report@);
    (added, skipped)
}

} // verus!
