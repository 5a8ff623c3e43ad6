//! The viewing history: which episodes were watched, and which one was watched last.

use vstd::prelude::*;

use crate::text::{chars_of, decimal, decimal_string, parse_u32, parse_u32_exec, same_seq};

verus! {

/// One JSON value of the history file: a string, or any other value kept as its JSON text.
#[derive(Debug)]
pub enum HistoryItem {
    Text(String),
    Other(String),
}

/// A history entry: absent, a JSON list, or a single other JSON value.
#[derive(Debug)]
pub enum HistoryEntry {
    Missing,
    List(Vec<HistoryItem>),
    Single(HistoryItem),
}

/// The two history entries that the browser reads and writes; the file's other entries are
/// kept by the caller untouched.
#[derive(Debug)]
pub struct History {
    pub watched: HistoryEntry,
    pub last_watched: HistoryEntry,
}

/// The view of a history value.
pub enum ItemView {
    Text(Seq<char>),
    Other(Seq<char>),
}

/// The view of a history entry.
pub enum EntryView {
    Missing,
    List(Seq<ItemView>),
    Single(ItemView),
}

/// The view of a history value.
pub open spec fn item_view(i: HistoryItem) -> ItemView {
    match i {
        HistoryItem::Text(s) => ItemView::Text(s@),
        HistoryItem::Other(s) => ItemView::Other(s@),
    }
}

/// The view of a history entry.
pub open spec fn entry_view(e: HistoryEntry) -> EntryView {
    match e {
        HistoryEntry::Missing => EntryView::Missing,
        HistoryEntry::List(v) => EntryView::List(v@.map_values(|i: HistoryItem| item_view(i))),
        HistoryEntry::Single(i) => EntryView::Single(item_view(i)),
    }
}

/// The episode keys listed as watched: the strings of the `watched` list; none when `watched`
/// is not a list.
pub open spec fn watched_keys(watched: EntryView) -> Set<Seq<char>> {
    match watched {
        EntryView::List(items) => Set::new(|k: Seq<char>| exists|i: int| 0 <= i < items.len() && items[i] == ItemView::Text(k)),
        _ => Set::empty(),
    }
}

/// The episode watched last, when the `last_watched` entry is a string that reads as a number.
pub open spec fn last_watched_episode(last: EntryView) -> Option<u32> {
    match last {
        EntryView::Single(ItemView::Text(s)) => parse_u32(s),
        _ => None,
    }
}

/// The `watched` entry after recording `key`: an absent entry becomes a list, `key` is added to
/// a list that does not hold it yet, and any other value stays.
pub open spec fn watched_after(watched: EntryView, key: Seq<char>) -> EntryView {
    match watched {
        EntryView::Missing => EntryView::List(seq![ItemView::Text(key)]),
        EntryView::List(items) => if items.contains(ItemView::Text(key)) {
            watched
        } else {
            EntryView::List(items.push(ItemView::Text(key)))
        },
        EntryView::Single(_) => watched,
    }
}

impl History {
    /// The view of the `watched` entry.
    pub open spec fn watched_view(&self) -> EntryView {
        entry_view(self.watched)
    }

    /// The view of the `last_watched` entry.
    pub open spec fn last_view(&self) -> EntryView {
        entry_view(self.last_watched)
    }

    /// A history with neither entry.
    pub fn empty() -> (h: History)
        ensures
            h.watched_view() == EntryView::Missing,
            h.last_view() == EntryView::Missing,
    {
        History { watched: HistoryEntry::Missing, last_watched: HistoryEntry::Missing }
    }

    /// Whether `key` is listed as watched.
    pub fn is_watched(&self, key: &str) -> (b: bool)
        ensures
            b == watched_keys(self.watched_view()).contains(key@),
    {
        let k = chars_of(key);
        match &self.watched {
            HistoryEntry::List(items) => {
                let ghost iv = items@.map_values(|i: HistoryItem| item_view(i));
                let mut i: usize = 0;
                while i < items.len()
                    invariant
                        i <= items@.len(),
                        k@ == key@,
                        iv == items@.map_values(|i: HistoryItem| item_view(i)),
                        self.watched_view() == EntryView::List(iv),
                        forall|j: int| 0 <= j < i ==> #[trigger] iv[j] != ItemView::Text(key@),
                    decreases items.len() - i,
                {
                    match &items[i] {
                        HistoryItem::Text(s) => {
                            if same_seq(&chars_of(s.as_str()), &k) {
                                assert(iv[i as int] == ItemView::Text(key@));
                                assert(watched_keys(self.watched_view()).contains(key@));
                                return true;
                            }
                        },
                        HistoryItem::Other(_) => {},
                    }
                    i = i + 1;
                }
                false
            },
            _ => false,
        }
    }

    /// The episode watched last, if the history names one (`last_watched` as a number).
    pub fn last_watched_number(&self) -> (n: Option<u32>)
        ensures
            n == last_watched_episode(self.last_view()),
    {
        match &self.last_watched {
            HistoryEntry::Single(HistoryItem::Text(s)) => parse_u32_exec(&chars_of(s.as_str())),
            _ => None,
        }
    }

    /// Records an episode as watched: its key is added once to the `watched` list, and it
    /// becomes the one watched last.
    pub fn mark_watched(&mut self, episode: u32)
        ensures
            final(self).watched_view() == watched_after(old(self).watched_view(), decimal(episode as nat)),
            final(self).last_view() == EntryView::Single(ItemView::Text(decimal(episode as nat))),
    {
        let key = decimal_string(episode);
        let k = chars_of(key.as_str());
        match &mut self.watched {
            HistoryEntry::Missing => {
                let mut items: Vec<HistoryItem> = Vec::new();
                items.push(HistoryItem::Text(key.clone()));
                assert(items@.map_values(|i: HistoryItem| item_view(i)) =~= seq![ItemView::Text(k@)]);
                self.watched = HistoryEntry::List(items);
            },
            HistoryEntry::List(items) => {
                let ghost before = items@.map_values(|i: HistoryItem| item_view(i));
                let mut found = false;
                let mut i: usize = 0;
                while i < items.len()
                    invariant
                        i <= items@.len(),
                        before == items@.map_values(|i: HistoryItem| item_view(i)),
                        k@ == decimal(episode as nat),
                        found <==> exists|j: int| 0 <= j < i && before[j] == ItemView::Text(k@),
                    decreases items.len() - i,
                {
                    let ghost was = found;
                    match &items[i] {
                        HistoryItem::Text(s) => {
                            if same_seq(&chars_of(s.as_str()), &k) {
                                found = true;
                            }
                        },
                        HistoryItem::Other(_) => {},
                    }
                    proof {
                        if before[i as int] == ItemView::Text(k@) {
                            assert(found);
                        } else {
                            assert(found == was);
                            assert forall|j: int| 0 <= j < i + 1 && before[j] == ItemView::Text(k@) implies j < i by {}
                        }
                    }
                    i = i + 1;
                }
                if !found {
                    items.push(HistoryItem::Text(key.clone()));
                    proof {
                        assert(!before.contains(ItemView::Text(k@)));
                        assert(items@.map_values(|i: HistoryItem| item_view(i)) =~= before.push(ItemView::Text(k@)));
                    }
                } else {
                    proof {
                        let j = choose|j: int| 0 <= j < i && before[j] == ItemView::Text(k@);
                        assert(before.contains(ItemView::Text(k@)));
                    }
                }
            },
            HistoryEntry::Single(_) => {},
        }
        self.last_watched = HistoryEntry::Single(HistoryItem::Text(key));
    }
}

} // verus!
