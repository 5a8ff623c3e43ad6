use dbz::browser::{clean_player_line, Action, Browser, Key};
use dbz::display::row_label;
use dbz::episode::{Episode, EpisodeStore, Subtitle};
use dbz::history::{History, HistoryEntry, HistoryItem};

fn episode(title: Option<&str>, summary: Option<&str>, video: Option<&str>) -> Episode {
    let mut e = Episode::empty();
    e.title = title.map(String::from);
    e.summary = summary.map(String::from);
    e.video = video.map(String::from);
    e
}

fn catalogue() -> EpisodeStore {
    let mut s = EpisodeStore::new();
    s.insert("1".into(), episode(Some("The New Threat"), Some("Raditz arrives"), Some("https:\\/\\/v\\/1")));
    s.insert("10".into(), episode(Some("Goku's Ordeal"), None, None));
    s.insert("2".into(), episode(None, Some("Gohan trains"), Some("https://v/2")));
    s.insert("special".into(), episode(Some("Bardock"), None, Some("https://v/s")));
    s
}

fn browser(history: History) -> Browser {
    let mut b = Browser::new(catalogue(), history);
    b.populate_episodes();
    b
}

fn numbers(b: &Browser) -> Vec<u32> {
    b.rows.iter().map(|r| r.number).collect()
}

#[test]
fn populate_sorts_numerically_and_skips_non_numeric_keys() {
    let b = browser(History::empty());
    assert_eq!(numbers(&b), vec![1, 2, 10]);
    assert_eq!(b.rows[1].title, "Episode 2");
    assert_eq!(b.selected, Some(0));
    assert_eq!(b.current_episode, Some(1));
}

#[test]
fn populate_asks_for_current_cover() {
    let mut b = Browser::new(catalogue(), History::empty());
    match b.populate_episodes() {
        Action::LoadCover { episode, url } => {
            assert_eq!(episode, 1);
            assert_eq!(url, None);
        }
        other => panic!("unexpected {other:?}"),
    }
}

#[test]
fn search_matches_title_summary_and_number() {
    let mut b = browser(History::empty());
    b.on_key(Key::Char('g'));
    assert!(b.search_focused);
    assert_eq!(b.search, "g");
    // "g" occurs in the titles or summaries of 1 ("arrives"? no), 2 ("Gohan"), 10 ("Goku")
    assert_eq!(numbers(&b), vec![2, 10]);
    b.on_key(Key::Char('O'));
    assert_eq!(numbers(&b), vec![2, 10]);
    b.on_key(Key::Char('k'));
    assert_eq!(numbers(&b), vec![10]);
    b.on_key(Key::Backspace);
    b.on_key(Key::Backspace);
    assert_eq!(b.search, "g");
    assert_eq!(numbers(&b), vec![2, 10]);
    b.on_key(Key::Esc);
    assert!(!b.search_focused);
    assert_eq!(b.search, "");
    assert_eq!(numbers(&b), vec![1, 2, 10]);
}

#[test]
fn search_query_containing_a_number_shows_it() {
    let mut b = browser(History::empty());
    b.on_key(Key::Char('1'));
    b.on_key(Key::Char('0'));
    // the query "10" contains the keys "1" and "10"
    assert_eq!(numbers(&b), vec![1, 10]);
}

#[test]
fn empty_result_clears_selection() {
    let mut b = browser(History::empty());
    let a = b.on_key(Key::Char('x'));
    assert!(b.rows.is_empty());
    assert_eq!(b.selected, None);
    assert_eq!(b.current_episode, None);
    assert!(matches!(a, Some(Action::ClearCover)));
}

#[test]
fn navigation_moves_within_the_list() {
    let mut b = browser(History::empty());
    assert!(b.on_key(Key::Up).is_none());
    assert!(matches!(b.on_key(Key::Down), Some(Action::LoadCover { episode: 2, .. })));
    b.on_key(Key::Char('n'));
    assert_eq!(b.current_episode, Some(10));
    assert!(b.on_key(Key::Down).is_none());
    assert!(b.next_episode().is_none());
    b.on_key(Key::Up);
    assert_eq!(b.selected, Some(1));
    assert_eq!(b.current_episode, Some(2));
}

#[test]
fn quit_and_focus_keys() {
    let mut b = browser(History::empty());
    b.on_key(Key::Char('c'));
    assert!(!b.search_focused);
    b.on_key(Key::Esc);
    assert!(b.search_focused);
    b.on_key(Key::Enter);
    assert!(!b.search_focused);
    b.on_key(Key::Char('\u{7}'));
    assert!(!b.search_focused && !b.should_quit);
    b.on_key(Key::Char('q'));
    assert!(b.should_quit);
}

#[test]
fn restore_selects_last_watched_or_first_episode() {
    let mut h = History::empty();
    h.last_watched = HistoryEntry::Single(HistoryItem::Text("10".into()));
    let mut b = browser(h);
    assert!(b.restore_selection().is_some());
    assert_eq!(b.current_episode, Some(10));
    assert_eq!(b.selected, Some(2));

    let mut h = History::empty();
    h.last_watched = HistoryEntry::Single(HistoryItem::Text("77".into()));
    let mut b = browser(h);
    b.on_key(Key::Down);
    b.restore_selection();
    assert_eq!(b.current_episode, Some(1));
}

#[test]
fn play_uses_cleaned_video_and_default_subtitle() {
    let mut store = catalogue();
    let mut e = episode(None, None, Some("https:\\/\\/v\\/1"));
    e.subtitles = vec![
        Subtitle { file: Some("a.vtt".into()), default: false, label: None },
        Subtitle { file: None, default: true, label: None },
        Subtitle { file: Some("https:\\/\\/s\\/b.vtt".into()), default: true, label: Some("English".into()) },
    ];
    store.insert("1".into(), e);
    let mut b = Browser::new(store, History::empty());
    b.populate_episodes();
    match b.on_key(Key::Enter) {
        Some(Action::Play { video, subtitle }) => {
            assert_eq!(video, "https://v/1");
            assert_eq!(subtitle.as_deref(), Some("https://s/b.vtt"));
        }
        other => panic!("unexpected {other:?}"),
    }
    assert!(b.now_playing);
    assert_eq!(b.np_episode, 1);
    assert_eq!(b.np_title, "Episode 1");
    // keys other than q are ignored while playing
    assert!(b.on_key(Key::Down).is_none());
    assert_eq!(b.current_episode, Some(1));
    b.on_key(Key::Char('q'));
    assert!(!b.now_playing);
}

#[test]
fn play_without_video_does_nothing() {
    let mut b = browser(History::empty());
    b.on_key(Key::Down);
    b.on_key(Key::Down);
    assert_eq!(b.current_episode, Some(10));
    assert!(b.on_key(Key::Enter).is_none());
    assert!(!b.now_playing);
}

#[test]
fn finishing_marks_watched_once() {
    let mut b = browser(History::empty());
    b.play_episode(2);
    b.on_player_line("one".into());
    assert!(matches!(b.on_player_finished(), Some(Action::SaveHistory)));
    assert!(!b.now_playing);
    b.play_episode(2);
    b.on_player_finished();
    match &b.history.watched {
        HistoryEntry::List(items) => {
            assert_eq!(items.len(), 1);
            assert!(matches!(&items[0], HistoryItem::Text(k) if k == "2"));
        }
        other => panic!("unexpected {other:?}"),
    }
    assert!(b.history.is_watched("2"));
    assert_eq!(b.history.last_watched_number(), Some(2));
    b.populate_episodes();
    assert!(b.rows[1].watched);
    assert!(!b.rows[0].watched);
    assert_eq!(row_label(&b.rows[1]), "002  ✓ Episode 2");
    assert_eq!(row_label(&b.rows[0]), "001  The New Threat");
}

#[test]
fn finishing_episode_zero_saves_nothing() {
    let mut b = browser(History::empty());
    assert!(b.on_player_finished().is_none());
    assert!(matches!(b.history.watched, HistoryEntry::Missing));
}

#[test]
fn mark_watched_keeps_non_string_items_and_single_values() {
    let mut h = History::empty();
    h.watched = HistoryEntry::List(vec![HistoryItem::Other("3".into()), HistoryItem::Text("5".into())]);
    h.mark_watched(5);
    h.mark_watched(3);
    match &h.watched {
        HistoryEntry::List(items) => assert_eq!(items.len(), 3),
        other => panic!("unexpected {other:?}"),
    }
    let mut h = History::empty();
    h.watched = HistoryEntry::Single(HistoryItem::Text("5".into()));
    h.mark_watched(5);
    assert!(matches!(h.watched, HistoryEntry::Single(_)));
    assert!(!h.is_watched("5"));
}

#[test]
fn player_output_keeps_last_two_hundred_lines() {
    let mut b = browser(History::empty());
    for i in 0..250 {
        b.on_player_line(format!("line {i}"));
    }
    assert_eq!(b.np_lines.len(), 200);
    assert_eq!(b.np_lines[0], "line 50");
    assert_eq!(b.np_lines[199], "line 249");
    b.on_player_launch_failed("not found");
    assert_eq!(b.np_lines.last().unwrap(), "Failed to launch mpv: not found");
}

#[test]
fn player_lines_lose_escape_codes() {
    assert_eq!(clean_player_line("\x1b[0mAV: 00:00:01 / 00:24:00 \x1b[K\n").as_deref(), Some("AV: 00:00:01 / 00:24:00"));
    assert_eq!(clean_player_line("\x1b[2K\r\n"), None);
    assert_eq!(clean_player_line("   "), None);
}

#[test]
fn cover_applies_to_current_only() {
    let mut b = browser(History::empty());
    assert!(b.cover_applies(1));
    assert!(!b.cover_applies(2));
    b.on_key(Key::Char('x'));
    assert!(!b.cover_applies(1));
}

#[test]
fn select_episode_requires_catalogue_and_row() {
    let mut b = browser(History::empty());
    assert!(b.select_episode(99).is_none());
    b.on_key(Key::Char('g'));
    assert!(b.select_episode(1).is_none());
    assert!(b.select_episode(10).is_some());
    assert_eq!(b.selected, Some(1));
    assert_eq!(b.selected_subtitle, None);
}

#[test]
fn down_then_up_returns_to_the_same_row() {
    let mut b = browser(History::empty());
    b.on_key(Key::Down);
    let (sel, cur) = (b.selected, b.current_episode);
    b.on_key(Key::Down);
    b.on_key(Key::Up);
    assert_eq!((b.selected, b.current_episode), (sel, cur));
}

#[test]
fn typing_then_erasing_restores_the_list() {
    let mut b = browser(History::empty());
    b.on_key(Key::Char('g'));
    let before: Vec<u32> = numbers(&b);
    b.on_key(Key::Char('o'));
    b.on_key(Key::Backspace);
    assert_eq!(b.search, "g");
    assert_eq!(numbers(&b), before);
}
