use dbz::browser::Browser;
use dbz::episode::{Episode, EpisodeStore};
use dbz::history::History;

fn store() -> EpisodeStore {
    let mut s = EpisodeStore::new();
    let mut e = Episode::empty();
    e.title = Some("Raditz".into());
    e.kind = Some("Regular".into());
    e.duration = Some("24:10".into());
    e.audio = Some("Japanese".into());
    e.softsub = Some("English".into());
    e.summary = Some("Goku's brother".into());
    s.insert("4".into(), e);
    s
}

#[test]
fn detail_panel_text() {
    let mut b = Browser::new(store(), History::empty());
    b.populate_episodes();
    assert_eq!(b.episode_heading(), "Episode 004");
    assert_eq!(b.detail_title(), "Raditz");
    assert_eq!(b.detail_metadata(), "Regular • 24:10 • Audio: Japanese • CC: English");
    assert_eq!(b.detail_summary(), "Goku's brother");
}

#[test]
fn detail_panel_without_episodes() {
    let mut b = Browser::new(EpisodeStore::new(), History::empty());
    b.populate_episodes();
    assert_eq!(b.episode_heading(), "");
    assert_eq!(b.detail_title(), "No episodes found");
    assert_eq!(b.detail_metadata(), "");
    assert_eq!(b.detail_summary(), "");
}

#[test]
fn search_box_and_footer() {
    let mut b = Browser::new(store(), History::empty());
    assert_eq!(b.search_box_text(), "Type to search...");
    b.search = "gok".into();
    assert_eq!(b.search_box_text(), "gok");
    assert_eq!(b.footer_text(), "q Quit   n Next   Enter Play   Type to search");
    b.now_playing = true;
    assert_eq!(b.footer_text(), "q Back");
}

#[test]
fn now_playing_screen() {
    let mut b = Browser::new(store(), History::empty());
    b.populate_episodes();
    b.np_episode = 4;
    assert_eq!(b.now_playing_heading(), "Now Playing — Episode 004");
    b.np_lines = vec!["a".into(), "b\r\nc".into(), "".into()];
    assert_eq!(b.player_log_lines(), vec!["a".to_string(), "b".into(), "c".into()]);
    let joined = b.np_lines.join("\n");
    let expected: Vec<String> = joined.lines().map(String::from).collect();
    assert_eq!(b.player_log_lines(), expected);
}

#[test]
fn player_log_lines_match_str_lines() {
    let mut b = Browser::new(store(), History::empty());
    for lines in [vec!["x\r"], vec!["\r", ""], vec!["a\r\r", "b"], vec![""], vec!["\n\n"], vec!["q", "r\r\ns\r"]] {
        b.np_lines = lines.iter().map(|s| s.to_string()).collect();
        let joined = b.np_lines.join("\n");
        let expected: Vec<String> = joined.lines().map(String::from).collect();
        assert_eq!(b.player_log_lines(), expected, "lines of {joined:?}");
    }
}
