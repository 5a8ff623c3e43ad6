use dbz::covers::{add_covers, cover_for, tally, CoverOutcome};
use dbz::episode::{Episode, EpisodeStore};
use dbz::paths::{choose_data_dir, cover_cache_path, cover_download_plan, data_path, join_path_exec};
use dbz::text::{chars_of, decimal_string, is_whitespace, parse_u32_exec, string_of, trim_str};
use dbz::url::clean_url;
use dbz::video::episode_page_url;

#[test]
fn clean_url_collapses_escaped_slashes() {
    assert_eq!(clean_url("https:\\/\\/seiryuu.example\\/abc\\/master.m3u8"), "https://seiryuu.example/abc/master.m3u8");
}

#[test]
fn clean_url_repeats_until_none_remain() {
    assert_eq!(clean_url("a\\\\/b"), "a/b");
    assert_eq!(clean_url("a\\\\\\/b"), "a/b");
}

#[test]
fn clean_url_keeps_other_backslashes() {
    assert_eq!(clean_url("a\\b\\"), "a\\b\\");
    assert_eq!(clean_url("plain/url"), "plain/url");
    assert_eq!(clean_url(""), "");
}

#[test]
fn clean_url_is_idempotent() {
    let once = clean_url("x\\\\\\/y\\/z\\");
    assert_eq!(clean_url(&once), once);
}

#[test]
fn trim_removes_unicode_whitespace() {
    assert_eq!(trim_str("  \t hello world \n"), "hello world");
    assert_eq!(trim_str("\u{a0}x\u{a0}"), "x");
    assert_eq!(trim_str("   "), "");
}

#[test]
fn decimal_and_parse_round_trip() {
    for n in [0u32, 7, 10, 99, 291, 4294967295] {
        let s = decimal_string(n);
        assert_eq!(s, n.to_string());
        assert_eq!(parse_u32_exec(&chars_of(&s)), Some(n));
    }
}

#[test]
fn parse_matches_std() {
    for s in ["", "+", "-", "+7", "-7", "007", "4294967296", "12a", " 1", "99999999999"] {
        assert_eq!(parse_u32_exec(&chars_of(s)), s.parse::<u32>().ok(), "input {s:?}");
    }
}

#[test]
fn string_of_chars_round_trips() {
    assert_eq!(string_of(&chars_of("Kamehameha ✓")), "Kamehameha ✓");
}

#[test]
fn cover_cache_path_pads_to_three_digits() {
    assert_eq!(cover_cache_path("/data", 7), "/data/cache/covers/007.webp");
    assert_eq!(cover_cache_path("/data/", 42), "/data/cache/covers/042.webp");
    assert_eq!(cover_cache_path("/data", 291), "/data/cache/covers/291.webp");
    assert_eq!(cover_cache_path("/data", 1234), "/data/cache/covers/1234.webp");
}

#[test]
fn data_path_joins_like_path_join() {
    assert_eq!(data_path("/home/u/dbz", "episodes.json"), "/home/u/dbz/episodes.json");
    assert_eq!(data_path("", "history.json"), "history.json");
    assert_eq!(join_path_exec("/a", "/b"), "/b");
    let joined = std::path::Path::new("rel/dir").join("x.json");
    assert_eq!(data_path("rel/dir", "x.json"), joined.to_str().unwrap());
}

#[test]
fn data_dir_prefers_working_directory() {
    let anc = vec![("/opt/bin".to_string(), false), ("/opt".to_string(), true), ("/".to_string(), true)];
    assert_eq!(choose_data_dir(Some("/work".to_string()), true, anc.clone()), "/work");
    assert_eq!(choose_data_dir(Some("/work".to_string()), false, anc), "/opt");
    assert_eq!(choose_data_dir(Some("/work".to_string()), false, vec![("/opt".to_string(), false)]), "/work");
    assert_eq!(choose_data_dir(None, false, Vec::new()), ".");
}

#[test]
fn download_plan_needs_url() {
    assert!(cover_download_plan(None, "/d", 3).is_none());
    let (url, path) = cover_download_plan(Some("https:\\/\\/x\\/snapshot.webp"), "/d", 3).unwrap();
    assert_eq!(url, "https://x/snapshot.webp");
    assert_eq!(path, "/d/cache/covers/003.webp");
}

#[test]
fn episode_page_url_fills_number() {
    assert_eq!(episode_page_url(5), "https://anizone.to/anime/99nxtlfu/5");
    assert_eq!(episode_page_url(291), "https://anizone.to/anime/99nxtlfu/291");
}

fn with_video(v: Option<&str>) -> Episode {
    let mut e = Episode::empty();
    e.video = v.map(|s| s.to_string());
    e
}

#[test]
fn cover_for_derives_snapshot() {
    match cover_for(&Some("https:\\/\\/cdn\\/id\\/master.m3u8".to_string())) {
        CoverOutcome::Added(u) => assert_eq!(u, "https://cdn/id/snapshot.webp"),
        other => panic!("unexpected {other:?}"),
    }
    assert!(matches!(cover_for(&None), CoverOutcome::NoVideo));
    assert!(matches!(cover_for(&Some("https://cdn/id/index.m3u8".to_string())), CoverOutcome::UnexpectedUrl));
}

#[test]
fn add_covers_reports_each_episode_in_key_order() {
    let mut store = EpisodeStore::new();
    store.insert("2".to_string(), with_video(Some("https://c/two/master.m3u8")));
    store.insert("10".to_string(), with_video(None));
    store.insert("1".to_string(), with_video(Some("https://c/one/video.mp4")));
    let report = add_covers(&mut store);
    let keys: Vec<&str> = report.iter().map(|(k, _)| k.as_str()).collect();
    assert_eq!(keys, vec!["1", "10", "2"]);
    assert!(matches!(report[0].1, CoverOutcome::UnexpectedUrl));
    assert!(matches!(report[1].1, CoverOutcome::NoVideo));
    assert!(matches!(&report[2].1, CoverOutcome::Added(u) if u == "https://c/two/snapshot.webp"));
    assert_eq!(store.get("2").unwrap().cover.as_deref(), Some("https://c/two/snapshot.webp"));
    assert_eq!(store.get("1").unwrap().cover, None);
    assert_eq!(tally(&report), (1, 2));
}

#[test]
fn store_insert_replaces_and_keeps_order() {
    let mut store = EpisodeStore::new();
    store.insert("b".to_string(), with_video(Some("1")));
    store.insert("a".to_string(), with_video(Some("2")));
    store.insert("b".to_string(), with_video(Some("3")));
    assert_eq!(store.len(), 2);
    assert_eq!(store.key_at(0), "a");
    assert_eq!(store.key_at(1), "b");
    assert_eq!(store.get("b").unwrap().video.as_deref(), Some("3"));
    assert!(store.contains_key("a"));
    assert!(!store.contains_key("c"));
    assert!(store.get("c").is_none());
}

fn listed_whitespace(c: char) -> bool {
    matches!(
        c as u32,
        0x20 | 0x09..=0x0d | 0x85 | 0xa0 | 0x1680 | 0x2000..=0x200a | 0x2028 | 0x2029 | 0x202f | 0x205f | 0x3000
    )
}

#[test]
fn whitespace_is_the_unicode_white_space_list() {
    for c in (0u32..=0x10ffff).filter_map(char::from_u32) {
        assert_eq!(c.is_whitespace(), listed_whitespace(c), "U+{:04X}", c as u32);
        assert_eq!(is_whitespace(c), c.is_whitespace(), "U+{:04X}", c as u32);
    }
}

#[test]
fn trim_strips_exactly_the_listed_whitespace() {
    for c in (0u32..=0x3000).filter_map(char::from_u32) {
        let alone = c.to_string();
        let expected = if listed_whitespace(c) { String::new() } else { alone.clone() };
        assert_eq!(trim_str(&alone), expected, "U+{:04X}", c as u32);
    }
    assert_eq!(trim_str("x"), "x");
    assert_eq!(trim_str("\u{3000}\u{2028}a b\u{85}"), "a b");
    assert_eq!(trim_str("\u{200b}x"), "\u{200b}x");
}

#[test]
fn cover_paths_differ_between_episodes() {
    let paths: Vec<String> = [0u32, 1, 7, 10, 70, 100, 291, 999, 1000, 7000].iter().map(|&e| cover_cache_path("d", e)).collect();
    for i in 0..paths.len() {
        for j in 0..i {
            assert_ne!(paths[i], paths[j]);
        }
    }
    assert_eq!(cover_cache_path("d", 70), "d/cache/covers/070.webp");
    assert_eq!(cover_cache_path("d", 7000), "d/cache/covers/7000.webp");
}

#[test]
fn get_after_insert_gives_the_stored_episode() {
    let mut store = EpisodeStore::new();
    store.insert("1".to_string(), with_video(Some("one")));
    store.insert("2".to_string(), with_video(Some("two")));
    let before = store.len();
    store.insert("3".to_string(), with_video(Some("three")));
    assert_eq!(store.len(), before + 1);
    assert_eq!(store.get("3").unwrap().video.as_deref(), Some("three"));
    assert_eq!(store.get("1").unwrap().video.as_deref(), Some("one"));
    store.insert("1".to_string(), with_video(None));
    assert_eq!(store.len(), before + 1);
    assert!(store.get("1").unwrap().video.is_none());
    assert_eq!(store.get("2").unwrap().video.as_deref(), Some("two"));
}
