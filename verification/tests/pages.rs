use dbz::episode::Episode;
use dbz::metadata::{apply_metadata, extract_metadata, fetch_episode, metadata_from_texts, Metadata};
use dbz::video::{episode_from_player, failed_episode, get_video_data, json_from_configs, player_data, VideoError};
use dbz::episode::Subtitle;

const PAGE: &str = r#"<html><head><title>t</title></head><body>
<div class="info">
  <h1>- Episode 1</h1>
  <span>Regular</span>
  <span>1989-04-26</span>
  <span>Special</span>
</div>
<p>Please disable your adblock, intrusive ads keep this site alive and well today.</p>
<p>short</p>
<p>   Goku's older brother Raditz arrives on Earth looking for him, bringing bad news.   </p>
<div>Duration:</div><div>24:10</div>
<div>Duration:</div><div>soon</div>
<div>Source:</div><div>BD</div>
<div>Audio:</div><div>Japanese</div>
<div>Softsub:</div><div>English</div>
</body></html>"#;

#[test]
fn extract_metadata_reads_every_field() {
    let m = extract_metadata(PAGE);
    assert_eq!(m.title.as_deref(), Some("Episode 1"));
    assert_eq!(m.kind.as_deref(), Some("Regular"));
    assert_eq!(m.air_date.as_deref(), Some("1989-04-26"));
    assert_eq!(
        m.summary.as_deref(),
        Some("Goku's older brother Raditz arrives on Earth looking for him, bringing bad news.")
    );
    assert_eq!(m.duration.as_deref(), Some("24:10"));
    assert_eq!(m.source.as_deref(), Some("BD"));
    assert_eq!(m.audio.as_deref(), Some("Japanese"));
    assert_eq!(m.softsub.as_deref(), Some("English"));
}

#[test]
fn extract_metadata_of_empty_page() {
    let m = extract_metadata("<html><body></body></html>");
    assert!(m.title.is_none() && m.kind.is_none() && m.air_date.is_none() && m.summary.is_none());
    assert!(m.duration.is_none() && m.source.is_none() && m.audio.is_none() && m.softsub.is_none());
}

#[test]
fn metadata_from_texts_uses_last_label_and_skips_bad_duration() {
    let page: Vec<String> = ["Duration:", "23:59", "Source:", "TV", "Source:", "DVD", "Duration:", "n/a", "Audio:"]
        .iter()
        .map(|s| s.to_string())
        .collect();
    let m = metadata_from_texts(None, Some(vec!["Special".to_string()]), &Vec::new(), &page);
    assert_eq!(m.title, None);
    // without a heading the block around it is not read
    assert_eq!(m.kind, None);
    assert_eq!(m.duration.as_deref(), Some("23:59"));
    assert_eq!(m.source.as_deref(), Some("DVD"));
    assert_eq!(m.audio, None);
}

#[test]
fn metadata_title_strips_dashes_and_kind_prefers_regular() {
    let heading = vec!["  - - ".to_string(), "Goku\n".to_string()];
    let block = vec!["Special\r\nRegular\n\n".to_string()];
    let m = metadata_from_texts(Some(heading), Some(block), &Vec::new(), &Vec::new());
    assert_eq!(m.title.as_deref(), Some("Goku"));
    assert_eq!(m.kind.as_deref(), Some("Regular"));
}

#[test]
fn apply_metadata_overwrites_the_eight_fields() {
    let mut e = Episode::empty();
    e.title = Some("old".to_string());
    e.video = Some("v".to_string());
    let mut m = Metadata::empty();
    m.summary = Some("s".to_string());
    apply_metadata(&mut e, m);
    assert_eq!(e.title, None);
    assert_eq!(e.summary.as_deref(), Some("s"));
    assert_eq!(e.video.as_deref(), Some("v"));
}

#[test]
fn fetch_episode_without_page() {
    let (key, m, err) = fetch_episode("3".to_string(), &Episode::empty(), Ok(PAGE.to_string()));
    assert_eq!(key, "3");
    assert!(m.title.is_none());
    assert_eq!(err.as_deref(), Some("no page URL"));
}

#[test]
fn fetch_episode_with_page() {
    let mut e = Episode::empty();
    e.page = Some("https://example/1".to_string());
    let (_, m, err) = fetch_episode("1".to_string(), &e, Ok(PAGE.to_string()));
    assert!(err.is_none());
    assert_eq!(m.title.as_deref(), Some("Episode 1"));
    let (_, m, err) = fetch_episode("1".to_string(), &e, Err("request failed".to_string()));
    assert_eq!(err.as_deref(), Some("request failed"));
    assert!(m.summary.is_none());
}

const PLAYER: &str = r#"<html><body>
<div x-data="other()"></div>
<div x-data="vidstackPlayer(JSON.parse('{\u0022src\u0022:\u0022https:\/\/cdn\/a\/master.m3u8\u0022,\u0022subtitles\u0022:[]}'))"></div>
</body></html>"#;

#[test]
fn get_video_data_decodes_embedded_json() {
    let (src, subtitles) = get_video_data(PLAYER).unwrap();
    assert_eq!(src.as_deref(), Some("https://cdn/a/master.m3u8"));
    assert_eq!(subtitles, Some(vec![]));
}

const PLAYER_WITH_SUBTITLES: &str = r#"<div x-data="vidstackPlayer(JSON.parse('{\u0022subtitles\u0022:[{\u0022file\u0022:\u0022a.vtt\u0022,\u0022default\u0022:true},7]}'))"></div>"#;

#[test]
fn get_video_data_hands_back_subtitle_entries_as_json() {
    let (src, subtitles) = get_video_data(PLAYER_WITH_SUBTITLES).unwrap();
    assert!(src.is_none());
    assert_eq!(
        subtitles,
        Some(vec![r#"{"default":true,"file":"a.vtt"}"#.to_string(), "7".to_string()])
    );
}

#[test]
fn get_video_data_errors() {
    assert_eq!(get_video_data("<html><body><div x-data=\"x\"></div></body></html>"), Err(VideoError::ConfigNotFound));
    let no_parse = vec![Some("vidstackPlayer({})".to_string())];
    assert_eq!(json_from_configs(&no_parse), Err(VideoError::JsonStartNotFound));
    let no_end = vec![None, Some("vidstackPlayer(JSON.parse('{}".to_string())];
    assert_eq!(json_from_configs(&no_end), Err(VideoError::JsonEndNotFound));
    let not_json = r#"<div x-data="vidstackPlayer(JSON.parse('{src:1}'))"></div>"#;
    assert_eq!(get_video_data(not_json), Err(VideoError::InvalidJson));
    let not_object = r#"<div x-data="vidstackPlayer(JSON.parse('[1,2]'))"></div>"#;
    assert_eq!(get_video_data(not_object), Ok((None, None)));
    assert_eq!(VideoError::JsonEndNotFound.message(), "End of JSON data not found");
    assert_eq!(VideoError::ConfigNotFound.message(), "Video configuration not found");
    assert_eq!(VideoError::InvalidJson.message(), "failed to parse embedded JSON");
}

#[test]
fn player_data_reports_unparsed_json() {
    assert_eq!(player_data(None, None), Err(VideoError::InvalidJson));
    assert_eq!(player_data(Some(None), None), Err(VideoError::InvalidJson));
    assert_eq!(player_data(None, Some(None)), Err(VideoError::InvalidJson));
    let subtitles = Some(vec!["{}".to_string()]);
    assert_eq!(
        player_data(Some(Some("s".to_string())), Some(subtitles.clone())),
        Ok((Some("s".to_string()), subtitles))
    );
}

#[test]
fn get_video_data_reads_only_its_own_keys() {
    let page = r#"<div x-data="vidstackPlayer(JSON.parse('{\u0022source\u0022:\u0022x\u0022,\u0022src\u0022:5,\u0022subs\u0022:[1]}'))"></div>"#;
    assert_eq!(get_video_data(page), Ok((None, None)));
}

#[test]
fn episode_records_from_player() {
    let sub = Subtitle { file: Some("f.vtt".to_string()), default: true, label: None };
    let e = episode_from_player(
        "https://p/1".to_string(),
        Some("https://v".to_string()),
        Some(vec![None, Some(sub), None]),
    );
    assert_eq!(e.page.as_deref(), Some("https://p/1"));
    assert_eq!(e.video.as_deref(), Some("https://v"));
    assert_eq!(e.subtitles.len(), 1);
    assert_eq!(e.subtitles[0].file.as_deref(), Some("f.vtt"));
    let f = failed_episode("https://p/2".to_string(), "boom".to_string());
    assert_eq!(f.error.as_deref(), Some("boom"));
    assert!(f.video.is_none());
}
