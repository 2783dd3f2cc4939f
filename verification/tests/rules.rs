use limusic::autoeq::{
    curve_file, parse_index, refresh_count, refresh_plan, Fetched, IndexEntry, Refresh, INDEX_TTL,
};
use limusic::crossfade::{blends, same_album, sync, Apply, Track};
use limusic::downloads::{
    content_range_total, is_downloaded, next_item, playable, Download, Next, Transfer, CHUNK,
};
use limusic::providers::{
    best_by_duration, duration_str_secs, looks_like_json_text, lrclib_pick, parse_lrc_or_ttml,
    simpmusic_pick, LrclibTrack, SimpMusicEntry,
};
use limusic::lyrics::{from_parsed, LyricLine};

#[test]
fn index_lines_parse_with_and_without_a_rig() {
    let md = "# Index\nThis is a list of all equalization profiles.\n\n\
        - [Sennheiser HD 600](./oratory1990/over-ear/Sennheiser%20HD%20600) by oratory1990\n\
        - [1MORE Aero (ANC Off)](./HypetheSonics/GRAS%20RA0045%20in-ear/1MORE%20Aero%20(ANC%20Off)) by HypetheSonics on GRAS RA0045\n";
    let e = parse_index(md);
    assert_eq!(e.len(), 2);
    assert_eq!(
        e[0],
        IndexEntry {
            path: "oratory1990/over-ear/Sennheiser%20HD%20600".into(),
            name: "Sennheiser HD 600".into(),
            source: "oratory1990".into(),
            rig: None,
        }
    );
    assert_eq!(e[1].name, "1MORE Aero (ANC Off)");
    assert_eq!(e[1].path, "HypetheSonics/GRAS%20RA0045%20in-ear/1MORE%20Aero%20(ANC%20Off)");
    assert_eq!(e[1].source, "HypetheSonics");
    assert_eq!(e[1].rig.as_deref(), Some("GRAS RA0045"));
}

#[test]
fn index_lines_that_are_not_entries_are_skipped() {
    assert!(parse_index("-[x](./a) by b\n- [x](./a)by b\n- [x] (./a) by b\n- [](./a) by b").is_empty());
    let e = parse_index("-\t[A [b]](././p/q) by  src on   rig one  \r\n");
    assert_eq!(e.len(), 1);
    assert_eq!(e[0].name, "A [b]");
    assert_eq!(e[0].path, "p/q");
    assert_eq!(e[0].source, "src");
    assert_eq!(e[0].rig.as_deref(), Some("rig one"));
}

fn song(album: Option<&str>, album_id: Option<&str>, artists: &str) -> Track {
    Track { album: album.map(Into::into), album_id: album_id.map(Into::into), artists: artists.into() }
}

#[test]
fn an_album_is_known_by_its_id_or_else_by_name_and_artist() {
    let a = song(Some("Sky Decade"), Some("MPREb_1"), "Sơn Tùng M-TP");
    assert!(same_album(&a, &song(Some("Sky Decade"), Some("MPREb_1"), "Sơn Tùng M-TP")));
    assert!(!same_album(&a, &song(Some("Sky Decade"), Some("MPREb_2"), "Sơn Tùng M-TP")));
    assert!(same_album(&song(Some("Live"), None, "X"), &song(Some("Live"), Some("MPREb_3"), "X")));
    assert!(!same_album(
        &song(Some("Greatest Hits"), None, "X"),
        &song(Some("Greatest Hits"), None, "Y")
    ));
    assert!(!same_album(&song(None, None, "X"), &song(None, None, "X")));
}

#[test]
fn album_pairs_stay_gapless_unless_the_setting_says_otherwise() {
    let a = song(Some("Live"), Some("id"), "X");
    let b = song(Some("Other"), Some("id"), "X");
    assert!(!blends(None, &a, &b));
    assert!(!blends(Some("true"), &a, &b));
    assert!(blends(Some("false"), &a, &b));
    assert!(blends(None, &a, &song(None, Some("id2"), "X")));
}

#[test]
fn end_of_track_sleep_turns_the_crossfade_off() {
    assert_eq!(sync(true), Apply::Gapless);
    assert_eq!(sync(false), Apply::Setting);
}

#[test]
fn a_download_needs_its_row_and_its_file() {
    let d = Download { path: "/dl/a.webm".into(), audio_mime: Some("audio/webm".into()), audio_bitrate: Some(158) };
    assert!(is_downloaded(Some(&d), true));
    assert!(!is_downloaded(Some(&d), false));
    assert!(!is_downloaded(None, true));
    assert_eq!(
        playable(Some(d), true),
        Some(("/dl/a.webm".to_string(), Some("audio/webm".to_string()), Some(158)))
    );
    assert_eq!(playable(None, true), None);
    let d = Download { path: "/dl/b.m4a".into(), audio_mime: None, audio_bitrate: None };
    assert_eq!(playable(Some(d), false), None);
}

#[test]
fn content_range_gives_the_total() {
    assert_eq!(content_range_total("bytes 0-10485759/4187353"), Some(4187353));
    assert_eq!(content_range_total(" 7 "), Some(7));
    assert_eq!(content_range_total("bytes 0-1/*"), None);
}

#[test]
fn best_by_duration_skips_remixes_and_wrong_cuts() {
    // Lengths in milliseconds: Kugou's top hit for "Shape of You" is a 263 s edit of a 233 s song.
    let kugou = [Some(263_000), Some(251_000), Some(233_000)];
    assert_eq!(best_by_duration(Some(233_000), &kugou), Some(2));
    let netease = [Some(233_700), Some(231_200)];
    assert_eq!(best_by_duration(Some(233_000), &netease), Some(0));
    assert_eq!(best_by_duration(Some(233_000), &kugou[..2]), None);
    assert_eq!(best_by_duration(None, &kugou), Some(0));
    let unknown = [None];
    assert_eq!(best_by_duration(Some(233_000), &unknown), Some(0));
}

#[test]
fn best_by_duration_ties_go_to_the_first() {
    assert_eq!(best_by_duration(Some(100_000), &[None, Some(101_000), Some(99_000)]), Some(1));
    assert_eq!(best_by_duration(Some(0), &[Some(1)]), Some(0));
    assert_eq!(best_by_duration(Some(5), &[]), None);
}

fn entry(duration_ms: Option<u64>, vote: i64) -> SimpMusicEntry {
    SimpMusicEntry { synced_lyrics: None, rich_sync_lyrics: None, plain_lyric: None, duration_ms, vote }
}

#[test]
fn simpmusic_takes_the_most_voted_entry_of_the_right_length() {
    let es = [entry(Some(200_000), 5), entry(Some(260_000), 9), entry(None, 5), entry(Some(201_000), 2)];
    assert_eq!(simpmusic_pick(Some(200_000), &es), Some(2));
    assert_eq!(simpmusic_pick(None, &es), Some(1));
    assert_eq!(simpmusic_pick(Some(100_000), &es[1..2]), None);
    assert_eq!(simpmusic_pick(Some(100_000), &[entry(Some(0), 1)]), Some(0));
}

fn track(synced: Option<&str>, duration_ms: Option<u64>) -> LrclibTrack {
    LrclibTrack { instrumental: false, plain_lyrics: None, synced_lyrics: synced.map(Into::into), duration_ms }
}

#[test]
fn lrclib_search_prefers_the_closest_synced_hit() {
    let ts = [
        track(None, Some(200_000)),
        track(Some("[00:01.00]a"), Some(203_000)),
        track(Some("[00:01.00]b"), Some(201_000)),
        track(Some("  "), Some(200_000)),
        track(Some("[00:01.00]c"), None),
    ];
    assert_eq!(lrclib_pick(Some(200_000), &ts), Some(2));
    assert_eq!(lrclib_pick(None, &ts), Some(1));
    assert_eq!(lrclib_pick(Some(300_000), &ts), None);
    assert_eq!(lrclib_pick(Some(200_000), &[track(None, Some(199_000)), track(Some(" "), None)]), Some(0));
}

#[test]
fn clock_lengths_read_as_seconds() {
    assert_eq!(duration_str_secs("3:21"), Some(201));
    assert_eq!(duration_str_secs("1:02:03"), Some(3723));
    assert_eq!(duration_str_secs(" 0:00 "), None);
    assert_eq!(duration_str_secs("a:10"), None);
    assert_eq!(duration_str_secs("99999999999999999999"), None);
}

#[test]
fn from_parsed_derives_synced_from_the_lines() {
    let untimed = parse_lrc_or_ttml("<tt><body><div><p>no timing here</p></div></body></tt>", None);
    assert!(!untimed.is_empty());
    assert!(!from_parsed("X", untimed).unwrap().synced);

    // What reading `[{"text":"one"},{"text":"two"}]` as a JSON lyrics list finds.
    let text = r#"[{"text":"one"},{"text":"two"}]"#;
    assert!(looks_like_json_text(text));
    let read = vec![LyricLine::simple(None, "one".into()), LyricLine::simple(None, "two".into())];
    let json = parse_lrc_or_ttml(text, Some(read));
    assert!(!json.is_empty());
    assert!(!from_parsed("X", json).unwrap().synced);

    let timed = parse_lrc_or_ttml("[00:01.00]one\n[00:02.00]two", None);
    assert!(from_parsed("X", timed).unwrap().synced);

    assert!(from_parsed("X", Vec::new()).is_none());
}

#[test]
fn a_json_looking_payload_that_did_not_read_falls_through() {
    let lines = parse_lrc_or_ttml("[00:01.00]\"text\" <00:01.50>x", None);
    assert_eq!(lines.len(), 1);
    assert_eq!(lines[0].time_ms, Some(1000));
    let lines = parse_lrc_or_ttml("[00:01.00]\"text\"", Some(Vec::new()));
    assert_eq!(lines[0].text, "\"text\"");
}

#[test]
fn the_queue_skips_what_it_has_and_stops_when_cancelled() {
    assert_eq!(next_item(3, 3, false, false), Next::Download);
    assert_eq!(next_item(3, 3, true, false), Next::Skip);
    assert_eq!(next_item(3, 3, false, true), Next::Skip);
    assert_eq!(next_item(4, 3, false, false), Next::Stop);
}

#[test]
fn a_download_comes_in_chunks_until_a_short_one() {
    let mut t = Transfer::new();
    assert_eq!(t.next_range(), (0, CHUNK - 1));
    t.answered(Some(15_000_000));
    t.got(CHUNK);
    assert!(!t.finished(true, CHUNK));
    assert_eq!(t.next_range(), (CHUNK, 2 * CHUNK - 1));
    t.answered(Some(1));
    assert_eq!(t.total, 15_000_000);
    t.got(15_000_000 - CHUNK);
    assert!(t.finished(true, 15_000_000 - CHUNK));
    let mut u = Transfer::new();
    u.answered(None);
    u.got(CHUNK);
    assert!(!u.finished(true, CHUNK));
    assert!(u.finished(true, 10));
    assert!(u.finished(false, CHUNK));
}

#[test]
fn the_index_is_checked_weekly_and_kept_when_a_check_fails() {
    assert_eq!(refresh_plan(10, Some(1_000), 1_000 + INDEX_TTL - 1), Refresh::Fresh);
    assert_eq!(refresh_plan(10, Some(1_000), 1_000 + INDEX_TTL), Refresh::Fetch { conditional: true });
    assert_eq!(refresh_plan(0, Some(1_000), 1_001), Refresh::Fetch { conditional: false });
    assert_eq!(refresh_plan(10, None, 5), Refresh::Fetch { conditional: true });
    assert_eq!(refresh_count(10, Fetched::Unchanged), Some(10));
    assert_eq!(refresh_count(10, Fetched::Replaced(12)), Some(12));
    assert_eq!(refresh_count(10, Fetched::Failed), Some(10));
    assert_eq!(refresh_count(0, Fetched::Failed), None);
}

#[test]
fn a_curve_file_is_named_after_the_last_path_segment() {
    assert_eq!(
        curve_file("oratory1990/over-ear/Sennheiser%20HD%20600"),
        "oratory1990/over-ear/Sennheiser%20HD%20600/Sennheiser%20HD%20600%20FixedBandEQ.txt"
    );
    assert_eq!(curve_file("x"), "x/x%20FixedBandEQ.txt");
}
