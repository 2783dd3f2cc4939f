use limusic::chain::{advance, Chain, Event, Stage};
use limusic::codec::{base64_text, decoded_or_raw, qq_lyric_text};
use limusic::lrc::parse_lrc;
use limusic::lyrics::{LyricLine, LyricWord, Lyrics};
use limusic::providers::{netease_lyrics, LrclibTrack};

#[test]
fn qq_lyrics_are_read_out_of_base64_or_as_written() {
    assert_eq!(qq_lyric_text("WzAwOjAxLjAwXWhp"), "[00:01.00]hi");
    assert_eq!(qq_lyric_text("WzAwOjAyLjAwXeengQ=="), "[00:02.00]私");
    assert_eq!(qq_lyric_text("[00:01.00]hi"), "[00:01.00]hi");
    assert_eq!(base64_text("aGk="), Some("hi".to_string()));
    assert_eq!(base64_text("/w=="), None, "one byte that is not UTF-8");
    assert_eq!(base64_text("not base64!"), None);
    assert_eq!(decoded_or_raw("raw", None), "raw");
    assert_eq!(decoded_or_raw("raw", Some("text".into())), "text");
}

#[test]
fn netease_muxes_words_and_attaches_its_translation() {
    let lines = parse_lrc("[00:10.00]Hello world\n[00:14.00]Bye");
    let words = vec![LyricLine {
        time_ms: Some(10_100),
        end_time_ms: Some(13_000),
        text: "Hello world".into(),
        words: Some(vec![LyricWord { text: "Hello ".into(), start_ms: 10_100, end_ms: 12_000 }]),
        translation: None,
    }];
    let l = netease_lyrics(lines, Some(words), Some("[00:10.02]Halo dunia\n[00:14.00]Dah")).unwrap();
    assert_eq!(l.source, "Netease Cloud Music");
    assert!(l.synced);
    assert!(l.lines[0].words.is_some());
    assert_eq!(l.lines[0].end_time_ms, Some(13_000));
    assert_eq!(l.lines[0].translation.as_deref(), Some("Halo dunia"));
    assert_eq!(l.lines[1].translation.as_deref(), Some("Dah"));
    assert!(netease_lyrics(Vec::new(), None, None).is_none());
}

fn lyrics(source: &str, synced: bool) -> Lyrics {
    Lyrics {
        source: source.into(),
        synced,
        instrumental: false,
        lines: vec![LyricLine::simple(if synced { Some(1000) } else { None }, "la".into())],
    }
}

fn track(synced: Option<&str>, plain: Option<&str>) -> LrclibTrack {
    LrclibTrack {
        instrumental: false,
        plain_lyrics: plain.map(Into::into),
        synced_lyrics: synced.map(Into::into),
        duration_ms: Some(200_000),
    }
}

#[test]
fn a_run_where_everything_errors_caches_nothing() {
    let mut c = Chain::new(false, true);
    let mut steps = 0;
    let out = loop {
        steps += 1;
        if let Some(o) = advance(&mut c, Event::Failed) {
            break o;
        }
    };
    assert_eq!(steps, 12);
    assert!(out.0.is_none());
    assert!(!out.1);
}

#[test]
fn lrclib_saying_no_is_a_definitive_miss() {
    let mut c = Chain::new(false, true);
    assert!(advance(&mut c, Event::Skipped).is_none());
    assert!(advance(&mut c, Event::Failed).is_none());
    assert_eq!(c.stage, Stage::LrclibGet);
    assert!(advance(&mut c, Event::Track(None)).is_none());
    assert!(c.definitive);
    let out = loop {
        if let Some(o) = advance(&mut c, Event::Skipped) {
            break o;
        }
    };
    assert!(out.0.is_none() && out.1);
}

#[test]
fn simpmusic_first_and_cached_only_with_a_length() {
    let mut c = Chain::new(true, false);
    let out = advance(&mut c, Event::Lyrics(Some(lyrics("SimpMusic Lyrics", true)))).unwrap();
    assert_eq!(out.0.unwrap().source, "SimpMusic Lyrics");
    assert!(!out.1, "no length: shown, not cached");
    let mut c = Chain::new(true, true);
    let out = advance(&mut c, Event::Lyrics(Some(lyrics("SimpMusic Lyrics", true)))).unwrap();
    assert!(out.1);
}

#[test]
fn a_definitive_miss_without_a_length_is_not_cached() {
    let mut c = Chain::new(true, false);
    let out = loop {
        if let Some(o) = advance(&mut c, Event::Skipped) {
            break o;
        }
    };
    assert!(c.definitive);
    assert!(out.0.is_none() && !out.1);
}

#[test]
fn plain_lrclib_waits_for_every_synced_source() {
    let mut c = Chain::new(true, true);
    assert!(advance(&mut c, Event::Failed).is_none());
    assert!(advance(&mut c, Event::Failed).is_none());
    // LRCLIB has the track, but only as plain text: not shown yet.
    assert!(advance(&mut c, Event::Track(Some(track(None, Some("one\ntwo"))))).is_none());
    assert_eq!(c.stage, Stage::YouTubeTimed);
    assert!(advance(&mut c, Event::Timed(Vec::new())).is_none());
    for _ in 0..3 {
        assert!(advance(&mut c, Event::Lyrics(None)).is_none());
    }
    assert_eq!(c.stage, Stage::LrclibSearch);
    assert!(advance(&mut c, Event::Track(Some(track(Some("  "), Some("fuzzy"))))).is_none());
    let out = advance(&mut c, Event::Skipped).unwrap();
    let l = out.0.unwrap();
    assert_eq!(l.source, "LRCLIB");
    assert_eq!(l.lines.len(), 2);
    assert!(!l.synced);
    assert!(out.1);
}

#[test]
fn youtube_timed_lines_are_shown_and_cached_with_a_length() {
    for known in [false, true] {
        let mut c = Chain::new(true, known);
        for _ in 0..3 {
            assert!(advance(&mut c, Event::Skipped).is_none());
        }
        let out =
            advance(&mut c, Event::Timed(vec![LyricLine::simple(Some(500), "yt".into())])).unwrap();
        let l = out.0.unwrap();
        assert_eq!(l.source, "YouTube Music");
        assert!(l.synced);
        assert_eq!(out.1, known);
    }
}

#[test]
fn youtube_plain_lyrics_carry_their_footer() {
    let mut c = Chain::new(true, true);
    while c.stage != Stage::PlainYouTube {
        assert!(advance(&mut c, Event::Skipped).is_none());
    }
    let out = advance(&mut c, Event::Plain(Some(("a\nb".into(), Some("Source: Musixmatch".into())))))
        .unwrap();
    assert_eq!(out.0.unwrap().source, "Source: Musixmatch");
}

#[test]
fn a_synced_lrclib_match_is_shown_at_once() {
    let mut c = Chain::new(false, false);
    advance(&mut c, Event::Skipped);
    advance(&mut c, Event::Skipped);
    let out = advance(&mut c, Event::Track(Some(track(Some("[00:01.00]x"), None)))).unwrap();
    assert!(out.0.unwrap().synced);
    assert!(!out.1, "no length, so the match may be a wrong cut: not cached");
}
