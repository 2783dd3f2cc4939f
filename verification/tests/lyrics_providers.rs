use limusic::answers::{boidu_payload, json_lines, Field, JsonLine, JsonWord};
use limusic::providers::{lrclib_to_lyrics, simpmusic_to_lyrics, LrclibTrack, SimpMusicEntry};
use limusic::rich::parse_rich_sync;

#[test]
fn simpmusic_rich_sync_times_each_word_from_its_own_tag() {
    let rich = "[00:00.00] Synced by Noob.exe\n\
        [00:07.12] <00:07.12>Baby, <00:08.22>don&#x27;t <00:08.74>lights\n\
        [00:09.544]v1:<00:09.544>If <00:09.768>you <00:11.711>\n\
        [00:12.00] \n\
        [00:13.00] <00:13.00>a &lt;b&gt; <00:13.50>c";
    let entry = SimpMusicEntry {
        synced_lyrics: None,
        rich_sync_lyrics: Some(rich.into()),
        plain_lyric: None,
        duration_ms: Some(200_000),
        vote: 0,
    };
    let l = simpmusic_to_lyrics(&entry).unwrap();
    assert!(l.synced);
    assert_eq!(l.lines.len(), 4);

    let first = &l.lines[0];
    assert_eq!(first.text, "Baby, don't lights");
    let w = first.words.as_ref().unwrap();
    assert_eq!(w.len(), 3);
    assert_eq!((w[0].text.as_str(), w[0].start_ms, w[0].end_ms), ("Baby, ", 7120, 8220));
    assert_eq!((w[1].text.as_str(), w[1].start_ms, w[1].end_ms), ("don't ", 8220, 8740));
    assert_eq!((w[2].start_ms, w[2].end_ms), (8740, 9544));

    let voiced = &l.lines[1];
    assert_eq!(voiced.text, "If you");
    let w = voiced.words.as_ref().unwrap();
    assert_eq!((w[1].start_ms, w[1].end_ms), (9768, 11711));
    assert_eq!(voiced.end_time_ms, Some(11711));

    assert_eq!(l.lines[2].text, "");
    assert_eq!(l.lines[3].text, "a <b> c");
}

#[test]
fn simpmusic_falls_back_from_word_to_line_to_plain() {
    let mut e = SimpMusicEntry {
        synced_lyrics: Some("[00:01.00] one\n[00:02.00] two &amp; three".into()),
        rich_sync_lyrics: Some("   ".into()),
        plain_lyric: Some("plain".into()),
        duration_ms: None,
        vote: 0,
    };
    let l = simpmusic_to_lyrics(&e).unwrap();
    assert!(l.synced && l.lines[1].words.is_none());
    assert_eq!(l.lines[1].text, "two & three");
    e.synced_lyrics = None;
    let l = simpmusic_to_lyrics(&e).unwrap();
    assert!(!l.synced);
    assert_eq!(l.source, "SimpMusic Lyrics");
}

#[test]
fn simpmusic_with_nothing_usable_is_nothing() {
    let e = SimpMusicEntry {
        synced_lyrics: Some("[ar:someone]".into()),
        rich_sync_lyrics: None,
        plain_lyric: Some(" \n ".into()),
        duration_ms: None,
        vote: 3,
    };
    assert!(simpmusic_to_lyrics(&e).is_none());
}

#[test]
fn rich_sync_last_word_at_the_end_of_the_song_gets_a_beat() {
    let lines = parse_rich_sync("[00:05.00]<00:05.00>one <00:05.40>two");
    let w = lines[0].words.as_ref().unwrap();
    assert_eq!((w[0].start_ms, w[0].end_ms), (5000, 5400));
    assert_eq!((w[1].start_ms, w[1].end_ms), (5400, 6000));
    assert_eq!(lines[0].end_time_ms, None);
}

#[test]
fn rich_sync_text_before_the_first_tag_is_a_word_at_the_cue() {
    let lines = parse_rich_sync("[00:01.00]hey <00:01.50>you");
    let w = lines[0].words.as_ref().unwrap();
    assert_eq!(lines[0].text, "hey you");
    assert_eq!((w[0].text.as_str(), w[0].start_ms, w[0].end_ms), ("hey ", 1000, 1500));
    assert_eq!((w[1].text.as_str(), w[1].start_ms), ("you", 1500));
}

#[test]
fn lrclib_prefers_instrumental_then_synced_then_plain() {
    let mut t = LrclibTrack {
        instrumental: true,
        plain_lyrics: Some("a\nb".into()),
        synced_lyrics: Some("[00:01.00]a".into()),
        duration_ms: Some(180_000),
    };
    let l = lrclib_to_lyrics(&t).unwrap();
    assert!(l.instrumental && !l.synced && l.lines.is_empty());
    assert_eq!(l.source, "LRCLIB");
    t.instrumental = false;
    let l = lrclib_to_lyrics(&t).unwrap();
    assert!(l.synced);
    assert_eq!(l.lines[0].time_ms, Some(1000));
    t.synced_lyrics = Some("[ti:only tags]".into());
    let l = lrclib_to_lyrics(&t).unwrap();
    assert!(!l.synced);
    assert_eq!(l.lines.len(), 2);
    t.plain_lyrics = None;
    assert!(lrclib_to_lyrics(&t).is_none());
}

#[test]
fn boidu_answers_with_text_or_a_list_of_lines() {
    let text = |s: &str| Some(Field::Text(s.into()));
    assert_eq!(boidu_payload(text("[00:01.00]a"), None, None, None).as_deref(), Some("[00:01.00]a"));
    assert_eq!(boidu_payload(text(" \n\t"), None, None, None), None);
    assert_eq!(
        boidu_payload(None, None, Some(Field::List("[{\"t\":1}]".into())), None).as_deref(),
        Some("[{\"t\":1}]")
    );
    assert_eq!(boidu_payload(Some(Field::Other), None, None, None), None);
    assert_eq!(boidu_payload(None, None, None, None), None);
    // The first field there decides, in the order ttml, syncedLyrics, lyrics, lrc.
    assert_eq!(boidu_payload(None, text("synced"), text("plain"), text("lrc")).as_deref(), Some("synced"));
    assert_eq!(boidu_payload(text("ttml"), text("synced"), None, None).as_deref(), Some("ttml"));
    // A blank field is not passed over for the next one.
    assert_eq!(boidu_payload(None, text("  "), text("plain"), None), None);
}

#[test]
fn a_json_list_keeps_lines_with_text_or_a_cue() {
    let word = |text: Option<&str>, start: Option<u64>, end: Option<u64>| JsonWord {
        text: text.map(Into::into),
        start_ms: start,
        end_ms: end,
    };
    let items = vec![
        JsonLine {
            text: Some("  Hello world ".into()),
            time_ms: Some(1_000),
            words: vec![
                word(Some("Hello"), Some(1_000), Some(1_400)),
                word(Some("world"), None, None),
                word(None, Some(2_000), None),
            ],
        },
        JsonLine { text: None, time_ms: None, words: vec![] },
        JsonLine { text: Some("   ".into()), time_ms: Some(5_000), words: vec![] },
        JsonLine { text: None, time_ms: None, words: vec![word(Some("x"), Some(1), Some(2))] },
        JsonLine { text: Some("untimed".into()), time_ms: None, words: vec![word(Some("y"), None, Some(9))] },
    ];
    let lines = json_lines(&items);
    assert_eq!(lines.len(), 3);
    assert_eq!(lines[0].text, "Hello world");
    assert_eq!(lines[0].time_ms, Some(1_000));
    let ws = lines[0].words.as_ref().unwrap();
    assert_eq!(ws.len(), 3);
    // A word with no times takes its line's cue and half a second.
    assert_eq!((ws[1].start_ms, ws[1].end_ms), (1_000, 1_500));
    assert_eq!((ws[2].text.as_str(), ws[2].start_ms, ws[2].end_ms), ("", 2_000, 2_500));
    assert_eq!((lines[1].text.as_str(), lines[1].time_ms), ("", Some(5_000)));
    assert!(lines[1].words.is_none());
    // No start anywhere: the word is dropped, and with it the list.
    assert_eq!(lines[2].text, "untimed");
    assert!(lines[2].words.is_none());
}
