use limusic::community::{decode_entities, is_credit_line, strip_voice_marker};
use limusic::lrc::parse_lrc;
use limusic::lyrics::{from_parsed, plain_from_text, LyricLine, LyricWord};
use limusic::merge::{attach_translations, lrc_mux};

#[test]
fn plain_text_splits_lines() {
    let l = plain_from_text(Some("one\ntwo\n\nthree"), "LRCLIB").unwrap();
    assert!(!l.synced);
    assert_eq!(l.lines.len(), 4);
    assert_eq!(l.lines[2].text, "");
}

#[test]
fn plain_text_blank_or_missing_is_nothing() {
    assert!(plain_from_text(None, "X").is_none());
    assert!(plain_from_text(Some(" \n\t "), "X").is_none());
    let l = plain_from_text(Some("  a  \r\nb\n"), "Y").unwrap();
    assert_eq!(l.source, "Y");
    assert_eq!(l.lines.iter().map(|x| x.text.as_str()).collect::<Vec<_>>(), vec!["a", "b"]);
    assert!(l.lines.iter().all(|x| x.time_ms.is_none()));
}

#[test]
fn from_parsed_synced_follows_the_cues() {
    assert!(from_parsed("X", Vec::new()).is_none());
    let plain = vec![LyricLine::simple(None, "a".into())];
    assert!(!from_parsed("X", plain).unwrap().synced);
    let mixed = vec![LyricLine::simple(None, "a".into()), LyricLine::simple(Some(5), "b".into())];
    let l = from_parsed("Src", mixed).unwrap();
    assert!(l.synced);
    assert!(!l.instrumental);
    assert_eq!(l.source, "Src");
}

#[test]
fn helpers_for_community_lyrics() {
    assert_eq!(strip_voice_marker("v1:<00:01.00>hi"), "<00:01.00>hi");
    assert_eq!(strip_voice_marker("<00:01.00>v1: no"), "<00:01.00>v1: no");
    assert_eq!(strip_voice_marker("Verse: words"), "Verse: words");
    assert!(is_credit_line("  Lyrics synced by someone"));
    assert!(!is_credit_line("Synchronized hearts"));
    assert_eq!(
        decode_entities("a &#39;b&#x27; &unknown; & c &#128512;"),
        "a 'b' &unknown; & c 😀"
    );
}

#[test]
fn entities_edge_cases() {
    assert_eq!(decode_entities("&lt;b&gt; &quot;x&quot; &apos;&nbsp;"), "<b> \"x\" ' ");
    // A surrogate or an out-of-range code point is not a character: left as written.
    assert_eq!(decode_entities("&#xD800; &#1114112;"), "&#xD800; &#1114112;");
    // The `;` has to come within ten characters of the `&`.
    assert_eq!(decode_entities("&#0000000065;"), "&#0000000065;");
    assert_eq!(decode_entities("&#00000065;"), "A");
    assert_eq!(decode_entities("&#000000065;"), "&#000000065;");
    assert_eq!(decode_entities("no entities"), "no entities");
    assert_eq!(decode_entities("&&amp;"), "&&");
    assert_eq!(strip_voice_marker("  v:rest"), "rest");
    assert_eq!(strip_voice_marker("v123:x"), "v123:x");
    assert!(is_credit_line("TIMED BY me"));
}

#[test]
fn translations_attach_to_the_nearest_line_or_not_at_all() {
    let lines = || {
        vec![
            LyricLine::simple(Some(1000), "one".into()),
            LyricLine::simple(Some(5000), "two".into()),
            LyricLine::simple(Some(9000), "three".into()),
            LyricLine::simple(Some(13000), "four".into()),
        ]
    };
    // A few centiseconds off each cue still pairs, where an exact match found nothing.
    let mut l = lines();
    let close = parse_lrc("[00:01.04]un\n[00:04.97]deux\n[00:09.02]trois\n[00:13.30]quatre");
    assert!(attach_translations(&mut l, &close));
    assert_eq!(l[1].translation.as_deref(), Some("deux"));
    assert_eq!(l[3].translation.as_deref(), Some("quatre"));

    // One stray line out of four is tolerated (exactly 25%)...
    let mut l = lines();
    let one_off = parse_lrc("[00:01.00]un\n[00:05.00]deux\n[00:09.00]trois\n[00:20.00]quatre");
    assert!(attach_translations(&mut l, &one_off));
    assert!(l[3].translation.is_none());

    // ...but a translation timed against another cut is refused whole.
    let mut l = lines();
    let shifted = parse_lrc("[00:03.00]un\n[00:07.00]deux\n[00:11.00]trois\n[00:15.00]quatre");
    assert!(!attach_translations(&mut l, &shifted));
    assert!(l.iter().all(|x| x.translation.is_none()));
}

#[test]
fn a_translation_line_takes_one_original_and_nearest_first() {
    let mut l = vec![LyricLine::simple(Some(1000), "a".into()), LyricLine::simple(Some(1400), "b".into())];
    let t = vec![LyricLine::simple(Some(1300), "B".into()), LyricLine::simple(Some(1300), "A".into())];
    assert!(attach_translations(&mut l, &t));
    assert_eq!(l[1].translation.as_deref(), Some("B"));
    assert_eq!(l[0].translation.as_deref(), Some("A"));
    // Nothing placeable: refused.
    let mut l2 = vec![LyricLine::simple(Some(1000), "a".into())];
    assert!(!attach_translations(&mut l2, &[LyricLine::simple(None, "x".into())]));
}

#[test]
fn lrc_mux_combines_lines_and_word_sources() {
    let primary = vec![LyricLine::simple(Some(10000), "Hello world".into())];
    let word_source = vec![LyricLine {
        time_ms: Some(10100),
        end_time_ms: Some(14000),
        text: "Hello world".into(),
        words: Some(vec![LyricWord { text: "Hello ".into(), start_ms: 10100, end_ms: 12000 }]),
        translation: Some("Halo dunia".into()),
    }];
    let muxed = lrc_mux(primary, word_source);
    assert_eq!(muxed.len(), 1);
    assert!(muxed[0].words.is_some());
    assert_eq!(muxed[0].translation.as_deref(), Some("Halo dunia"));
}

#[test]
fn lrc_mux_leaves_far_and_untimed_lines_alone() {
    let primary = vec![
        LyricLine::simple(None, "untimed".into()),
        LyricLine::simple(Some(20000), "far".into()),
    ];
    let mut ws = LyricLine::simple(Some(10000), "x".into());
    ws.end_time_ms = Some(11000);
    let muxed = lrc_mux(primary, vec![ws]);
    assert!(muxed[0].end_time_ms.is_none());
    assert!(muxed[1].end_time_ms.is_none());
}
