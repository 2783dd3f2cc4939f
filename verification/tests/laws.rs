use limusic::community::{clean_lines, is_credit_line, opens_with_credit};
use limusic::crossfade::{same_album, Track};
use limusic::lrc::{parse_elrc, parse_lrc};
use limusic::lyrics::{LyricLine, LyricWord};
use limusic::merge::{attach_translations, lrc_mux};
use limusic::providers::parse_lrc_or_ttml;
use limusic::rich::parse_rich_sync;

fn cues(lines: &[LyricLine]) -> Vec<Option<u64>> {
    lines.iter().map(|l| l.time_ms).collect()
}

#[test]
fn lrc_lines_come_out_in_cue_order_with_every_cue() {
    let lines = parse_lrc("[00:05.00]b\n[00:01.00][00:09.00]a\n[ti:x]\n[00:03.00]c");
    assert_eq!(cues(&lines), vec![Some(1000), Some(3000), Some(5000), Some(9000)]);
    assert_eq!(lines[0].text, "a");
    assert_eq!(lines[3].text, "a");
}

#[test]
fn enhanced_lrc_keeps_the_lrc_cues() {
    let text = "[00:04.00]<00:04.50>x y\n[00:02.00]plain";
    assert_eq!(cues(&parse_elrc(text)), cues(&parse_lrc(text)));
}

#[test]
fn rich_sync_lines_come_out_in_cue_order() {
    let lines = parse_rich_sync("[00:09.00]<00:09.00>late\n[00:02.00]<00:02.00>early <00:03.00>");
    assert_eq!(cues(&lines), vec![Some(2000), Some(9000)]);
    assert_eq!(lines[0].end_time_ms, Some(3000));
}

#[test]
fn a_json_payload_comes_out_in_cue_order() {
    let text = r#"[{"time":5,"text":"b"},{"time":1,"text":"a"}]"#;
    let read = vec![LyricLine::simple(Some(5000), "b".into()), LyricLine::simple(Some(1000), "a".into())];
    let lines = parse_lrc_or_ttml(text, Some(read));
    assert_eq!(cues(&lines), vec![Some(1000), Some(5000)]);
}

#[test]
fn no_line_takes_two_translations() {
    let mut lines = vec![LyricLine::simple(Some(1000), "one".into()), LyricLine::simple(Some(9000), "two".into())];
    let ts = parse_lrc("[00:01.00]un\n[00:01.10]uno\n[00:09.00]deux\n[00:09.10]dos\n[00:09.20]zwei");
    // Three of the five find no free line: more than a quarter, so the set is refused whole.
    assert!(!attach_translations(&mut lines, &ts));
    assert!(lines.iter().all(|l| l.translation.is_none()));
    let ts = parse_lrc("[00:01.00]un\n[00:01.10]uno\n[00:09.00]deux\n[00:05.00]mid\n[00:09.40]dos");
    let mut lines = vec![
        LyricLine::simple(Some(1000), "one".into()),
        LyricLine::simple(Some(1200), "one more".into()),
        LyricLine::simple(Some(5000), "middle".into()),
        LyricLine::simple(Some(9000), "two".into()),
        LyricLine::simple(Some(9300), "two more".into()),
    ];
    assert!(attach_translations(&mut lines, &ts));
    let got: Vec<Option<&str>> = lines.iter().map(|l| l.translation.as_deref()).collect();
    assert_eq!(got, vec![Some("un"), Some("uno"), Some("mid"), Some("deux"), Some("dos")]);
    assert_eq!(cues(&lines), vec![Some(1000), Some(1200), Some(5000), Some(9000), Some(9300)]);
}

#[test]
fn muxing_keeps_what_the_primary_already_has() {
    let own = vec![LyricWord { text: "mine".into(), start_ms: 1000, end_ms: 1500 }];
    let primary = vec![LyricLine {
        time_ms: Some(1000),
        end_time_ms: None,
        text: "mine".into(),
        words: Some(own.clone()),
        translation: Some("t".into()),
    }];
    let source = vec![LyricLine {
        time_ms: Some(1100),
        end_time_ms: Some(2000),
        text: "other".into(),
        words: Some(vec![LyricWord { text: "x".into(), start_ms: 1, end_ms: 2 }]),
        translation: Some("u".into()),
    }];
    let m = lrc_mux(primary, source);
    assert_eq!(m[0].words, Some(own));
    assert_eq!(m[0].translation.as_deref(), Some("t"));
    assert_eq!(m[0].end_time_ms, Some(2000));
    assert_eq!((m[0].time_ms, m[0].text.as_str()), (Some(1000), "mine"));
}

#[test]
fn cleaning_drops_every_credit_and_nothing_else() {
    let lines = vec![
        LyricLine::simple(Some(0), "Synced by someone".into()),
        LyricLine::simple(Some(1), "la".into()),
        LyricLine::simple(Some(2), "  lyrics by X".into()),
        LyricLine::simple(Some(3), "Synchronized hearts".into()),
    ];
    let kept = clean_lines(lines);
    assert_eq!(kept.iter().map(|l| l.text.as_str()).collect::<Vec<_>>(), vec!["la", "Synchronized hearts"]);
}

#[test]
fn the_album_rule_reads_the_same_either_way_round() {
    let a = Track { album: Some("Live".into()), album_id: None, artists: "X".into() };
    let b = Track { album: Some("Live".into()), album_id: Some("id".into()), artists: "X".into() };
    let c = Track { album: None, album_id: Some("id2".into()), artists: "X".into() };
    assert_eq!(same_album(&a, &b), same_album(&b, &a));
    assert_eq!(same_album(&a, &c), same_album(&c, &a));
    assert!(same_album(&a, &b));
}

#[test]
fn a_credit_is_read_off_the_lower_cased_line() {
    assert!(opens_with_credit("transcribed by a"));
    assert!(opens_with_credit("sync by"));
    assert!(!opens_with_credit("Synced by x"), "the line is lower-cased before it is read");
    assert!(is_credit_line("\tSYNCED BY x"));
    assert!(!is_credit_line("by x"));
}
