use limusic::lrc::{parse_lrc, parse_lrc_time};

#[test]
fn parses_basic_lrc() {
    let lrc = "[ar:Fleetwood Mac]\n[00:27.93] Listen to the wind blow\n[00:31.16] Watch the sun rise\n";
    let lines = parse_lrc(lrc);
    assert_eq!(lines.len(), 2);
    assert_eq!(lines[0].time_ms, Some(27930));
    assert_eq!(lines[0].text, "Listen to the wind blow");
    assert_eq!(lines[1].time_ms, Some(31160));
}

#[test]
fn multi_timestamp_line_repeats() {
    let lines = parse_lrc("[00:10.00][01:10.00]la la la");
    assert_eq!(lines.len(), 2);
    assert_eq!(lines[0].time_ms, Some(10000));
    assert_eq!(lines[1].time_ms, Some(70000));
    assert!(lines.iter().all(|l| l.text == "la la la"));
}

#[test]
fn keeps_bracketed_lyric_text_and_gap_lines() {
    let lines = parse_lrc("[00:05.5][Chorus] yeah\n[00:20.123]\n[00:30] plain seconds");
    assert_eq!(lines.len(), 3);
    assert_eq!(lines[0].time_ms, Some(5500));
    assert_eq!(lines[0].text, "[Chorus] yeah");
    assert_eq!(lines[1].time_ms, Some(20123));
    assert_eq!(lines[1].text, "");
    assert_eq!(lines[2].time_ms, Some(30000));
}

#[test]
fn lrc_time_forms_and_rejections() {
    assert_eq!(parse_lrc_time("01:02"), Some(62_000));
    assert_eq!(parse_lrc_time(" 1 : 2 .5"), Some(62_500));
    assert_eq!(parse_lrc_time("00:00.1234"), Some(123));
    assert_eq!(parse_lrc_time("+3:04.05"), Some(184_050));
    assert_eq!(parse_lrc_time("ar:Someone"), None);
    assert_eq!(parse_lrc_time("12"), None);
    assert_eq!(parse_lrc_time("00:01."), None);
    assert_eq!(parse_lrc_time("-1:00"), None);
}

#[test]
fn cues_sort_stably_and_untimed_lines_are_dropped() {
    let lines = parse_lrc("[00:03]c\r\nplain\n[00:01]a\n[00:03]d\n[00:02]b\n");
    let got: Vec<(Option<u64>, &str)> = lines.iter().map(|l| (l.time_ms, l.text.as_str())).collect();
    assert_eq!(
        got,
        vec![(Some(1000), "a"), (Some(2000), "b"), (Some(3000), "c"), (Some(3000), "d")]
    );
}
