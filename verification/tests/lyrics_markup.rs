use limusic::lrc::parse_elrc;
use limusic::ttml::{parse_ttml_aaml, parse_ttml_time, parse_xml_attr, strip_xml_tags};

#[test]
fn parses_ttml_aaml_word_timestamps() {
    let xml = r#"<tt><p begin="00:10.500" end="00:14.200"><span begin="00:10.500" end="00:11.200">Hello </span><span begin="00:11.200" end="00:12.100">world </span></p></tt>"#;
    let lines = parse_ttml_aaml(xml);
    assert_eq!(lines.len(), 1);
    assert_eq!(lines[0].time_ms, Some(10500));
    assert_eq!(lines[0].end_time_ms, Some(14200));
    assert_eq!(lines[0].text, "Hello world");
    let words = lines[0].words.as_ref().unwrap();
    assert_eq!(words.len(), 2);
    assert_eq!(words[0].text, "Hello ");
    assert_eq!(words[0].start_ms, 10500);
    assert_eq!(words[0].end_ms, 11200);
}

#[test]
fn parses_elrc_inline_word_timestamps() {
    let lrc = "[00:10.50]<00:10.50>Hello <00:11.20>world";
    let lines = parse_elrc(lrc);
    assert_eq!(lines.len(), 1);
    assert_eq!(lines[0].time_ms, Some(10500));
    assert_eq!(lines[0].text, "Hello world");
    let words = lines[0].words.as_ref().unwrap();
    assert_eq!(words.len(), 2);
    assert_eq!(words[0].text, "Hello ");
    assert_eq!(words[1].text, "world");
}

#[test]
fn elrc_keeps_non_ascii_text_intact() {
    let lines = parse_elrc("[00:12.00]私は<00:12.50>歌う");
    assert_eq!(lines[0].text, "私は歌う");
    let words = lines[0].words.as_ref().unwrap();
    assert_eq!(words.len(), 1);
    assert_eq!(words[0].text, "歌う");
    assert_eq!(words[0].end_ms, 12500);
}

#[test]
fn elrc_word_runs_from_the_previous_cue() {
    let lines = parse_elrc("[00:01.00]<00:01.50>a <00:02.00>b");
    let words = lines[0].words.as_ref().unwrap();
    assert_eq!((words[0].start_ms, words[0].end_ms), (1000, 1500));
    assert_eq!((words[1].start_ms, words[1].end_ms), (1500, 2000));
}

#[test]
fn elrc_line_without_tags_is_plain_lrc() {
    let lines = parse_elrc("[00:03.00]just (a) line");
    assert_eq!(lines[0].text, "just (a) line");
    assert!(lines[0].words.is_none());
}

#[test]
fn ttml_untimed_paragraph_keeps_its_text() {
    let lines = parse_ttml_aaml("<tt><body><div><p>no timing here</p></div></body></tt>");
    assert_eq!(lines.len(), 1);
    assert_eq!(lines[0].time_ms, None);
    assert_eq!(lines[0].text, "no timing here");
    assert!(lines[0].words.is_none());
}

#[test]
fn ttml_lines_sort_by_cue_and_skip_empty_untimed() {
    let xml = r#"<p begin="2s">two</p><p></p><p begin="1s">one</p>"#;
    let lines = parse_ttml_aaml(xml);
    assert_eq!(lines.len(), 2);
    assert_eq!(lines[0].text, "one");
    assert_eq!(lines[0].time_ms, Some(1000));
    assert_eq!(lines[1].text, "two");
}

#[test]
fn ttml_span_defaults_to_line_times_and_joins_gaps() {
    let xml = r#"<p begin="1s" end="3s"><span>a</span>-<span begin="2s">b</span></p>"#;
    let lines = parse_ttml_aaml(xml);
    let w = lines[0].words.as_ref().unwrap();
    assert_eq!(lines[0].text, "a-b");
    assert_eq!((w[0].text.as_str(), w[0].start_ms, w[0].end_ms), ("a-", 1000, 3000));
    assert_eq!((w[1].text.as_str(), w[1].start_ms, w[1].end_ms), ("b", 2000, 3000));
}

#[test]
fn ttml_time_forms() {
    assert_eq!(parse_ttml_time("1500ms"), Some(1500));
    assert_eq!(parse_ttml_time("1.5s"), Some(1500));
    assert_eq!(parse_ttml_time("01:02:03.5"), Some(3_723_500));
    assert_eq!(parse_ttml_time(" 02:03.25 "), Some(123_250));
    assert_eq!(parse_ttml_time("7"), Some(7000));
    assert_eq!(parse_ttml_time("x"), None);
    assert_eq!(parse_ttml_time("1:2:3:4"), None);
}

#[test]
fn xml_attr_and_tags() {
    assert_eq!(parse_xml_attr(r#"<p begin="1s" end='2s'>"#, "begin").as_deref(), Some("1s"));
    assert_eq!(parse_xml_attr(r#"<p begin="1s" end='2s'>"#, "end").as_deref(), Some("2s"));
    assert_eq!(parse_xml_attr("<p>", "begin"), None);
    assert_eq!(strip_xml_tags("a<b>c</b>d"), "acd");
}

#[test]
fn ttml_seconds_read_as_a_float_reads_them() {
    // What a float parse and cast give, where the decimal is exact in a float.
    let float = |s: &str| s.parse::<f64>().ok().map(|x| (x * 1000.0) as u64);
    for s in ["1.5", "1e3", "2.5E-1", "+0.25", "1.", ".5", "-3", "inf", "Infinity", "-inf", "NaN", "-nan", "1e400", "12e-400"] {
        assert_eq!(parse_ttml_time(&format!("{s}s")), float(s), "{s}");
    }
    assert_eq!(parse_ttml_time("1e3s"), Some(1_000_000));
    assert_eq!(parse_ttml_time("infs"), Some(u64::MAX));
    assert_eq!(parse_ttml_time("nans"), Some(0));
    assert_eq!(parse_ttml_time("00:01e1"), Some(10_000));
    // Not numbers, for a float parse too.
    for s in ["e3", "1e", "1e+", ".", "1.2.3", "in", "1 "] {
        assert_eq!(parse_ttml_time(&format!("{s}s")), None, "{s}");
        assert!(s.parse::<f64>().is_err(), "{s}");
    }
}
