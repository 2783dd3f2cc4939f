use limusic::sponsorblock::{
    bucket_prefix, digest_prefix, fits, install, segments_for, step, Current, Segment, END_GUARD_MS,
};

fn seg(start_ms: i64, end_ms: i64) -> Segment {
    Segment { start_ms, end_ms, video_duration_ms: 0 }
}

#[test]
fn picks_our_segments_out_of_the_bucket() {
    let bucket = vec![
        ("other".to_owned(), vec![Segment { start_ms: 0, end_ms: 30_000, video_duration_ms: 0 }]),
        (
            "ours".to_owned(),
            vec![
                Segment { start_ms: 258_200, end_ms: 262_700, video_duration_ms: 0 },
                Segment { start_ms: 0, end_ms: 12_100, video_duration_ms: 262_700 },
                Segment { start_ms: 100_000, end_ms: 100_400, video_duration_ms: 0 },
            ],
        ),
    ];
    let got = segments_for(&bucket, "ours");
    assert_eq!(got.len(), 2, "the 0.4 s one is not worth a seek");
    assert_eq!((got[0].start_ms, got[0].end_ms), (0, 12_100));
    assert_eq!(got[1].start_ms, 258_200);
}

fn playing(segments: Vec<Segment>, duration_ms: i64) -> Current {
    Current { video_id: "v".into(), done: vec![false; segments.len()], segments, last_pos: None, duration_ms }
}

/// Ticks the way mpv sends them: a step at a time, so no two are further apart than a seek.
fn play(c: &mut Current, from: i64, to: i64) -> Vec<i64> {
    let mut seeks = Vec::new();
    let mut p = from;
    while p < to {
        if let Some((_, target)) = step(c, p) {
            seeks.push(target);
            p = target;
        }
        p += 250;
    }
    seeks
}

#[test]
fn an_intro_is_skipped_once_as_playback_runs_into_it() {
    let mut c = playing(vec![seg(0, 12_100)], 262_700);
    assert_eq!(play(&mut c, 0, 20_000), [12_100]);
    assert_eq!(step(&mut c, 0), None);
    assert_eq!(play(&mut c, 250, 20_000), Vec::<i64>::new());
}

#[test]
fn a_seek_into_a_segment_is_left_to_play() {
    let mut c = playing(vec![seg(100_000, 110_000)], 262_700);
    assert!(play(&mut c, 50_000, 51_000).is_empty());
    assert_eq!(step(&mut c, 105_000), None, "the user went there");
    assert!(play(&mut c, 105_250, 115_000).is_empty(), "and is not thrown out of it a tick later");
}

#[test]
fn segments_that_arrive_late_still_catch_the_intro() {
    let mut c = playing(Vec::new(), 262_700);
    assert!(play(&mut c, 0, 3_000).is_empty());
    c.segments = vec![seg(0, 12_100)];
    c.done = vec![false];
    assert_eq!(play(&mut c, 3_000, 20_000), [12_100], "no seek happened, playback ran on into it");
}

#[test]
fn an_outro_stops_short_of_the_end_so_the_track_ends_normally() {
    let mut c = playing(vec![seg(258_200, 262_700)], 262_700);
    let seeks = play(&mut c, 257_000, 262_000);
    assert_eq!(seeks.len(), 1);
    assert_eq!(seeks[0], 262_700 - END_GUARD_MS);
}

#[test]
fn a_segment_for_another_cut_is_not_skipped() {
    let s = Segment { start_ms: 0, end_ms: 12_000, video_duration_ms: 262_700 };
    let mut c = playing(vec![s], 192_000);
    assert!(play(&mut c, 0, 20_000).is_empty());
}

#[test]
fn a_segment_drawn_on_another_cut_does_not_fit() {
    let s = Segment { start_ms: 0, end_ms: 12_000, video_duration_ms: 262_700 };
    assert!(fits(&s, 263_000));
    assert!(!fits(&s, 192_000), "ten seconds off is another upload");
    assert!(fits(&seg(0, 12_000), 192_000), "no length on the segment: nothing to check");
    assert!(fits(&s, 0), "no length from mpv yet: nothing to check");
}

#[test]
fn the_last_half_second_of_a_segment_is_past_it() {
    let mut c = playing(vec![seg(10_000, 20_000)], 0);
    assert_eq!(step(&mut c, 19_500), None);
    assert_eq!(c.done, vec![false]);
    assert_eq!(step(&mut c, 19_499), Some((seg(10_000, 20_000), 20_000)));
    assert_eq!(c.last_pos, Some(20_000));
}

#[test]
fn a_track_too_short_for_the_guard_is_not_sought() {
    let mut c = playing(vec![seg(0, 5_000)], 200);
    assert_eq!(step(&mut c, 0), None);
    assert_eq!(c.done, vec![true]);
}

#[test]
fn a_late_lookup_for_another_track_is_dropped() {
    let mut c = Current::new("now");
    install(&mut c, "before", vec![seg(0, 10_000)]);
    assert!(c.segments.is_empty() && c.done.is_empty());
    install(&mut c, "now", vec![seg(0, 10_000), seg(200_000, 210_000)]);
    assert_eq!(c.segments.len(), 2);
    assert_eq!(c.done, vec![false, false]);
    assert_eq!(c.video_id, "now");
}

#[test]
fn the_bucket_is_named_by_the_hash_prefix() {
    assert_eq!(digest_prefix(&[0x0a, 0xf3, 0x77]), "0af3");
    assert_eq!(digest_prefix(&[0xff, 0x00]), "ff00");
    // The same as sha2 computes it.
    let d = <sha2::Sha256 as sha2::Digest>::digest("dQw4w9WgXcQ".as_bytes());
    assert_eq!(bucket_prefix("dQw4w9WgXcQ"), format!("{:02x}{:02x}", d[0], d[1]));
    assert_eq!(bucket_prefix("").len(), 4);
    // SHA-256 of the empty input starts e3 b0.
    assert_eq!(bucket_prefix(""), "e3b0");
}
