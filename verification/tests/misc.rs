use limusic::browser::strip_appdir;
use limusic::downloads::{
    art_path, audio_path, batch_is_current, cancel, dir, keeps_art, saved_artists, saved_title, total_bytes,
};
use limusic::player::{friendly_error, pitch_filter, quoted, Code, Failure, EQ_BANDS};
use limusic::sleep::{fade_length, status_at, wait_before_fade, FadeStep, SleepTimer};

#[test]
fn strip_appdir_keeps_host_paths_and_drops_the_var_when_nothing_is_left() {
    let dir = "/tmp/.mount_limusiNnkaBP";
    assert_eq!(
        strip_appdir(&format!("{dir}/usr/lib/:{dir}/usr/lib64/:/opt/mine/lib"), dir),
        Some("/opt/mine/lib".to_string())
    );
    assert_eq!(strip_appdir(&format!("{dir}/usr/lib:{dir}/usr/lib64"), dir), None);
    assert_eq!(strip_appdir(dir, dir), None);
    assert_eq!(
        strip_appdir(&format!("{dir}/usr/share:/usr/share:/usr/local/share"), dir),
        Some("/usr/share:/usr/local/share".to_string())
    );
}

#[test]
fn strip_appdir_drops_empty_entries() {
    assert_eq!(strip_appdir("::/a::/b:", "/x"), Some("/a:/b".to_string()));
    assert_eq!(strip_appdir("", "/x"), None);
}

#[test]
fn paths_survive_mpvs_command_parser() {
    assert_eq!(quoted("/music/My music/a, b.mp3"), "\"/music/My music/a, b.mp3\"");
    assert_eq!(quoted(r#"/m/say "hi".mp3"#), r#""/m/say \"hi\".mp3""#);
    assert_eq!(quoted(r"C:\Music\x.mp3"), r#""C:\\Music\\x.mp3""#);
    assert_eq!(quoted("https://x/y?a=1&b=2"), "\"https://x/y?a=1&b=2\"");
}

#[test]
fn the_band_list_is_the_iso_octave_set() {
    assert_eq!(EQ_BANDS.len(), 10);
    assert_eq!(EQ_BANDS[0], 31);
    assert_eq!(EQ_BANDS[9], 16_000);
    assert_eq!(pitch_filter(), "rubberband");
}

#[test]
fn the_extension_follows_the_container() {
    let d = "/tmp/dl";
    assert!(audio_path(d, "abc", "audio/webm; codecs=\"opus\"").ends_with("abc.webm"));
    assert!(audio_path(d, "abc", "audio/mp4; codecs=\"mp4a.40.2\"").ends_with("abc.m4a"));
    assert!(audio_path(d, "abc", "audio/weird").ends_with("abc.bin"));
    assert!(audio_path(d, "abc", "").ends_with("abc.bin"));
}

#[test]
fn artwork_sits_beside_the_audio_without_clashing() {
    let d = "/tmp/dl";
    let audio = audio_path(d, "xyz", "audio/webm");
    let art = art_path(d, "xyz");
    assert_ne!(audio, art);
    assert_eq!(std::path::Path::new(&art).file_name().unwrap(), "xyz.jpg");
}

#[test]
fn download_paths_join_like_path_join() {
    assert_eq!(dir("/data"), "/data/downloads");
    assert_eq!(dir("/data/"), "/data/downloads");
    assert_eq!(dir(""), "downloads");
    assert_eq!(audio_path("/d", "v", "audio/webm"), "/d/v.webm");
    assert_eq!(art_path("/d", "v"), "/d/v.jpg");
}

#[test]
fn total_bytes_sums_the_rows() {
    assert_eq!(total_bytes(&[]), 0);
    assert_eq!(total_bytes(&[10, 20, 12]), 42);
}

#[test]
fn cancelling_invalidates_the_running_batch() {
    let mut g: u64 = 7;
    let batch = g;
    cancel(&mut g);
    assert!(!batch_is_current(g, batch));
    let mut top = u64::MAX;
    cancel(&mut top);
    assert_eq!(top, 0);
}

fn now_ms() -> i64 {
    std::time::SystemTime::now()
        .duration_since(std::time::UNIX_EPOCH)
        .map(|d| d.as_millis() as i64)
        .unwrap_or(0)
}

#[test]
fn a_passed_deadline_reads_as_no_timer() {
    let mut t = SleepTimer::new();
    t.arm(Some(now_ms() - 1000), false);
    assert_eq!(t.deadline(), None);
    t.arm(Some(now_ms() + 60_000), false);
    assert!(t.deadline().is_some());
    t.arm(None, false);
    assert_eq!(t.deadline(), None);
}

#[test]
fn re_arming_invalidates_the_previous_generation() {
    let mut t = SleepTimer::new();
    let a = t.arm(None, false);
    let b = t.arm(None, false);
    assert_ne!(a, b);
}

#[test]
fn set_clamps_and_fire_keeps_the_generation() {
    let mut t = SleepTimer::new();
    let (g, d) = t.set(0, 1_000);
    assert_eq!(d, 61_000);
    let (_, d) = t.set(5000, 0);
    assert_eq!(d, 1440 * 60_000);
    let g2 = t.generation();
    assert_ne!(g, g2);
    t.fired();
    assert!(t.is_current(g2));
    assert_eq!(status_at(&t, 0).deadline, None);
    let g3 = t.set_end_of_track();
    assert!(t.end_of_track());
    assert!(!t.is_current(g2));
    assert_eq!(t.position_tick(9_000), None);
    assert_eq!(t.position_tick(5_000), Some((g3, 4_450)));
    // The fade has started: later ticks start nothing.
    assert_eq!(t.position_tick(4_000), None);
    t.clear();
    assert!(!t.end_of_track());
}

#[test]
fn the_deadline_wait_leaves_room_for_the_fade() {
    assert_eq!(wait_before_fade(100_000, 0), 94_850);
    assert_eq!(wait_before_fade(1_000, 0), 0);
    assert_eq!(fade_length(10_000, 9_000), 850);
    assert_eq!(fade_length(100_000, 0), 5_000);
    assert_eq!(fade_length(0, 100), 0);
}

#[test]
fn a_failed_track_is_worded_for_people() {
    assert_eq!(
        friendly_error(&Failure::Raw(Code::LoadingFailed)),
        "Couldn't load this track — YouTube rejected the stream link"
    );
    assert_eq!(
        friendly_error(&Failure::Loadfile(Box::new(Failure::Raw(Code::NothingToPlay)))),
        "This stream contains no playable audio"
    );
    assert_eq!(friendly_error(&Failure::Raw(Code::UnknownFormat)), "Unrecognized audio format");
    assert_eq!(friendly_error(&Failure::Raw(Code::AoInitFailed)), "Couldn't start audio output");
    assert_eq!(friendly_error(&Failure::Raw(Code::Other(-9))), "Playback failed (mpv error -9)");
    assert_eq!(friendly_error(&Failure::Raw(Code::Other(1234))), "Playback failed (mpv error 1234)");
    assert_eq!(friendly_error(&Failure::Raw(Code::Other(i32::MIN))), "Playback failed (mpv error -2147483648)");
    assert_eq!(friendly_error(&Failure::Other("null pointer".into())), "Playback failed (null pointer)");
}

#[test]
fn a_fade_reads_its_progress_off_the_clock_and_gives_way_to_a_rearm() {
    let mut t = SleepTimer::new();
    let gen = t.set_end_of_track();
    assert_eq!(t.fade_step(gen, 100_000, 100_000, 1_000, 5_000), FadeStep::Ramp);
    assert_eq!(t.fade_step(gen, 104_000, 100_000, 5_000, 5_000), FadeStep::Last);
    assert_eq!(t.fade_step(gen, 0, 0, 0, 0), FadeStep::Last);
    // The next track started under the fade: its position is back near zero.
    assert_eq!(t.fade_step(gen, 500, 100_000, 2_000, 5_000), FadeStep::Cut);
    assert_eq!(t.fade_step(gen, 99_000, 100_000, 2_000, 5_000), FadeStep::Ramp);
    t.clear();
    assert_eq!(t.fade_step(gen, 100_000, 100_000, 1_000, 5_000), FadeStep::Abandon);
}

#[test]
fn a_download_keeps_the_rows_metadata_and_web_artwork() {
    assert_eq!(saved_title("Song", Some("raw upload"), "vid"), "Song");
    assert_eq!(saved_title("", Some("From the stream"), "vid"), "From the stream");
    assert_eq!(saved_title("", None, "vid"), "vid");
    assert_eq!(saved_artists("A", Some("B")), "A");
    assert_eq!(saved_artists("", Some("B")), "B");
    assert_eq!(saved_artists("", None), "");
    assert!(keeps_art(Some("https://i.ytimg.com/x.jpg")));
    assert!(!keeps_art(Some("/local/cover.jpg")));
    assert!(!keeps_art(Some("htt")));
    assert!(!keeps_art(None));
}
