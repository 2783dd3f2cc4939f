use limusic::mix::{lead_needs_seek, DeckEvent, End, Mix, Out, Step};

/// A mixer crossfading over `ms`, playing a track of `duration_ms` on deck 0 with `next` held.
fn playing_with_next(ms: u64, duration_ms: u64, next: &str) -> Mix {
    let mut m = Mix::new();
    m.set_crossfade(ms, false);
    let steps = m.enqueue(next, true);
    assert!(matches!(steps.as_slice(), [Step::Probe { end: End::Head, .. }, Step::Probe { end: End::Tail, .. }]));
    let steps = m.on_event(0, DeckEvent::Duration(duration_ms));
    assert!(matches!(steps.as_slice(), [Step::Emit(Out::Duration(0))]));
    m
}

#[test]
fn a_crossfade_cues_ahead_and_starts_the_overlap_within_its_length() {
    let mut m = playing_with_next(6_000, 200_000, "next");
    // Far from the end: only the position.
    let steps = m.on_event(0, DeckEvent::Position(Some(100_000)));
    assert!(matches!(steps.as_slice(), [Step::Emit(Out::Position)]));
    // Within the crossfade and the cue-ahead: cued on the other deck.
    let steps = m.on_event(0, DeckEvent::Position(Some(190_000)));
    match steps.as_slice() {
        [Step::Emit(Out::Position), Step::Cue { from: 0, to: 1, url }] => assert_eq!(url, "next"),
        other => panic!("{other:?}"),
    }
    let steps = m.cue_done(true);
    assert!(steps.is_empty(), "ten seconds left is not yet the overlap");
    assert!(!m.pauses(1), "a cued deck waits for its overlap");
    assert!(!m.is_idle(Some(true)), "a handoff is not a stall");
    // Within the crossfade: the overlap starts and deck 1 becomes the one the app hears.
    let steps = m.on_event(0, DeckEvent::Position(Some(195_000)));
    assert!(matches!(
        steps.as_slice(),
        [Step::Emit(Out::Position), Step::Pause { deck: 1, paused: false }, Step::Emit(Out::TrackEnded)]
    ));
    assert_eq!(m.active(), 1);
    // The outgoing deck's clock drives the ramp, and its end finishes it.
    let steps = m.on_event(0, DeckEvent::Position(Some(197_500)));
    assert!(matches!(
        steps.as_slice(),
        [Step::Ramp { from: 0, to: 1, at_ms: 197_500, start_ms: 195_000, len_ms: 5_000 }]
    ));
    let steps = m.on_event(0, DeckEvent::Position(Some(200_000)));
    assert!(matches!(steps.as_slice(), [Step::Ramp { .. }, Step::EndOverlap { from: 0, to: 1 }]));
    assert_eq!(m.active(), 1);
}

#[test]
fn with_the_crossfade_off_the_next_track_follows_gaplessly() {
    let mut m = Mix::new();
    let steps = m.enqueue("next", true);
    match steps.as_slice() {
        [Step::Append { deck: 0, url }] => assert_eq!(url, "next"),
        other => panic!("{other:?}"),
    }
    m.on_event(0, DeckEvent::Duration(200_000));
    let steps = m.on_event(0, DeckEvent::Position(Some(199_000)));
    assert!(matches!(steps.as_slice(), [Step::Emit(Out::Position)]));
    assert_eq!(m.active(), 0);
}

#[test]
fn too_little_left_for_an_overlap_goes_to_the_playlist() {
    let mut m = playing_with_next(6_000, 200_000, "next");
    let steps = m.on_event(0, DeckEvent::Position(Some(199_700)));
    match steps.as_slice() {
        [Step::Emit(Out::Position), Step::Append { deck: 0, url }] => assert_eq!(url, "next"),
        other => panic!("{other:?}"),
    }
}

#[test]
fn a_failed_cue_falls_back_to_gapless() {
    let mut m = playing_with_next(6_000, 200_000, "next");
    m.on_event(0, DeckEvent::Position(Some(190_000)));
    let steps = m.cue_done(false);
    match steps.as_slice() {
        [Step::Fallback { from: 0, to: 1, url }] => assert_eq!(url, "next"),
        other => panic!("{other:?}"),
    }
    assert!(m.pauses(1));
    let steps = m.on_event(0, DeckEvent::Position(Some(196_000)));
    assert!(matches!(steps.as_slice(), [Step::Emit(Out::Position)]));
}

#[test]
fn a_track_that_ends_early_cuts_to_the_cued_one() {
    let mut m = playing_with_next(6_000, 200_000, "next");
    m.on_event(0, DeckEvent::Position(Some(190_000)));
    m.cue_done(true);
    let steps = m.on_event(0, DeckEvent::Ended);
    assert!(matches!(
        steps.as_slice(),
        [Step::Full { deck: 1 }, Step::Pause { deck: 1, paused: false }, Step::Emit(Out::TrackEnded)]
    ));
    assert_eq!(m.active(), 1);
}

#[test]
fn an_ended_track_with_a_held_next_cuts_to_it() {
    let mut m = playing_with_next(6_000, 200_000, "next");
    let steps = m.on_event(0, DeckEvent::Ended);
    match steps.as_slice() {
        [Step::CutTo { deck: 0, url }, Step::Emit(Out::TrackEnded)] => assert_eq!(url, "next"),
        other => panic!("{other:?}"),
    }
    m.cut_done(0, true);
    assert!(!m.is_idle(Some(true)));
    m.on_event(0, DeckEvent::Started);
    assert!(m.is_idle(Some(true)));
    assert!(!m.is_idle(Some(false)));
    assert!(m.is_idle(None));
}

#[test]
fn a_cued_deck_is_never_heard() {
    let mut m = playing_with_next(6_000, 200_000, "next");
    m.on_event(0, DeckEvent::Position(Some(190_000)));
    m.cue_done(true);
    assert!(m.on_event(1, DeckEvent::Position(Some(0))).is_empty());
    assert!(m.on_event(1, DeckEvent::Duration(180_000)).is_empty());
    assert!(m.on_event(1, DeckEvent::Failed).is_empty());
    assert!(m.pauses(1), "a failed cue is no longer cued");
    assert_eq!(m.active(), 0);
}

#[test]
fn playing_is_reported_on_a_real_change_only() {
    let mut m = Mix::new();
    let steps = m.on_event(0, DeckEvent::Idle(false));
    assert!(matches!(steps.as_slice(), [Step::Emit(Out::Playing(true))]));
    assert!(m.on_event(1, DeckEvent::Paused(false)).is_empty());
    let steps = m.on_event(0, DeckEvent::Paused(true));
    assert!(matches!(steps.as_slice(), [Step::Emit(Out::Playing(false))]));
}

#[test]
fn loading_cuts_an_overlap_short_and_drops_the_cue() {
    let mut m = playing_with_next(6_000, 200_000, "next");
    m.on_event(0, DeckEvent::Position(Some(190_000)));
    m.cue_done(true);
    let steps = m.load();
    assert!(matches!(steps.as_slice(), [Step::Uncue { deck: 1 }]));
    assert!(m.pauses(1));
    assert!(m.is_idle(Some(true)));
    let steps = m.on_event(0, DeckEvent::Position(Some(196_000)));
    assert!(matches!(steps.as_slice(), [Step::Emit(Out::Position)]), "nothing held any more");
}

#[test]
fn the_tail_silence_moves_the_overlap_earlier() {
    let mut m = playing_with_next(6_000, 200_000, "next");
    let steps = m.on_event(0, DeckEvent::Path("cur".to_owned()));
    assert!(matches!(steps.as_slice(), [Step::Probe { end: End::Tail, .. }]));
    m.measured("cur", End::Tail, Some(4_000));
    // The music ends at 196 s: the overlap begins 6 s before that.
    m.on_event(0, DeckEvent::Position(Some(186_000)));
    m.cue_done(true);
    let steps = m.on_event(0, DeckEvent::Position(Some(190_000)));
    assert!(matches!(steps.as_slice(), [Step::Emit(Out::Position), Step::Pause { .. }, Step::Emit(Out::TrackEnded)]));
}

#[test]
fn a_measured_lead_in_is_skipped_when_the_track_starts() {
    let mut m = playing_with_next(6_000, 200_000, "next");
    m.measured("next", End::Head, Some(1_500));
    m.on_event(0, DeckEvent::Position(Some(190_000)));
    m.cue_done(true);
    let steps = m.on_event(1, DeckEvent::Loaded);
    assert!(matches!(steps.as_slice(), [Step::Seek { deck: 1, ms: 1_500 }]));
    let steps = m.on_event(1, DeckEvent::Loaded);
    assert!(steps.is_empty(), "once");
    assert!(lead_needs_seek(0, 1_500));
    assert!(!lead_needs_seek(1_450, 1_500));
}

#[test]
fn turning_the_crossfade_off_hands_the_next_track_to_the_playlist() {
    let mut m = playing_with_next(6_000, 200_000, "next");
    let steps = m.set_crossfade(0, false);
    match steps.as_slice() {
        [Step::Append { deck: 0, url }] => assert_eq!(url, "next"),
        other => panic!("{other:?}"),
    }
    assert!(!m.sweeps());
}

#[test]
fn a_silence_is_asked_for_once() {
    let mut m = Mix::new();
    assert!(!m.ask("a", End::Head), "only while crossfading");
    m.set_crossfade(3_000, true);
    assert!(m.sweeps());
    assert!(m.ask("a", End::Head));
    assert!(!m.ask("a", End::Head));
    assert!(m.ask("a", End::Tail));
}
