//! The two-deck mixer's decisions. Two mpv instances ("decks") sit behind one face: the app sees
//! one position, one duration and one stream of events, always the active deck's. The second deck
//! only plays during a crossfade: the next track is cued on it, paused, shortly before the current
//! one nears its end, then starts while the current one fades out; after that the decks have
//! swapped roles. With crossfading off it never loads anything.
//!
//! This is the state and the rules. The app owns the decks: it turns each mpv event into a
//! [`DeckEvent`], hands it here under its lock, and carries out the [`Step`]s that come back in
//! order (the volumes, the filter sweeps and every mpv command are its part). Times are whole
//! milliseconds.
use vstd::prelude::*;

use crate::text::str_eq;

verus! {

/// With less than this left of the outgoing track an overlap isn't worth starting: the next track
/// goes to mpv's playlist and follows gaplessly instead.
pub const MIN_OVERLAP_MS: u64 = 500;

/// How long before its overlap the next track is loaded on the other deck, paused and silent.
pub const CUE_AHEAD_MS: u64 = 5000;

/// Leading silence shorter than this isn't worth a seek.
pub const MIN_LEAD_MS: u64 = 100;

/// How many tracks' silence is remembered.
pub const SILENCE_MEMORY: usize = 32;

/// Which end of a track.
#[derive(Debug, Clone, Copy, PartialEq, Eq, Structural)]
pub enum End {
    Head,
    Tail,
}

/// How far the silence at one end of a track has been measured.
#[derive(Debug, Clone, Copy, PartialEq, Eq, Structural)]
pub enum Measure {
    Unasked,
    Pending,
    /// This many milliseconds of silence.
    Known(u64),
    /// Measured, with nothing to go on.
    Unknown,
}

/// The silence at both ends of one track.
pub struct SilenceEntry {
    pub url: String,
    pub head: Measure,
    pub tail: Measure,
}

/// An overlap in progress, driven by the outgoing deck's own clock.
#[derive(Debug, Clone, Copy, PartialEq, Eq, Structural)]
pub struct Overlap {
    /// The outgoing deck.
    pub from: usize,
    /// Its position when the overlap began, and how long the overlap runs.
    pub start_ms: u64,
    pub len_ms: u64,
}

/// A cue handed to the app and not yet answered.
pub struct PendingCue {
    pub from: usize,
    pub url: String,
    pub at_ms: u64,
}

/// The mixer's state.
pub struct Mix {
    active: usize,
    loop_file: bool,
    crossfade_ms: u64,
    filters: bool,
    next: Option<String>,
    cued: Option<usize>,
    overlap: Option<Overlap>,
    handoff: Option<usize>,
    pending: Option<PendingCue>,
    duration: Vec<u64>,
    path: Vec<Option<String>>,
    lead_in: Vec<Option<u64>>,
    paused: Vec<bool>,
    idle: Vec<bool>,
    playing: bool,
    silence: Vec<SilenceEntry>,
}

/// One silence entry as plain values: the track, then its head and its tail.
pub type SilenceV = (Seq<char>, Measure, Measure);

/// A pending cue as plain values.
pub struct PendingV {
    pub from: usize,
    pub url: Seq<char>,
    pub at_ms: u64,
}

/// The mixer's state as plain values.
#[verifier::ext_equal]
pub struct MixView {
    /// The deck the app is talking to.
    pub active: usize,
    pub loop_file: bool,
    /// The crossfade's length; 0 is off.
    pub crossfade_ms: u64,
    /// Whether the crossfade sweeps its filters.
    pub filters: bool,
    /// The next track, held back from mpv's playlist so it can start early on the other deck.
    pub next: Option<Seq<char>>,
    /// The deck holding the next track, loaded and paused, waiting for its overlap.
    pub cued: Option<usize>,
    pub overlap: Option<Overlap>,
    /// A deck the mix itself started a track on, until that track starts.
    pub handoff: Option<usize>,
    pub pending: Option<PendingV>,
    /// Per deck: its track's length, its file, where to seek it once loaded, paused, idle.
    pub duration: Seq<u64>,
    pub path: Seq<Option<Seq<char>>>,
    pub lead_in: Seq<Option<u64>>,
    pub paused: Seq<bool>,
    pub idle: Seq<bool>,
    /// Whether either deck is playing, as last told to the app.
    pub playing: bool,
    /// Silence at the ends of recent tracks.
    pub silence: Seq<SilenceV>,
}

pub open spec fn opt_str(s: Option<String>) -> Option<Seq<char>> {
    match s {
        Some(x) => Some(x@),
        None => None,
    }
}

pub open spec fn entry_view(e: SilenceEntry) -> SilenceV {
    (e.url@, e.head, e.tail)
}

impl View for Mix {
    type V = MixView;

    closed spec fn view(&self) -> MixView {
        MixView {
            active: self.active,
            loop_file: self.loop_file,
            crossfade_ms: self.crossfade_ms,
            filters: self.filters,
            next: opt_str(self.next),
            cued: self.cued,
            overlap: self.overlap,
            handoff: self.handoff,
            pending: match self.pending {
                Some(p) => Some(PendingV { from: p.from, url: p.url@, at_ms: p.at_ms }),
                None => None,
            },
            duration: self.duration@,
            path: self.path@.map_values(|p: Option<String>| opt_str(p)),
            lead_in: self.lead_in@,
            paused: self.paused@,
            idle: self.idle@,
            playing: self.playing,
            silence: self.silence@.map_values(|e: SilenceEntry| entry_view(e)),
        }
    }
}

/// The deck that isn't `d`.
pub open spec fn other(d: usize) -> usize {
    if d == 0 {
        1
    } else {
        0
    }
}

/// Either deck playing: through an overlap both are, and the handoff between them must not read as
/// a stop and a start. A cued deck is paused, so it doesn't count.
pub open spec fn derived_playing(v: MixView) -> bool {
    (!v.paused[0] && !v.idle[0]) || (!v.paused[1] && !v.idle[1])
}

/// Whether `url` has an entry.
pub open spec fn has_url(es: Seq<SilenceV>, url: Seq<char>) -> bool {
    exists|i: int| 0 <= i < es.len() && (#[trigger] es[i]).0 == url
}

/// The entry of `url`, when it has one.
pub open spec fn url_index(es: Seq<SilenceV>, url: Seq<char>) -> int {
    choose|i: int| 0 <= i < es.len() && (#[trigger] es[i]).0 == url
}

/// No track has two entries.
pub open spec fn distinct_urls(es: Seq<SilenceV>) -> bool {
    forall|i: int, j: int| 0 <= i < j < es.len() ==> (#[trigger] es[i]).0 != (#[trigger] es[j]).0
}

/// The state is well formed: two decks; the cued deck, the pending cue and an overlap's incoming
/// deck are always the one that isn't active, and there is at most one of them; `playing` is what
/// the decks say; every track has at most one silence entry, and there are at most
/// [`SILENCE_MEMORY`] of them.
pub open spec fn wf(v: MixView) -> bool {
    shape(v) && v.playing == derived_playing(v)
}

/// Everything [`wf`] asks but that `playing` is up to date.
pub open spec fn shape(v: MixView) -> bool {
    &&& v.active < 2
    &&& v.duration.len() == 2
    &&& v.path.len() == 2
    &&& v.lead_in.len() == 2
    &&& v.paused.len() == 2
    &&& v.idle.len() == 2
    &&& (v.cued matches Some(c) ==> c == other(v.active))
    &&& (v.overlap matches Some(o) ==> o.from == other(v.active) && o.len_ms > 0)
    &&& (v.pending matches Some(p) ==> p.from == v.active)
    &&& !(v.cued is Some && v.overlap is Some)
    &&& !(v.pending is Some && (v.cued is Some || v.overlap is Some))
    &&& (v.handoff matches Some(h) ==> h < 2)
    &&& distinct_urls(v.silence)
    &&& v.silence.len() <= SILENCE_MEMORY
}

/// The measure at one end of an entry.
pub open spec fn measure_at(e: SilenceV, end: End) -> Measure {
    match end {
        End::Head => e.1,
        End::Tail => e.2,
    }
}

/// An entry with one end's measure replaced.
pub open spec fn with_measure(e: SilenceV, end: End, m: Measure) -> SilenceV {
    match end {
        End::Head => (e.0, m, e.2),
        End::Tail => (e.0, e.1, m),
    }
}

/// Measured silence at one end of `url`.
pub open spec fn silence_ms(es: Seq<SilenceV>, url: Option<Seq<char>>, end: End) -> Option<u64> {
    match url {
        Some(u) => if has_url(es, u) {
            match measure_at(es[url_index(es, u)], end) {
                Measure::Known(ms) => Some(ms),
                _ => None,
            }
        } else {
            None
        },
        None => None,
    }
}

/// The silence entries after asking for one end of `url` to be measured, and whether a measurement
/// has to be started. Only while crossfading: nothing else uses it. A full memory is emptied before
/// a new track joins it; an end that has been or is being measured is not asked again.
pub open spec fn ask_spec(v: MixView, url: Seq<char>, end: End) -> (Seq<SilenceV>, bool) {
    if v.crossfade_ms == 0 {
        (v.silence, false)
    } else {
        let es0 = if v.silence.len() >= SILENCE_MEMORY && !has_url(v.silence, url) {
            Seq::<SilenceV>::empty()
        } else {
            v.silence
        };
        let es1 = if has_url(es0, url) {
            es0
        } else {
            es0.push((url, Measure::Unasked, Measure::Unasked))
        };
        let i = url_index(es1, url);
        if measure_at(es1[i], end) != Measure::Unasked {
            (es1, false)
        } else {
            (es1.update(i, with_measure(es1[i], end, Measure::Pending)), true)
        }
    }
}

/// The silence entries after a measurement came back: `ms` of silence, or `None` for nothing to go
/// on. A track no longer remembered is left out.
pub open spec fn measured_spec(es: Seq<SilenceV>, url: Seq<char>, end: End, ms: Option<u64>) -> Seq<
    SilenceV,
> {
    if has_url(es, url) {
        let i = url_index(es, url);
        let m = match ms {
            Some(x) => Measure::Known(x),
            None => Measure::Unknown,
        };
        es.update(i, with_measure(es[i], end, m))
    } else {
        es
    }
}

proof fn lemma_url_index(es: Seq<SilenceV>, url: Seq<char>, i: int)
    requires
        distinct_urls(es),
        0 <= i < es.len(),
        es[i].0 == url,
    ensures
        has_url(es, url),
        url_index(es, url) == i,
{
    assert(has_url(es, url));
    let k = url_index(es, url);
    if k != i {
        if k < i {
            assert(es[k].0 != es[i].0);
        } else {
            assert(es[i].0 != es[k].0);
        }
    }
}

impl Mix {
    /// Well formed: [`wf`] of the state's view.
    pub open spec fn wf(&self) -> bool {
        wf(self@)
    }

    /// Nothing loaded, crossfading off: what mpv reports before anything plays is `pause: false`,
    /// `idle-active: true` on both decks.
    pub fn new() -> (r: Self)
        ensures
            r.wf(),
            r@.active == 0,
            !r@.loop_file,
            r@.crossfade_ms == 0,
            !r@.filters,
            r@.next is None,
            r@.cued is None,
            r@.overlap is None,
            r@.handoff is None,
            r@.pending is None,
            r@.duration == seq![0u64, 0u64],
            r@.path == seq![None::<Seq<char>>, None::<Seq<char>>],
            r@.lead_in == seq![None::<u64>, None::<u64>],
            r@.paused == seq![false, false],
            r@.idle == seq![true, true],
            !r@.playing,
            r@.silence.len() == 0,
    {
        let r = Mix {
            active: 0,
            loop_file: false,
            crossfade_ms: 0,
            filters: false,
            next: None,
            cued: None,
            overlap: None,
            handoff: None,
            pending: None,
            duration: vec![0u64, 0u64],
            path: vec![None, None],
            lead_in: vec![None, None],
            paused: vec![false, false],
            idle: vec![true, true],
            playing: false,
            silence: Vec::new(),
        };
        assert(r@.path =~= seq![None::<Seq<char>>, None::<Seq<char>>]);
        assert(r@.silence =~= Seq::<SilenceV>::empty());
        r
    }

    /// The entry of `url`, if it has one.
    fn find(&self, url: &str) -> (r: Option<usize>)
        requires
            self.wf(),
        ensures
            r matches Some(i) ==> i < self@.silence.len() && self@.silence[i as int].0 == url@
                && has_url(self@.silence, url@) && url_index(self@.silence, url@) == i,
            r is None ==> !has_url(self@.silence, url@),
    {
        let ghost es = self@.silence;
        let mut i: usize = 0;
        while i < self.silence.len()
            invariant
                wf(self@),
                es == self@.silence,
                i <= self.silence@.len(),
                es.len() == self.silence@.len(),
                forall|j: int| 0 <= j < i ==> (#[trigger] es[j]).0 != url@,
            decreases self.silence.len() - i,
        {
            assert(es[i as int] == entry_view(self.silence@[i as int]));
            if str_eq(self.silence[i].url.as_str(), url) {
                proof {
                    lemma_url_index(es, url@, i as int);
                }
                return Some(i);
            }
            i = i + 1;
        }
        None
    }
}

/// The state with other silence entries.
pub open spec fn with_silence(v: MixView, es: Seq<SilenceV>) -> MixView {
    MixView { silence: es, ..v }
}

impl Mix {
    /// Replace one end's measure of entry `i`.
    fn set_measure(&mut self, i: usize, end: End, m: Measure)
        requires
            wf(old(self)@),
            i < old(self)@.silence.len(),
        ensures
            wf(final(self)@),
            final(self)@ == with_silence(
                old(self)@,
                old(self)@.silence.update(i as int, with_measure(old(self)@.silence[i as int], end, m)),
            ),
    {
        let url = self.silence[i].url.clone();
        let (head, tail) = match end {
            End::Head => (m, self.silence[i].tail),
            End::Tail => (self.silence[i].head, m),
        };
        let ghost before = self@;
        self.silence.set(i, SilenceEntry { url, head, tail });
        proof {
            let es = before.silence.update(i as int, with_measure(before.silence[i as int], end, m));
            assert(self@.silence =~= es);
            assert forall|a: int, b: int| 0 <= a < b < es.len() implies (#[trigger] es[a]).0
                != (#[trigger] es[b]).0 by {
                assert(before.silence[a].0 != before.silence[b].0);
            }
            assert(self@ == with_silence(before, es));
        }
    }

    /// Ask for one end of `url` to be measured. Returns whether a measurement has to be started:
    /// the app then hands the track to the silence probe, and its answer comes back through
    /// [`Mix::measured`].
    pub fn ask(&mut self, url: &str, end: End) -> (job: bool)
        requires
            old(self).wf(),
        ensures
            final(self).wf(),
            final(self)@ == with_silence(old(self)@, ask_spec(old(self)@, url@, end).0),
            job == ask_spec(old(self)@, url@, end).1,
    {
        let ghost v0 = self@;
        if self.crossfade_ms == 0 {
            assert(self@ == with_silence(v0, v0.silence));
            return false;
        }
        let found = self.find(url);
        if self.silence.len() >= SILENCE_MEMORY && found.is_none() {
            self.silence.clear();
            assert(self@.silence =~= Seq::<SilenceV>::empty());
        }
        let ghost es0 = self@.silence;
        let i = match self.find(url) {
            Some(i) => i,
            None => {
                self.silence.push(
                    SilenceEntry { url: url.to_owned(), head: Measure::Unasked, tail: Measure::Unasked },
                );
                let n = self.silence.len() - 1;
                proof {
                    let es1 = es0.push((url@, Measure::Unasked, Measure::Unasked));
                    assert(self@.silence =~= es1);
                    assert forall|a: int, b: int| 0 <= a < b < es1.len() implies (#[trigger] es1[a]).0
                        != (#[trigger] es1[b]).0 by {
                        if b < es0.len() {
                            assert(es0[a].0 != es0[b].0);
                        } else {
                            assert(es1[a] == es0[a]);
                        }
                    }
                    lemma_url_index(es1, url@, n as int);
                }
                n
            },
        };
        let ghost es1 = self@.silence;
        let cur = match end {
            End::Head => self.silence[i].head,
            End::Tail => self.silence[i].tail,
        };
        assert(cur == measure_at(es1[i as int], end));
        if cur != Measure::Unasked {
            return false;
        }
        self.set_measure(i, end, Measure::Pending);
        true
    }

    /// A measurement came back: `ms` of silence at that end of `url`, or `None` for nothing to go
    /// on. A track that has been forgotten meanwhile is left out.
    pub fn measured(&mut self, url: &str, end: End, ms: Option<u64>)
        requires
            old(self).wf(),
        ensures
            final(self).wf(),
            final(self)@ == with_silence(old(self)@, measured_spec(old(self)@.silence, url@, end, ms)),
    {
        let ghost v0 = self@;
        match self.find(url) {
            Some(i) => {
                let m = match ms {
                    Some(x) => Measure::Known(x),
                    None => Measure::Unknown,
                };
                self.set_measure(i, end, m);
            },
            None => {
                assert(self@ == with_silence(v0, v0.silence));
            },
        }
    }

    /// Measured silence at one end of `url`.
    fn silence_at(&self, url: Option<&str>, end: End) -> (r: Option<u64>)
        requires
            self.wf(),
        ensures
            r == silence_ms(
                self@.silence,
                match url {
                    Some(u) => Some(u@),
                    None => None,
                },
                end,
            ),
    {
        match url {
            None => None,
            Some(u) => match self.find(u) {
                None => None,
                Some(i) => {
                    let m = match end {
                        End::Head => self.silence[i].head,
                        End::Tail => self.silence[i].tail,
                    };
                    assert(m == measure_at(self@.silence[i as int], end));
                    match m {
                        Measure::Known(ms) => Some(ms),
                        _ => None,
                    }
                },
            },
        }
    }
}

/// What the app tells its listener.
#[derive(Debug, Clone, Copy, PartialEq, Eq, Structural)]
pub enum Out {
    /// The position the deck just reported.
    Position,
    /// The length the deck reported last.
    Duration(usize),
    /// Playback started or stopped.
    Playing(bool),
    /// One track finished: the queue advances.
    TrackEnded,
    /// The active track died, with the deck's message.
    TrackFailed,
}

/// What a deck reports, times in milliseconds.
#[derive(Debug)]
pub enum DeckEvent {
    /// Its position; `None` when mpv's number was not a finite one.
    Position(Option<u64>),
    Duration(u64),
    /// The file it opened.
    Path(String),
    Paused(bool),
    Idle(bool),
    /// A file started.
    Started,
    /// A file finished loading.
    Loaded,
    /// A file played to its end.
    Ended,
    /// A file failed.
    Failed,
}

/// One thing for the app to do, in order.
#[derive(Debug)]
pub enum Step {
    /// Tell the listener.
    Emit(Out),
    /// Seek `deck` to `ms`.
    Seek { deck: usize, ms: u64 },
    /// Add `url` to `deck`'s playlist, to follow gaplessly.
    Append { deck: usize, url: String },
    /// Have the silence at one end of `url` measured.
    Probe { url: String, end: End },
    /// Load `url` on deck `to`, paused and silent, with the next track's gain and, when the
    /// crossfade sweeps, its opening filters; then answer with [`Mix::cue_done`].
    Cue { from: usize, to: usize, url: String },
    /// The cue failed: deck `to` back to full level, and `url` follows on `from` gaplessly.
    Fallback { from: usize, to: usize, url: String },
    /// Start `url` on `deck` at full level, replacing what it had, with the next track's gain; then
    /// answer with [`Mix::cut_done`].
    CutTo { deck: usize, url: String },
    /// Move both levels and sweeps along an overlap: `from` out, `to` in, `at_ms` on the outgoing
    /// deck's clock, for an overlap that began at `start_ms` and runs `len_ms`.
    Ramp { from: usize, to: usize, at_ms: u64, start_ms: u64, len_ms: u64 },
    /// Finish an overlap: `from` stops, `to` is at full level, both sweeps flat.
    EndOverlap { from: usize, to: usize },
    /// Drop what `deck` had cued: stop it, back to full level.
    Uncue { deck: usize },
    /// `deck` to full level with flat sweeps.
    Full { deck: usize },
    /// Skip the `ms` of silence a starting track opens on: read `deck`'s position, seek if
    /// [`lead_needs_seek`] says so, and if the position can't be read yet, hand the lead back
    /// through [`Mix::defer_lead`].
    SkipLead { deck: usize, ms: u64 },
    /// Set `deck`'s pause.
    Pause { deck: usize, paused: bool },
    /// Empty `deck`'s playlist.
    ClearPlaylist { deck: usize },
}

/// A step as plain values.
pub enum StepV {
    Emit(Out),
    Seek { deck: usize, ms: u64 },
    Append { deck: usize, url: Seq<char> },
    Probe { url: Seq<char>, end: End },
    Cue { from: usize, to: usize, url: Seq<char> },
    Fallback { from: usize, to: usize, url: Seq<char> },
    CutTo { deck: usize, url: Seq<char> },
    Ramp { from: usize, to: usize, at_ms: u64, start_ms: u64, len_ms: u64 },
    EndOverlap { from: usize, to: usize },
    Uncue { deck: usize },
    Full { deck: usize },
    SkipLead { deck: usize, ms: u64 },
    Pause { deck: usize, paused: bool },
    ClearPlaylist { deck: usize },
}

pub open spec fn step_view(s: Step) -> StepV {
    match s {
        Step::Emit(o) => StepV::Emit(o),
        Step::Seek { deck, ms } => StepV::Seek { deck, ms },
        Step::Append { deck, url } => StepV::Append { deck, url: url@ },
        Step::Probe { url, end } => StepV::Probe { url: url@, end },
        Step::Cue { from, to, url } => StepV::Cue { from, to, url: url@ },
        Step::Fallback { from, to, url } => StepV::Fallback { from, to, url: url@ },
        Step::CutTo { deck, url } => StepV::CutTo { deck, url: url@ },
        Step::Ramp { from, to, at_ms, start_ms, len_ms } => StepV::Ramp {
            from,
            to,
            at_ms,
            start_ms,
            len_ms,
        },
        Step::EndOverlap { from, to } => StepV::EndOverlap { from, to },
        Step::Uncue { deck } => StepV::Uncue { deck },
        Step::Full { deck } => StepV::Full { deck },
        Step::SkipLead { deck, ms } => StepV::SkipLead { deck, ms },
        Step::Pause { deck, paused } => StepV::Pause { deck, paused },
        Step::ClearPlaylist { deck } => StepV::ClearPlaylist { deck },
    }
}

pub open spec fn steps_view(s: Seq<Step>) -> Seq<StepV> {
    s.map_values(|x: Step| step_view(x))
}

/// A lead-in worth a seek.
pub open spec fn worth_a_seek(lead: Option<u64>) -> Option<u64> {
    match lead {
        Some(l) => if l >= MIN_LEAD_MS {
            Some(l)
        } else {
            None
        },
        None => None,
    }
}

/// The silence `deck`'s track closes on, when it is less than half the track: more than that means
/// the measurement found something odd.
pub open spec fn tail_of(v: MixView, deck: usize) -> u64 {
    match silence_ms(v.silence, v.path[deck as int], End::Tail) {
        Some(t) => if 2 * t < v.duration[deck as int] {
            t
        } else {
            0
        },
        None => 0,
    }
}

/// Where `deck`'s music ends: where the silence after it starts.
pub open spec fn music_end(v: MixView, deck: usize) -> int {
    v.duration[deck as int] - tail_of(v, deck)
}

/// How long the overlap out of `deck` runs: the crossfade, but a third of the music at most.
pub open spec fn overlap_len(v: MixView, deck: usize) -> int {
    let third = music_end(v, deck) / 3;
    if (v.crossfade_ms as int) < third {
        v.crossfade_ms as int
    } else {
        third
    }
}

/// The overlap out of `from` that starts at `pos`, with `left` of the music to go.
pub open spec fn overlap_at(from: usize, pos: u64, left: int) -> Overlap {
    Overlap { from, start_ms: pos, len_ms: if left >= 1 { left as u64 } else { 1 } }
}

/// Start the cued track and make its deck the active one: under `ov`, or at full level when there
/// is none. To the app the current track has ended, and the new track's length (reported while it
/// was cued) is announced as it would be on a load.
pub open spec fn start_cued_spec(v: MixView, from: usize, ov: Option<Overlap>) -> (MixView, Seq<StepV>) {
    match v.cued {
        None => (v, Seq::empty()),
        Some(to) => {
            let s1 = if ov is None {
                seq![StepV::Full { deck: to }]
            } else {
                Seq::empty()
            };
            let s2 = match worth_a_seek(silence_ms(v.silence, v.path[to as int], End::Head)) {
                Some(l) => seq![StepV::SkipLead { deck: to, ms: l }],
                None => Seq::empty(),
            };
            let s3 = seq![
                StepV::Pause { deck: to, paused: v.paused[from as int] },
                StepV::Emit(Out::TrackEnded),
            ];
            let s4 = if v.duration[to as int] > 0 {
                seq![StepV::Emit(Out::Duration(to))]
            } else {
                Seq::empty()
            };
            (MixView { cued: None, overlap: ov, active: to, ..v }, s1 + s2 + s3 + s4)
        },
    }
}

/// Finish an overlap now; nothing when none is running.
pub open spec fn end_overlap_spec(v: MixView) -> (MixView, Seq<StepV>) {
    match v.overlap {
        None => (v, Seq::empty()),
        Some(o) => (
            MixView { overlap: None, ..v },
            seq![StepV::EndOverlap { from: o.from, to: other(o.from) }],
        ),
    }
}

/// Drop a cued track: the queue changed under it, or something else is being played.
pub open spec fn uncue_spec(v: MixView) -> (MixView, Seq<StepV>) {
    match v.cued {
        None => (v, Seq::empty()),
        Some(c) => (
            MixView {
                cued: None,
                lead_in: v.lead_in.update(c as int, None),
                handoff: if v.handoff == Some(c) {
                    None
                } else {
                    v.handoff
                },
                ..v
            },
            seq![StepV::Uncue { deck: c }],
        ),
    }
}

/// A position tick from the outgoing deck: both levels move along, and the overlap ends once its
/// whole length has played.
pub open spec fn step_overlap_spec(v: MixView, pos: u64) -> (MixView, Seq<StepV>) {
    match v.overlap {
        None => (v, Seq::empty()),
        Some(o) => {
            let s = seq![
                StepV::Ramp {
                    from: o.from,
                    to: other(o.from),
                    at_ms: pos,
                    start_ms: o.start_ms,
                    len_ms: o.len_ms,
                },
            ];
            if pos >= o.start_ms + o.len_ms {
                (end_overlap_spec(v).0, s + end_overlap_spec(v).1)
            } else {
                (v, s)
            }
        },
    }
}

/// A position tick from the active deck. Cues the next track a little ahead of the crossfade, and
/// starts the overlap once the track is within the crossfade of where its music ends. With too
/// little left for an overlap, the next track goes to mpv's playlist instead.
pub open spec fn maybe_overlap_spec(v: MixView, deck: usize, pos: u64) -> (MixView, Seq<StepV>) {
    if v.overlap is Some || v.loop_file || v.crossfade_ms == 0 || v.duration[deck as int] == 0 {
        (v, Seq::empty())
    } else {
        let len = overlap_len(v, deck);
        let left = music_end(v, deck) - pos;
        if v.cued is None && left <= len + CUE_AHEAD_MS {
            match v.next {
                None => (v, Seq::empty()),
                Some(url) => if left < MIN_OVERLAP_MS {
                    (MixView { next: None, ..v }, seq![StepV::Append { deck, url }])
                } else {
                    (
                        MixView {
                            next: None,
                            duration: v.duration.update(other(deck) as int, 0),
                            pending: Some(PendingV { from: deck, url, at_ms: pos }),
                            ..v
                        },
                        seq![StepV::Cue { from: deck, to: other(deck), url }],
                    )
                },
            }
        } else if v.cued is Some && left <= len {
            start_cued_spec(v, deck, Some(overlap_at(deck, pos, left)))
        } else {
            (v, Seq::empty())
        }
    }
}

/// The app's answer to a cue. On success the deck is cued, into the silence its track opens on,
/// and the overlap starts at once if the outgoing track is already within it.
pub open spec fn cue_done_spec(v: MixView, ok: bool) -> (MixView, Seq<StepV>) {
    match v.pending {
        None => (v, Seq::empty()),
        Some(p) => {
            let to = other(p.from);
            let v1 = MixView { pending: None, ..v };
            if !ok {
                (v1, seq![StepV::Fallback { from: p.from, to, url: p.url }])
            } else {
                let lead = worth_a_seek(silence_ms(v.silence, Some(p.url), End::Head));
                let v2 = MixView {
                    cued: Some(to),
                    handoff: Some(to),
                    lead_in: v1.lead_in.update(to as int, lead),
                    ..v1
                };
                let left = music_end(v2, p.from) - p.at_ms;
                if left <= overlap_len(v2, p.from) {
                    start_cued_spec(v2, p.from, Some(overlap_at(p.from, p.at_ms, left)))
                } else {
                    (v2, Seq::empty())
                }
            }
        },
    }
}

/// The track on the active deck ended with nothing cued: the next track, if one is held, starts
/// there now, and the queue advances.
pub open spec fn ended_spec(v: MixView, deck: usize) -> (MixView, Seq<StepV>) {
    if v.cued is Some {
        start_cued_spec(v, deck, None)
    } else {
        match v.next {
            Some(url) => (
                MixView { next: None, lead_in: v.lead_in.update(deck as int, None), ..v },
                seq![StepV::CutTo { deck, url }, StepV::Emit(Out::TrackEnded)],
            ),
            None => (v, seq![StepV::Emit(Out::TrackEnded)]),
        }
    }
}

/// A failed file. A handoff to it is over; an overlap out of it ends; a cued track that failed is
/// no longer cued (when the current one ends the app finds the player idle and loads the next one
/// itself); the active track's failure reaches the app.
pub open spec fn failed_spec(v: MixView, deck: usize) -> (MixView, Seq<StepV>) {
    let outgoing = v.overlap matches Some(o) && o.from == deck;
    let v0 = if v.handoff == Some(deck) {
        MixView { handoff: None, ..v }
    } else {
        v
    };
    if outgoing {
        end_overlap_spec(v0)
    } else if v0.cued == Some(deck) {
        (MixView { cued: None, ..v0 }, Seq::empty())
    } else if deck == v0.active {
        (v0, seq![StepV::Emit(Out::TrackFailed)])
    } else {
        (v0, Seq::empty())
    }
}

/// One event from `deck`, before the playing state is brought up to date.
pub open spec fn event_spec(v: MixView, deck: usize, ev: DeckEvent) -> (MixView, Seq<StepV>) {
    let outgoing = v.overlap matches Some(o) && o.from == deck;
    match ev {
        DeckEvent::Position(p) => if outgoing {
            match p {
                Some(ms) => step_overlap_spec(v, ms),
                None => (v, Seq::empty()),
            }
        } else if deck == v.active {
            let e = seq![StepV::Emit(Out::Position)];
            match p {
                Some(ms) => (maybe_overlap_spec(v, deck, ms).0, e + maybe_overlap_spec(v, deck, ms).1),
                None => (v, e),
            }
        } else {
            (v, Seq::empty())
        },
        DeckEvent::Duration(d) => (
            MixView { duration: v.duration.update(deck as int, d), ..v },
            if deck == v.active {
                seq![StepV::Emit(Out::Duration(deck))]
            } else {
                Seq::empty()
            },
        ),
        DeckEvent::Path(p) => {
            let asked = if deck == v.active {
                ask_spec(v, p@, End::Tail)
            } else {
                (v.silence, false)
            };
            (
                MixView { silence: asked.0, path: v.path.update(deck as int, Some(p@)), ..v },
                if asked.1 {
                    seq![StepV::Probe { url: p@, end: End::Tail }]
                } else {
                    Seq::empty()
                },
            )
        },
        DeckEvent::Paused(b) => (MixView { paused: v.paused.update(deck as int, b), ..v }, Seq::empty()),
        DeckEvent::Idle(b) => (MixView { idle: v.idle.update(deck as int, b), ..v }, Seq::empty()),
        DeckEvent::Started => if v.handoff == Some(deck) {
            (MixView { handoff: None, ..v }, Seq::empty())
        } else {
            (v, Seq::empty())
        },
        DeckEvent::Loaded => match v.lead_in[deck as int] {
            Some(l) => (
                MixView { lead_in: v.lead_in.update(deck as int, None), ..v },
                seq![StepV::Seek { deck, ms: l }],
            ),
            None => (v, Seq::empty()),
        },
        DeckEvent::Ended => if outgoing {
            end_overlap_spec(v)
        } else if deck == v.active {
            ended_spec(v, deck)
        } else {
            (v, Seq::empty())
        },
        DeckEvent::Failed => failed_spec(v, deck),
    }
}

/// One event from `deck`, turned into what the app does and hears. The listener hears that playback
/// started or stopped only on a real change.
pub open spec fn on_event_spec(v: MixView, deck: usize, ev: DeckEvent) -> (MixView, Seq<StepV>) {
    let r = event_spec(v, deck, ev);
    let now = derived_playing(r.0);
    if now != r.0.playing {
        (MixView { playing: now, ..r.0 }, r.1.push(StepV::Emit(Out::Playing(now))))
    } else {
        r
    }
}

/// The deck that isn't `d`.
fn other_deck(d: usize) -> (r: usize)
    ensures
        r == other(d),
{
    if d == 0 {
        1
    } else {
        0
    }
}

/// Whether a track found at `at_ms` has to be sought past its `lead_ms` of leading silence: it does
/// unless it is already within [`MIN_LEAD_MS`] of where the sound starts.
pub fn lead_needs_seek(at_ms: u64, lead_ms: u64) -> (r: bool)
    ensures
        r == (at_ms + MIN_LEAD_MS < lead_ms),
{
    lead_ms >= MIN_LEAD_MS && at_ms < lead_ms - MIN_LEAD_MS
}

impl Mix {
    /// Where `deck`'s music ends, and how long the overlap out of it runs.
    fn window(&self, deck: usize) -> (r: (u64, u64))
        requires
            wf(self@),
            deck < 2,
        ensures
            r.0 == music_end(self@, deck),
            r.1 == overlap_len(self@, deck),
    {
        let duration = self.duration[deck];
        let t = match &self.path[deck] {
            Some(p) => {
                assert(self@.path[deck as int] == Some(p@));
                self.silence_at(Some(p.as_str()), End::Tail)
            },
            None => {
                assert(self@.path[deck as int] is None);
                None
            },
        };
        let tail = match t {
            Some(t) => if t < duration && t < duration - t {
                t
            } else {
                0
            },
            None => 0,
        };
        let end = duration - tail;
        let third = end / 3;
        let len = if self.crossfade_ms < third {
            self.crossfade_ms
        } else {
            third
        };
        (end, len)
    }

    /// See [`start_cued_spec`].
    fn start_cued(&mut self, from: usize, ov: Option<Overlap>) -> (r: Vec<Step>)
        requires
            wf(old(self)@),
            from == old(self)@.active,
            ov matches Some(o) ==> o.from == from && o.len_ms > 0,
        ensures
            wf(final(self)@),
            final(self)@ == start_cued_spec(old(self)@, from, ov).0,
            steps_view(r@) == start_cued_spec(old(self)@, from, ov).1,
    {
        let ghost v = self@;
        let mut out: Vec<Step> = Vec::new();
        let to = match self.cued {
            None => {
                assert(steps_view(out@) =~= Seq::<StepV>::empty());
                return out;
            },
            Some(c) => c,
        };
        if ov.is_none() {
            out.push(Step::Full { deck: to });
        }
        let ghost s1 = steps_view(out@);
        let lead = match &self.path[to] {
            Some(p) => {
                assert(v.path[to as int] == Some(p@));
                self.silence_at(Some(p.as_str()), End::Head)
            },
            None => {
                assert(v.path[to as int] is None);
                None
            },
        };
        match lead {
            Some(l) => if l >= MIN_LEAD_MS {
                out.push(Step::SkipLead { deck: to, ms: l });
            },
            None => {},
        }
        let ghost s2 = steps_view(out@);
        out.push(Step::Pause { deck: to, paused: self.paused[from] });
        out.push(Step::Emit(Out::TrackEnded));
        if self.duration[to] > 0 {
            out.push(Step::Emit(Out::Duration(to)));
        }
        self.cued = None;
        self.overlap = ov;
        self.active = to;
        proof {
            let sp = start_cued_spec(v, from, ov);
            assert(self@ =~= sp.0);
            assert(steps_view(out@) =~= sp.1);
        }
        out
    }

    /// See [`end_overlap_spec`].
    fn end_overlap(&mut self) -> (r: Vec<Step>)
        requires
            wf(old(self)@),
        ensures
            wf(final(self)@),
            final(self)@ == end_overlap_spec(old(self)@).0,
            steps_view(r@) == end_overlap_spec(old(self)@).1,
    {
        let ghost v = self@;
        let mut out: Vec<Step> = Vec::new();
        match self.overlap {
            None => {},
            Some(o) => {
                self.overlap = None;
                out.push(Step::EndOverlap { from: o.from, to: other_deck(o.from) });
            },
        }
        proof {
            assert(self@ =~= end_overlap_spec(v).0);
            assert(steps_view(out@) =~= end_overlap_spec(v).1);
        }
        out
    }

    /// See [`uncue_spec`].
    fn uncue(&mut self) -> (r: Vec<Step>)
        requires
            wf(old(self)@),
        ensures
            wf(final(self)@),
            final(self)@ == uncue_spec(old(self)@).0,
            steps_view(r@) == uncue_spec(old(self)@).1,
    {
        let ghost v = self@;
        let mut out: Vec<Step> = Vec::new();
        match self.cued {
            None => {},
            Some(c) => {
                self.cued = None;
                self.lead_in.set(c, None);
                if self.handoff == Some(c) {
                    self.handoff = None;
                }
                out.push(Step::Uncue { deck: c });
            },
        }
        proof {
            assert(self@ =~= uncue_spec(v).0);
            assert(steps_view(out@) =~= uncue_spec(v).1);
        }
        out
    }

    /// See [`step_overlap_spec`].
    fn step_overlap(&mut self, pos: u64) -> (r: Vec<Step>)
        requires
            wf(old(self)@),
        ensures
            wf(final(self)@),
            final(self)@ == step_overlap_spec(old(self)@, pos).0,
            steps_view(r@) == step_overlap_spec(old(self)@, pos).1,
    {
        let ghost v = self@;
        let mut out: Vec<Step> = Vec::new();
        let o = match self.overlap {
            None => {
                assert(steps_view(out@) =~= Seq::<StepV>::empty());
                return out;
            },
            Some(o) => o,
        };
        out.push(
            Step::Ramp {
                from: o.from,
                to: other_deck(o.from),
                at_ms: pos,
                start_ms: o.start_ms,
                len_ms: o.len_ms,
            },
        );
        let ghost s = steps_view(out@);
        if pos as u128 >= o.start_ms as u128 + o.len_ms as u128 {
            let mut e = self.end_overlap();
            out.append(&mut e);
        }
        proof {
            assert(steps_view(out@) =~= step_overlap_spec(v, pos).1);
        }
        out
    }
}

impl Mix {
    /// See [`maybe_overlap_spec`].
    fn maybe_overlap(&mut self, deck: usize, pos: u64) -> (r: Vec<Step>)
        requires
            wf(old(self)@),
            deck == old(self)@.active,
        ensures
            wf(final(self)@),
            final(self)@ == maybe_overlap_spec(old(self)@, deck, pos).0,
            steps_view(r@) == maybe_overlap_spec(old(self)@, deck, pos).1,
    {
        let ghost v = self@;
        let mut out: Vec<Step> = Vec::new();
        if self.overlap.is_some() || self.loop_file || self.crossfade_ms == 0 || self.duration[deck]
            == 0 {
            assert(steps_view(out@) =~= Seq::<StepV>::empty());
            return out;
        }
        let (end, len) = self.window(deck);
        let within_cue = (end as u128) <= (pos as u128) + (len as u128) + (CUE_AHEAD_MS as u128);
        let too_late = (end as u128) < (pos as u128) + (MIN_OVERLAP_MS as u128);
        let within = (end as u128) <= (pos as u128) + (len as u128);
        if self.cued.is_none() && within_cue {
            match self.next.take() {
                None => {
                    assert(steps_view(out@) =~= Seq::<StepV>::empty());
                },
                Some(url) => {
                    if too_late {
                        out.push(Step::Append { deck, url });
                    } else {
                        let to = other_deck(deck);
                        self.duration.set(to, 0);
                        let copy = url.clone();
                        self.pending = Some(PendingCue { from: deck, url: copy, at_ms: pos });
                        out.push(Step::Cue { from: deck, to, url });
                    }
                },
            }
            proof {
                assert(self@ =~= maybe_overlap_spec(v, deck, pos).0);
                assert(steps_view(out@) =~= maybe_overlap_spec(v, deck, pos).1);
            }
            out
        } else if self.cued.is_some() && within {
            let left: u64 = if end > pos {
                end - pos
            } else {
                0
            };
            let ov = Overlap {
                from: deck,
                start_ms: pos,
                len_ms: if left >= 1 {
                    left
                } else {
                    1
                },
            };
            assert(ov == overlap_at(deck, pos, music_end(v, deck) - pos));
            self.start_cued(deck, Some(ov))
        } else {
            assert(steps_view(out@) =~= Seq::<StepV>::empty());
            out
        }
    }

    /// The app's answer to a [`Step::Cue`]: whether the track loaded on the other deck. See
    /// [`cue_done_spec`].
    pub fn cue_done(&mut self, ok: bool) -> (r: Vec<Step>)
        requires
            old(self).wf(),
        ensures
            final(self).wf(),
            final(self)@ == cue_done_spec(old(self)@, ok).0,
            steps_view(r@) == cue_done_spec(old(self)@, ok).1,
    {
        let ghost v = self@;
        let mut out: Vec<Step> = Vec::new();
        let p = match self.pending.take() {
            None => {
                assert(steps_view(out@) =~= Seq::<StepV>::empty());
                return out;
            },
            Some(p) => p,
        };
        let to = other_deck(p.from);
        if !ok {
            out.push(Step::Fallback { from: p.from, to, url: p.url });
            proof {
                assert(self@ =~= cue_done_spec(v, ok).0);
                assert(steps_view(out@) =~= cue_done_spec(v, ok).1);
            }
            return out;
        }
        let found = self.silence_at(Some(p.url.as_str()), End::Head);
        let lead = match found {
            Some(l) => if l >= MIN_LEAD_MS {
                Some(l)
            } else {
                None
            },
            None => None,
        };
        self.cued = Some(to);
        self.handoff = Some(to);
        self.lead_in.set(to, lead);
        let ghost v2 = self@;
        let (end, len) = self.window(p.from);
        if (end as u128) <= (p.at_ms as u128) + (len as u128) {
            let left: u64 = if end > p.at_ms {
                end - p.at_ms
            } else {
                0
            };
            let ov = Overlap {
                from: p.from,
                start_ms: p.at_ms,
                len_ms: if left >= 1 {
                    left
                } else {
                    1
                },
            };
            assert(ov == overlap_at(p.from, p.at_ms, music_end(v2, p.from) - p.at_ms));
            self.start_cued(p.from, Some(ov))
        } else {
            assert(steps_view(out@) =~= Seq::<StepV>::empty());
            out
        }
    }

    /// The app's answer to a [`Step::CutTo`]: on success the deck is handing over until its track
    /// starts, so a moment of mpv being idle in between isn't read as a stall.
    pub fn cut_done(&mut self, deck: usize, ok: bool)
        requires
            old(self).wf(),
        ensures
            final(self).wf(),
            final(self)@ == (if ok && deck < 2 {
                MixView { handoff: Some(deck), ..old(self)@ }
            } else {
                old(self)@
            }),
    {
        if ok && deck < 2 {
            self.handoff = Some(deck);
        }
    }

    /// Where the position couldn't be read yet: the lead-in is skipped as soon as the file is open.
    pub fn defer_lead(&mut self, deck: usize, ms: u64)
        requires
            old(self).wf(),
        ensures
            final(self).wf(),
            final(self)@ == (if deck < 2 {
                MixView { lead_in: old(self)@.lead_in.update(deck as int, Some(ms)), ..old(self)@ }
            } else {
                old(self)@
            }),
    {
        let ghost v = self@;
        if deck < 2 {
            self.lead_in.set(deck, Some(ms));
        }
        assert(self@ =~= (if deck < 2 {
            MixView { lead_in: v.lead_in.update(deck as int, Some(ms)), ..v }
        } else {
            v
        }));
    }

    /// See [`ended_spec`].
    fn ended(&mut self, deck: usize) -> (r: Vec<Step>)
        requires
            wf(old(self)@),
            deck == old(self)@.active,
        ensures
            wf(final(self)@),
            final(self)@ == ended_spec(old(self)@, deck).0,
            steps_view(r@) == ended_spec(old(self)@, deck).1,
    {
        let ghost v = self@;
        if self.cued.is_some() {
            return self.start_cued(deck, None);
        }
        let mut out: Vec<Step> = Vec::new();
        match self.next.take() {
            Some(url) => {
                self.lead_in.set(deck, None);
                out.push(Step::CutTo { deck, url });
            },
            None => {},
        }
        out.push(Step::Emit(Out::TrackEnded));
        proof {
            assert(self@ =~= ended_spec(v, deck).0);
            assert(steps_view(out@) =~= ended_spec(v, deck).1);
        }
        out
    }

    /// See [`failed_spec`].
    fn failed(&mut self, deck: usize) -> (r: Vec<Step>)
        requires
            wf(old(self)@),
            deck < 2,
        ensures
            wf(final(self)@),
            final(self)@ == failed_spec(old(self)@, deck).0,
            steps_view(r@) == failed_spec(old(self)@, deck).1,
    {
        let ghost v = self@;
        let outgoing = match self.overlap {
            Some(o) => o.from == deck,
            None => false,
        };
        if self.handoff == Some(deck) {
            self.handoff = None;
        }
        let mut out: Vec<Step> = Vec::new();
        if outgoing {
            return self.end_overlap();
        } else if self.cued == Some(deck) {
            self.cued = None;
        } else if deck == self.active {
            out.push(Step::Emit(Out::TrackFailed));
        }
        proof {
            assert(self@ =~= failed_spec(v, deck).0);
            assert(steps_view(out@) =~= failed_spec(v, deck).1);
        }
        out
    }
}

impl Mix {
    /// See [`event_spec`].
    fn event(&mut self, deck: usize, ev: DeckEvent) -> (r: Vec<Step>)
        requires
            wf(old(self)@),
            deck < 2,
        ensures
            shape(final(self)@),
            final(self)@ == event_spec(old(self)@, deck, ev).0,
            steps_view(r@) == event_spec(old(self)@, deck, ev).1,
    {
        let ghost v = self@;
        let outgoing = match self.overlap {
            Some(o) => o.from == deck,
            None => false,
        };
        let mut out: Vec<Step> = Vec::new();
        match ev {
            DeckEvent::Position(p) => {
                if outgoing {
                    match p {
                        Some(ms) => {
                            return self.step_overlap(ms);
                        },
                        None => {},
                    }
                } else if deck == self.active {
                    out.push(Step::Emit(Out::Position));
                    match p {
                        Some(ms) => {
                            let mut more = self.maybe_overlap(deck, ms);
                            out.append(&mut more);
                        },
                        None => {},
                    }
                }
            },
            DeckEvent::Duration(d) => {
                self.duration.set(deck, d);
                if deck == self.active {
                    out.push(Step::Emit(Out::Duration(deck)));
                }
            },
            DeckEvent::Path(p) => {
                if deck == self.active {
                    if self.ask(p.as_str(), End::Tail) {
                        out.push(Step::Probe { url: p.clone(), end: End::Tail });
                    }
                }
                self.path.set(deck, Some(p));
            },
            DeckEvent::Paused(b) => {
                self.paused.set(deck, b);
            },
            DeckEvent::Idle(b) => {
                self.idle.set(deck, b);
            },
            DeckEvent::Started => {
                if self.handoff == Some(deck) {
                    self.handoff = None;
                }
            },
            DeckEvent::Loaded => {
                match self.lead_in[deck] {
                    Some(l) => {
                        self.lead_in.set(deck, None);
                        out.push(Step::Seek { deck, ms: l });
                    },
                    None => {},
                }
            },
            DeckEvent::Ended => {
                if outgoing {
                    return self.end_overlap();
                } else if deck == self.active {
                    return self.ended(deck);
                }
            },
            DeckEvent::Failed => {
                return self.failed(deck);
            },
        }
        proof {
            assert(self@ =~= event_spec(v, deck, ev).0);
            assert(steps_view(out@) =~= event_spec(v, deck, ev).1);
        }
        out
    }

    /// One event from `deck`, turned into what the app does and hears. See [`on_event_spec`].
    pub fn on_event(&mut self, deck: usize, ev: DeckEvent) -> (r: Vec<Step>)
        requires
            old(self).wf(),
            deck < 2,
        ensures
            final(self).wf(),
            final(self)@ == on_event_spec(old(self)@, deck, ev).0,
            steps_view(r@) == on_event_spec(old(self)@, deck, ev).1,
    {
        let ghost v = self@;
        let mut out = self.event(deck, ev);
        let now = (!self.paused[0] && !self.idle[0]) || (!self.paused[1] && !self.idle[1]);
        if now != self.playing {
            self.playing = now;
            out.push(Step::Emit(Out::Playing(now)));
        }
        proof {
            assert(self@ =~= on_event_spec(v, deck, ev).0);
            assert(steps_view(out@) =~= on_event_spec(v, deck, ev).1);
        }
        out
    }
}

/// A probe step when a measurement has to be started.
pub open spec fn probe_if(job: bool, url: Seq<char>, end: End) -> Seq<StepV> {
    if job {
        seq![StepV::Probe { url, end }]
    } else {
        Seq::empty()
    }
}

/// Asking for both ends of `url`, the head first.
pub open spec fn ask_both_spec(v: MixView, url: Seq<char>) -> (MixView, Seq<StepV>) {
    let h = ask_spec(v, url, End::Head);
    let v1 = with_silence(v, h.0);
    let t = ask_spec(v1, url, End::Tail);
    (with_silence(v1, t.0), probe_if(h.1, url, End::Head) + probe_if(t.1, url, End::Tail))
}

/// Loading a fresh track on the active deck cuts an overlap short (the user picked something, and
/// the outgoing track has no business carrying on under it), drops a cued track and the held next
/// one; the app then loads the track.
pub open spec fn load_spec(v: MixView) -> (MixView, Seq<StepV>) {
    let a = end_overlap_spec(v);
    let b = uncue_spec(a.0);
    (
        MixView {
            next: None,
            handoff: None,
            pending: None,
            lead_in: b.0.lead_in.update(b.0.active as int, None),
            ..b.0
        },
        a.1 + b.1,
    )
}

/// Handing over the next track. With a crossfade set and `blend` true it is held here, to start on
/// the other deck as the current track nears its end, and both its ends are measured. Otherwise it
/// joins the active deck's playlist for a gapless transition.
pub open spec fn enqueue_spec(v: MixView, url: Seq<char>, blend: bool) -> (MixView, Seq<StepV>) {
    if blend && v.crossfade_ms > 0 {
        ask_both_spec(MixView { next: Some(url), ..v }, url)
    } else {
        (MixView { next: None, ..v }, seq![StepV::Append { deck: v.active, url }])
    }
}

/// Dropping the next track: the held one, the cued one, and the active deck's playlist.
pub open spec fn clear_playlist_spec(v: MixView) -> (MixView, Seq<StepV>) {
    let u = uncue_spec(MixView { next: None, ..v });
    (u.0, u.1.push(StepV::ClearPlaylist { deck: v.active }))
}

/// How tracks meet from here on. Turning the crossfade off hands a held next track to the active
/// deck's playlist, so it still follows gaplessly; an overlap already running finishes, and a
/// track already cued starts when the current one ends. Switched on mid-track, the playing track's
/// end and the next one's ends are measured.
pub open spec fn set_crossfade_spec(v: MixView, ms: u64, filters: bool) -> (MixView, Seq<StepV>) {
    let v0 = MixView { crossfade_ms: ms, filters, ..v };
    let a = if ms == 0 {
        match v0.next {
            Some(u) => (MixView { next: None, ..v0 }, seq![StepV::Append { deck: v.active, url: u }]),
            None => (v0, Seq::<StepV>::empty()),
        }
    } else {
        (v0, Seq::<StepV>::empty())
    };
    let b = match a.0.path[v.active as int] {
        Some(p) => {
            let t = ask_spec(a.0, p, End::Tail);
            (with_silence(a.0, t.0), probe_if(t.1, p, End::Tail))
        },
        None => (a.0, Seq::<StepV>::empty()),
    };
    let c = match b.0.next {
        Some(u) => ask_both_spec(b.0, u),
        None => (b.0, Seq::<StepV>::empty()),
    };
    (c.0, a.1 + b.1 + c.1)
}

impl Mix {
    /// Ask for one end of `url`, adding the probe step when a measurement has to start.
    fn ask_into(&mut self, url: &str, end: End, out: &mut Vec<Step>)
        requires
            wf(old(self)@),
        ensures
            wf(final(self)@),
            final(self)@ == with_silence(old(self)@, ask_spec(old(self)@, url@, end).0),
            steps_view(final(out)@) == steps_view(old(out)@) + probe_if(
                ask_spec(old(self)@, url@, end).1,
                url@,
                end,
            ),
    {
        let ghost o = steps_view(out@);
        if self.ask(url, end) {
            out.push(Step::Probe { url: url.to_owned(), end });
        }
        assert(steps_view(out@) =~= o + probe_if(ask_spec(old(self)@, url@, end).1, url@, end));
    }

    fn ask_both(&mut self, url: &str, out: &mut Vec<Step>)
        requires
            wf(old(self)@),
        ensures
            wf(final(self)@),
            final(self)@ == ask_both_spec(old(self)@, url@).0,
            steps_view(final(out)@) == steps_view(old(out)@) + ask_both_spec(old(self)@, url@).1,
    {
        let ghost o = steps_view(out@);
        self.ask_into(url, End::Head, out);
        self.ask_into(url, End::Tail, out);
        assert(steps_view(out@) =~= o + ask_both_spec(old(self)@, url@).1);
    }

    /// The deck the app is talking to: its position, its duration, its track.
    pub fn active(&self) -> (r: usize)
        requires
            self.wf(),
        ensures
            r == self@.active,
            r < 2,
    {
        self.active
    }

    /// Whether the crossfade sweeps its filters: on, with filters.
    pub fn sweeps(&self) -> (r: bool)
        ensures
            r == (self@.crossfade_ms > 0 && self@.filters),
    {
        self.crossfade_ms > 0 && self.filters
    }

    /// Whether a pause or a resume reaches `deck`: every deck but a cued one, which waits for its
    /// overlap.
    pub fn pauses(&self, deck: usize) -> (r: bool)
        ensures
            r == (self@.cued != Some(deck)),
    {
        self.cued != Some(deck)
    }

    /// Whether nothing is loaded, given what the active deck reports (`None` when it can't be read,
    /// which counts as idle). An overlap is an advance, not a stall: the incoming track is starting
    /// and the outgoing one still playing; so is a handoff, while mpv is briefly idle between one
    /// track and the next.
    pub fn is_idle(&self, reported: Option<bool>) -> (r: bool)
        ensures
            r == (if self@.overlap is Some || self@.handoff is Some {
                false
            } else {
                match reported {
                    Some(b) => b,
                    None => true,
                }
            }),
    {
        if self.overlap.is_some() || self.handoff.is_some() {
            return false;
        }
        match reported {
            Some(b) => b,
            None => true,
        }
    }

    /// Loop the active track (repeat-one). Only the active deck loops: an outgoing track that
    /// looped would never finish fading out, and no overlap starts while this is on.
    pub fn set_loop_file(&mut self, on: bool)
        requires
            old(self).wf(),
        ensures
            final(self).wf(),
            final(self)@ == (MixView { loop_file: on, ..old(self)@ }),
    {
        self.loop_file = on;
    }

    /// See [`load_spec`].
    pub fn load(&mut self) -> (r: Vec<Step>)
        requires
            old(self).wf(),
        ensures
            final(self).wf(),
            final(self)@ == load_spec(old(self)@).0,
            steps_view(r@) == load_spec(old(self)@).1,
    {
        let ghost v = self@;
        let mut out = self.end_overlap();
        let mut more = self.uncue();
        out.append(&mut more);
        self.next = None;
        self.handoff = None;
        self.pending = None;
        let d = self.active;
        self.lead_in.set(d, None);
        proof {
            assert(self@ =~= load_spec(v).0);
            assert(steps_view(out@) =~= load_spec(v).1);
        }
        out
    }

    /// See [`enqueue_spec`].
    pub fn enqueue(&mut self, url: &str, blend: bool) -> (r: Vec<Step>)
        requires
            old(self).wf(),
        ensures
            final(self).wf(),
            final(self)@ == enqueue_spec(old(self)@, url@, blend).0,
            steps_view(r@) == enqueue_spec(old(self)@, url@, blend).1,
    {
        let ghost v = self@;
        let mut out: Vec<Step> = Vec::new();
        if blend && self.crossfade_ms > 0 {
            self.next = Some(url.to_owned());
            assert(steps_view(out@) =~= Seq::<StepV>::empty());
            self.ask_both(url, &mut out);
        } else {
            self.next = None;
            out.push(Step::Append { deck: self.active, url: url.to_owned() });
            proof {
                assert(steps_view(out@) =~= enqueue_spec(v, url@, blend).1);
            }
        }
        out
    }

    /// See [`clear_playlist_spec`].
    pub fn clear_playlist(&mut self) -> (r: Vec<Step>)
        requires
            old(self).wf(),
        ensures
            final(self).wf(),
            final(self)@ == clear_playlist_spec(old(self)@).0,
            steps_view(r@) == clear_playlist_spec(old(self)@).1,
    {
        let ghost v = self@;
        self.next = None;
        let mut out = self.uncue();
        out.push(Step::ClearPlaylist { deck: self.active });
        proof {
            assert(steps_view(out@) =~= clear_playlist_spec(v).1);
        }
        out
    }

    /// See [`set_crossfade_spec`]; `ms` 0 is off. The app then rebuilds both decks' filter chains,
    /// which the sweep filters join or leave.
    pub fn set_crossfade(&mut self, ms: u64, filters: bool) -> (r: Vec<Step>)
        requires
            old(self).wf(),
        ensures
            final(self).wf(),
            final(self)@ == set_crossfade_spec(old(self)@, ms, filters).0,
            steps_view(r@) == set_crossfade_spec(old(self)@, ms, filters).1,
    {
        let ghost v = self@;
        self.crossfade_ms = ms;
        self.filters = filters;
        let mut out: Vec<Step> = Vec::new();
        if ms == 0 {
            match self.next.take() {
                Some(u) => {
                    out.push(Step::Append { deck: self.active, url: u });
                },
                None => {},
            }
        }
        let ghost a = steps_view(out@);
        let ghost va = self@;
        let d = self.active;
        match &self.path[d] {
            Some(p) => {
                let p = p.clone();
                assert(va.path[d as int] == Some(p@));
                self.ask_into(p.as_str(), End::Tail, &mut out);
            },
            None => {},
        }
        let ghost b = steps_view(out@);
        match &self.next {
            Some(u) => {
                let u = u.clone();
                self.ask_both(u.as_str(), &mut out);
            },
            None => {},
        }
        proof {
            let sp = set_crossfade_spec(v, ms, filters);
            assert(a =~= (if ms == 0 {
                match v.next {
                    Some(u) => seq![StepV::Append { deck: v.active, url: u }],
                    None => Seq::<StepV>::empty(),
                }
            } else {
                Seq::<StepV>::empty()
            }));
            assert(self@ =~= sp.0);
            assert(steps_view(out@) =~= sp.1);
        }
        out
    }
}

/// With crossfading off the second deck never loads anything: from a state with nothing cued, no
/// overlap and no cue pending, no event cues a track, starts an overlap or moves the app to the
/// other deck.
pub proof fn law_crossfade_off_never_cues(v: MixView, deck: usize, ev: DeckEvent)
    requires
        wf(v),
        deck < 2,
        v.crossfade_ms == 0,
        v.cued is None,
        v.overlap is None,
        v.pending is None,
    ensures
        on_event_spec(v, deck, ev).0.cued is None,
        on_event_spec(v, deck, ev).0.overlap is None,
        on_event_spec(v, deck, ev).0.pending is None,
        on_event_spec(v, deck, ev).0.active == v.active,
        forall|i: int|
            0 <= i < on_event_spec(v, deck, ev).1.len() ==> !(#[trigger] on_event_spec(
                v,
                deck,
                ev,
            ).1[i] is Cue),
{
    let r = event_spec(v, deck, ev);
    assert(forall|i: int| 0 <= i < r.1.len() ==> !(#[trigger] r.1[i] is Cue));
    let f = on_event_spec(v, deck, ev);
    assert forall|i: int| 0 <= i < f.1.len() implies !(#[trigger] f.1[i] is Cue) by {
        if i < r.1.len() {
            assert(f.1[i] == r.1[i]);
        }
    }
}

/// The app hears one deck: a deck that is neither the active one nor the outgoing one of an
/// overlap (a cued deck, or one between tracks) never makes it hear a position, a length, a track
/// ending or a track failing, and never becomes the active one.
pub proof fn law_only_the_active_deck_is_heard(v: MixView, deck: usize, ev: DeckEvent)
    requires
        wf(v),
        deck < 2,
        deck != v.active,
        !(v.overlap matches Some(o) && o.from == deck),
    ensures
        on_event_spec(v, deck, ev).0.active == v.active,
        forall|i: int|
            0 <= i < on_event_spec(v, deck, ev).1.len() ==> match #[trigger] on_event_spec(
                v,
                deck,
                ev,
            ).1[i] {
                StepV::Emit(Out::Position) => false,
                StepV::Emit(Out::Duration(_)) => false,
                StepV::Emit(Out::TrackEnded) => false,
                StepV::Emit(Out::TrackFailed) => false,
                _ => true,
            },
{
    let r = event_spec(v, deck, ev);
    assert(forall|i: int|
        0 <= i < r.1.len() ==> (#[trigger] r.1[i] is Seek || r.1[i] is Probe));
    let f = on_event_spec(v, deck, ev);
    assert forall|i: int| 0 <= i < f.1.len() implies match #[trigger] f.1[i] {
        StepV::Emit(Out::Position) => false,
        StepV::Emit(Out::Duration(_)) => false,
        StepV::Emit(Out::TrackEnded) => false,
        StepV::Emit(Out::TrackFailed) => false,
        _ => true,
    } by {
        if i < r.1.len() {
            assert(f.1[i] == r.1[i]);
        }
    }
}

/// An overlap ends exactly as its length has played on the outgoing deck's clock: a position at or
/// past its end finishes it, and one before its end leaves it running.
pub proof fn law_overlap_runs_its_length(v: MixView, pos: u64)
    requires
        wf(v),
        v.overlap is Some,
    ensures
        on_event_spec(v, v.overlap->0.from, DeckEvent::Position(Some(pos))).0.overlap is None
            <==> pos >= v.overlap->0.start_ms + v.overlap->0.len_ms,
        on_event_spec(v, v.overlap->0.from, DeckEvent::Position(Some(pos))).0.active == v.active,
{
}

/// Whether a step tells the listener that playback started or stopped.
pub open spec fn tells_playing(s: StepV) -> bool {
    s matches StepV::Emit(Out::Playing(_))
}

/// Playback is "playing" when either deck is, and the listener hears it only on a real change:
/// after any event, `playing` is what the decks say, and a playing step comes last in the event's
/// steps, with the new value, exactly when the value changed; no other step says it.
pub proof fn law_playing_is_reported_on_a_change(v: MixView, deck: usize, ev: DeckEvent)
    requires
        wf(v),
        deck < 2,
    ensures
        on_event_spec(v, deck, ev).0.playing == derived_playing(on_event_spec(v, deck, ev).0),
        (on_event_spec(v, deck, ev).0.playing != v.playing) == (on_event_spec(v, deck, ev).1.len() > 0
            && on_event_spec(v, deck, ev).1.last() == StepV::Emit(
            Out::Playing(on_event_spec(v, deck, ev).0.playing),
        )),
        forall|i: int|
            0 <= i < on_event_spec(v, deck, ev).1.len() && tells_playing(
                #[trigger] on_event_spec(v, deck, ev).1[i],
            ) ==> i == on_event_spec(v, deck, ev).1.len() - 1 && on_event_spec(v, deck, ev).0.playing
                != v.playing,
{
    let r = event_spec(v, deck, ev);
    assert(r.0.playing == v.playing);
    assert(forall|i: int| 0 <= i < r.1.len() ==> !tells_playing(#[trigger] r.1[i]));
    let f = on_event_spec(v, deck, ev);
    assert forall|i: int| 0 <= i < f.1.len() && tells_playing(#[trigger] f.1[i]) implies i == f.1.len()
        - 1 && f.0.playing != v.playing by {
        if i < r.1.len() {
            assert(f.1[i] == r.1[i]);
        }
    }
}

/// Loading a track leaves nothing behind: no overlap, nothing cued, no next track held, no cue
/// pending, and the deck it plays on stays the active one.
pub proof fn law_load_starts_clean(v: MixView)
    requires
        wf(v),
    ensures
        load_spec(v).0.overlap is None,
        load_spec(v).0.cued is None,
        load_spec(v).0.next is None,
        load_spec(v).0.pending is None,
        load_spec(v).0.active == v.active,
{
}

} // verus!
