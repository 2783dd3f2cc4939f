//! The lyrics provider chain, as decisions: which provider is asked next, which answer is shown,
//! and whether the outcome may be cached. The app asks the providers and hands each answer back.
//!
//! The order: SimpMusic (keyed by the video itself), Boidu (word timings), LRCLIB's exact match
//! (synced or instrumental), YouTube Music's timed lyrics, Netease, QQ Music, Kugou, LRCLIB's fuzzy
//! search (synced), then the plain tier: LRCLIB's exact match, YouTube Music, the fuzzy search.
//!
//! An outcome is cached only when the track's length was known (matching is loose without it) and,
//! for "no lyrics", only when some provider answered definitively rather than merely erroring: an
//! offline run must not be cached as a day of "no lyrics".
use vstd::prelude::*;

use crate::lyrics::{
    chars_to_string, lines_view, plain_from_text, plain_lyrics, LyricLine, Lyrics, LyricsV,
};
use crate::providers::{lrclib_lyrics, lrclib_to_lyrics, LrclibTrack};

verus! {

/// Where the chain stands: the provider to ask next.
#[derive(Debug, Clone, Copy, PartialEq, Eq, Structural)]
pub enum Stage {
    SimpMusic,
    Boidu,
    LrclibGet,
    YouTubeTimed,
    Netease,
    QqMusic,
    Kugou,
    LrclibSearch,
    /// Plain lyrics from LRCLIB's exact match: nothing to ask.
    PlainLrclib,
    PlainYouTube,
    /// Plain lyrics from the fuzzy search: nothing to ask.
    PlainSearch,
    /// Every provider has had its turn.
    Done,
}

/// What the app found when it asked the stage's provider.
pub enum Event {
    /// The stage did not run: its setting is off, the track is a local file, or there is no
    /// browseId or client to ask YouTube Music with; also the answer to a stage with nothing to ask.
    Skipped,
    /// The provider could not be reached, or answered with an error.
    Failed,
    /// What SimpMusic, Boidu, Netease, QQ Music or Kugou found.
    Lyrics(Option<Lyrics>),
    /// LRCLIB's track, exact or searched; none when it has no such track.
    Track(Option<LrclibTrack>),
    /// YouTube Music's timed lines.
    Timed(Vec<LyricLine>),
    /// YouTube Music's plain lyrics and the attribution footer it shows with them.
    Plain(Option<(String, Option<String>)>),
}

/// What a run of the chain knows so far.
pub struct Chain {
    pub stage: Stage,
    /// Some provider answered definitively (found, or "not there"), rather than erroring.
    pub definitive: bool,
    /// The track's length was known when the chain started.
    pub duration_known: bool,
    /// YouTube Music's `next` answered, which says by itself whether it has lyrics.
    pub next_answered: bool,
    /// LRCLIB's exact match, kept for the plain tier.
    pub exact: Option<LrclibTrack>,
    /// LRCLIB's fuzzy-search hit, kept for the plain tier.
    pub searched: Option<LrclibTrack>,
}

/// The stage after `s`.
pub open spec fn next_stage(s: Stage) -> Stage {
    match s {
        Stage::SimpMusic => Stage::Boidu,
        Stage::Boidu => Stage::LrclibGet,
        Stage::LrclibGet => Stage::YouTubeTimed,
        Stage::YouTubeTimed => Stage::Netease,
        Stage::Netease => Stage::QqMusic,
        Stage::QqMusic => Stage::Kugou,
        Stage::Kugou => Stage::LrclibSearch,
        Stage::LrclibSearch => Stage::PlainLrclib,
        Stage::PlainLrclib => Stage::PlainYouTube,
        Stage::PlainYouTube => Stage::PlainSearch,
        Stage::PlainSearch => Stage::Done,
        Stage::Done => Stage::Done,
    }
}

/// The lyrics a provider found, if the event says it found any.
pub open spec fn lyrics_found(ev: Event) -> Option<LyricsV> {
    match ev {
        Event::Lyrics(Some(l)) => Some(l@),
        _ => None,
    }
}

/// The best an LRCLIB track yields.
pub open spec fn track_lyrics(t: LrclibTrack) -> Option<LyricsV> {
    lrclib_lyrics(
        t.instrumental,
        crate::lyrics::opt_string_view(t.plain_lyrics),
        crate::lyrics::opt_string_view(t.synced_lyrics),
    )
}

/// Where the chain stops at its stage, given what the stage's provider answered: the lyrics to
/// show (none at the end) and whether to cache the outcome; none when it goes on.
pub open spec fn chain_outcome(c: Chain, ev: Event) -> Option<(Option<LyricsV>, bool)> {
    match c.stage {
        Stage::SimpMusic => match lyrics_found(ev) {
            Some(l) => Some((Some(l), c.duration_known)),
            None => None,
        },
        Stage::Boidu | Stage::Netease | Stage::QqMusic | Stage::Kugou => match lyrics_found(ev) {
            Some(l) => Some((Some(l), c.duration_known)),
            None => None,
        },
        Stage::LrclibGet => match ev {
            Event::Track(Some(t)) => match track_lyrics(t) {
                Some(l) => if l.synced || l.instrumental {
                    Some((Some(l), c.duration_known))
                } else {
                    None
                },
                None => None,
            },
            _ => None,
        },
        Stage::YouTubeTimed => match ev {
            Event::Timed(ls) => if ls.len() > 0 {
                Some(
                    (
                        Some(
                            LyricsV {
                                source: "YouTube Music"@,
                                synced: true,
                                instrumental: false,
                                lines: lines_view(ls@),
                            },
                        ),
                        c.duration_known,
                    ),
                )
            } else {
                None
            },
            _ => None,
        },
        Stage::LrclibSearch => match ev {
            Event::Track(Some(t)) => match track_lyrics(t) {
                Some(l) => if l.synced {
                    Some((Some(l), c.duration_known))
                } else {
                    None
                },
                None => None,
            },
            _ => None,
        },
        Stage::PlainLrclib => match c.exact {
            Some(t) => match plain_lyrics(crate::lyrics::opt_string_view(t.plain_lyrics), "LRCLIB"@) {
                Some(l) => Some((Some(l), c.duration_known)),
                None => None,
            },
            None => None,
        },
        Stage::PlainYouTube => match ev {
            Event::Plain(Some((text, footer))) => match plain_lyrics(
                Some(text@),
                match footer {
                    Some(f) => f@,
                    None => "YouTube Music"@,
                },
            ) {
                Some(l) => Some((Some(l), c.duration_known)),
                None => None,
            },
            _ => None,
        },
        Stage::PlainSearch => match c.searched {
            Some(t) => match track_lyrics(t) {
                Some(l) => Some((Some(l), c.duration_known)),
                None => None,
            },
            None => None,
        },
        Stage::Done => Some((None, c.definitive && c.duration_known)),
    }
}

/// The chain after its stage went by without an outcome: on to the next stage. An answer from
/// LRCLIB (a track or "not there") is definitive and is kept for the plain tier; so is the
/// `next` answer, once the chain reaches YouTube Music.
pub open spec fn chain_next(c: Chain, ev: Event) -> Chain {
    let lrclib_answered = (c.stage == Stage::LrclibGet || c.stage == Stage::LrclibSearch) && (ev is Track);
    Chain {
        stage: next_stage(c.stage),
        definitive: c.definitive || lrclib_answered || (next_stage(c.stage) == Stage::YouTubeTimed
            && c.next_answered),
        duration_known: c.duration_known,
        next_answered: c.next_answered,
        exact: if c.stage == Stage::LrclibGet {
            match ev {
                Event::Track(t) => t,
                _ => None,
            }
        } else {
            c.exact
        },
        searched: if c.stage == Stage::LrclibSearch {
            match ev {
                Event::Track(t) => t,
                _ => None,
            }
        } else {
            c.searched
        },
    }
}

impl Chain {
    /// A run about to start, knowing whether YouTube Music's `next` answered and whether the
    /// track's length is known.
    pub fn new(next_answered: bool, duration_known: bool) -> (r: Self)
        ensures
            r.stage == Stage::SimpMusic,
            !r.definitive,
            r.duration_known == duration_known,
            r.next_answered == next_answered,
            r.exact is None,
            r.searched is None,
    {
        Chain {
            stage: Stage::SimpMusic,
            definitive: false,
            duration_known,
            next_answered,
            exact: None,
            searched: None,
        }
    }
}

/// The lyrics the outcome shows, in view.
pub open spec fn shown(o: Option<(Option<Lyrics>, bool)>) -> Option<(Option<LyricsV>, bool)> {
    match o {
        Some((l, c)) => Some(
            (
                match l {
                    Some(x) => Some(x@),
                    None => None,
                },
                c,
            ),
        ),
        None => None,
    }
}

/// Hand the chain what its stage's provider answered. `Some` is the outcome (the lyrics to show,
/// and whether to cache it); `None` means ask the provider the chain now stands at.
pub fn advance(c: &mut Chain, ev: Event) -> (r: Option<(Option<Lyrics>, bool)>)
    ensures
        shown(r) == chain_outcome(*old(c), ev),
        r is None ==> *final(c) == chain_next(*old(c), ev),
{
    let ghost c0 = *c;
    let ghost e0 = ev;
    let stage = c.stage;
    let r: Option<(Option<Lyrics>, bool)> = match stage {
        Stage::SimpMusic => match ev {
            Event::Lyrics(Some(l)) => {
                return Some((Some(l), c.duration_known));
            },
            _ => None,
        },
        Stage::Boidu | Stage::Netease | Stage::QqMusic | Stage::Kugou => match ev {
            Event::Lyrics(Some(l)) => {
                return Some((Some(l), c.duration_known));
            },
            _ => None,
        },
        Stage::LrclibGet => match ev {
            Event::Track(t) => {
                c.definitive = true;
                if let Some(track) = &t {
                    if let Some(l) = lrclib_to_lyrics(track) {
                        if l.synced || l.instrumental {
                            return Some((Some(l), c.duration_known));
                        }
                    }
                }
                c.exact = t;
                None
            },
            _ => {
                c.exact = None;
                None
            },
        },
        Stage::YouTubeTimed => match ev {
            Event::Timed(ls) => {
                if ls.len() > 0 {
                    let l = Lyrics {
                        source: chars_to_string("YouTube Music"),
                        synced: true,
                        instrumental: false,
                        lines: ls,
                    };
                    return Some((Some(l), c.duration_known));
                }
                None
            },
            _ => None,
        },
        Stage::LrclibSearch => match ev {
            Event::Track(t) => {
                c.definitive = true;
                if let Some(track) = &t {
                    if let Some(l) = lrclib_to_lyrics(track) {
                        if l.synced {
                            return Some((Some(l), c.duration_known));
                        }
                    }
                }
                c.searched = t;
                None
            },
            _ => {
                c.searched = None;
                None
            },
        },
        Stage::PlainLrclib => {
            if let Some(t) = &c.exact {
                let plain = match &t.plain_lyrics {
                    Some(p) => Some(p.as_str()),
                    None => None,
                };
                if let Some(l) = plain_from_text(plain, "LRCLIB") {
                    return Some((Some(l), c.duration_known));
                }
            }
            None
        },
        Stage::PlainYouTube => match ev {
            Event::Plain(Some((text, footer))) => {
                let source = match &footer {
                    Some(f) => f.as_str(),
                    None => "YouTube Music",
                };
                if let Some(l) = plain_from_text(Some(text.as_str()), source) {
                    return Some((Some(l), c.duration_known));
                }
                None
            },
            _ => None,
        },
        Stage::PlainSearch => {
            if let Some(t) = &c.searched {
                if let Some(l) = lrclib_to_lyrics(t) {
                    return Some((Some(l), c.duration_known));
                }
            }
            None
        },
        Stage::Done => {
            return Some((None, c.definitive && c.duration_known));
        },
    };
    c.stage = match stage {
        Stage::SimpMusic => Stage::Boidu,
        Stage::Boidu => Stage::LrclibGet,
        Stage::LrclibGet => Stage::YouTubeTimed,
        Stage::YouTubeTimed => Stage::Netease,
        Stage::Netease => Stage::QqMusic,
        Stage::QqMusic => Stage::Kugou,
        Stage::Kugou => Stage::LrclibSearch,
        Stage::LrclibSearch => Stage::PlainLrclib,
        Stage::PlainLrclib => Stage::PlainYouTube,
        Stage::PlainYouTube => Stage::PlainSearch,
        Stage::PlainSearch => Stage::Done,
        Stage::Done => Stage::Done,
    };
    if c.stage == Stage::YouTubeTimed && c.next_answered {
        c.definitive = true;
    }
    r
}

/// How many stages are left before the end.
pub open spec fn stages_left(s: Stage) -> nat {
    match s {
        Stage::SimpMusic => 11,
        Stage::Boidu => 10,
        Stage::LrclibGet => 9,
        Stage::YouTubeTimed => 8,
        Stage::Netease => 7,
        Stage::QqMusic => 6,
        Stage::Kugou => 5,
        Stage::LrclibSearch => 4,
        Stage::PlainLrclib => 3,
        Stage::PlainYouTube => 2,
        Stage::PlainSearch => 1,
        Stage::Done => 0,
    }
}

/// A whole run: each event in turn, as the app hands them over, until an outcome.
pub open spec fn run(c: Chain, evs: Seq<Event>) -> Option<(Option<LyricsV>, bool)>
    decreases evs.len(),
{
    if evs.len() == 0 {
        None
    } else {
        match chain_outcome(c, evs[0]) {
            Some(o) => Some(o),
            None => run(chain_next(c, evs[0]), evs.drop_first()),
        }
    }
}

/// A run in which no provider answered (every one errored or did not run, and YouTube Music's
/// `next` did not answer either) shows nothing and caches nothing, so lyrics come back when the
/// network does.
pub proof fn law_offline_caches_nothing(c: Chain, evs: Seq<Event>)
    requires
        !c.definitive,
        !c.next_answered,
        c.exact is None,
        c.searched is None,
        evs.len() > stages_left(c.stage),
        forall|i: int| 0 <= i < evs.len() ==> (#[trigger] evs[i] is Failed || evs[i] is Skipped),
    ensures
        run(c, evs) == Some((None::<LyricsV>, false)),
    decreases evs.len(),
{
    let ev = evs[0];
    if c.stage != Stage::Done {
        assert(chain_outcome(c, ev) is None);
        let n = chain_next(c, ev);
        assert(stages_left(n.stage) + 1 == stages_left(c.stage));
        assert forall|i: int| 0 <= i < evs.drop_first().len() implies (
        #[trigger] evs.drop_first()[i] is Failed || evs.drop_first()[i] is Skipped) by {
            assert(evs.drop_first()[i] == evs[i + 1]);
        }
        law_offline_caches_nothing(n, evs.drop_first());
    }
}

/// An outcome is cached only when the track's length was known: every answer that was found is
/// cached exactly then, and "no lyrics" only when, besides, some provider answered definitively.
pub proof fn law_cache_needs_the_length(c: Chain, ev: Event)
    ensures
        chain_outcome(c, ev) matches Some((_, cache)) ==> (cache ==> c.duration_known),
        chain_outcome(c, ev) matches Some((Some(_), cache)) ==> cache == c.duration_known,
        chain_outcome(c, ev) matches Some((None, cache)) ==> cache == (c.definitive
            && c.duration_known),
{
}

} // verus!
