//! What a provider's answer becomes: the best `Lyrics` an LRCLIB track or a SimpMusic entry
//! yields, which search hit to trust, and which parser a provider's payload goes to.
use vstd::prelude::*;

use crate::community::{clean_lines, decode_entities, decoded, uncredited};
use crate::lrc::{
    elrc_lines, law_elrc_keeps_the_cues, law_sort_by_time, lrc_lines, parse_elrc, parse_lrc,
    sort_by_time, sort_lines, sorted_by_time,
};
use crate::merge::{attach_translations, dist, lrc_mux, mux_line, translated};
use crate::ttml::{law_ttml_lines_sorted, parse_ttml_aaml, ttml_lines};
use crate::lyrics::{
    chars_to_string, from_parsed, lines_view, opt_string_view, parsed_lyrics, plain_from_text,
    plain_lyrics, LineV, LyricLine, Lyrics, LyricsV,
};
use crate::rich::{parse_rich_sync, rich_lines};
use crate::text::{
    chars_of, contains_str, has_non_ws, parse_u64, parse_u64_chars, skip_ws, skip_ws_back,
    split_char, split_spans, str_contains, string_of, trim,
};

verus! {

/// One entry of SimpMusic's lyrics database.
pub struct SimpMusicEntry {
    pub synced_lyrics: Option<String>,
    pub rich_sync_lyrics: Option<String>,
    pub plain_lyric: Option<String>,
    /// The entry's length in milliseconds, when it gives one.
    pub duration_ms: Option<u64>,
    pub vote: i64,
}

/// One LRCLIB track.
pub struct LrclibTrack {
    pub instrumental: bool,
    pub plain_lyrics: Option<String>,
    pub synced_lyrics: Option<String>,
    /// The track's length in milliseconds, when it gives one.
    pub duration_ms: Option<u64>,
}

/// Text that is there and not blank.
pub open spec fn present(s: Option<Seq<char>>) -> Option<Seq<char>> {
    match s {
        Some(t) => if trim(t).len() > 0 {
            Some(t)
        } else {
            None
        },
        None => None,
    }
}

/// `present` on a string field.
fn present_str(s: &Option<String>) -> (r: Option<&str>)
    ensures
        match (r, present(opt_string_view(*s))) {
            (Some(a), Some(b)) => a@ == b,
            (None, None) => true,
            _ => false,
        },
{
    match s {
        Some(t) => {
            let v = chars_of(t.as_str());
            let n = v.len();
            assert(v@.subrange(0, n as int) == v@);
            if has_non_ws(v.as_slice(), 0, n) {
                Some(t.as_str())
            } else {
                None
            }
        },
        None => None,
    }
}

/// The best an LRCLIB track yields: instrumental, else its synced lyrics when they parse to any
/// line, else its plain lyrics, else nothing.
pub open spec fn lrclib_lyrics(
    instrumental: bool,
    plain: Option<Seq<char>>,
    synced: Option<Seq<char>>,
) -> Option<LyricsV> {
    if instrumental {
        Some(LyricsV { source: "LRCLIB"@, synced: false, instrumental: true, lines: Seq::empty() })
    } else {
        let from_synced = match present(synced) {
            Some(l) => if lrc_lines(l).len() > 0 {
                Some(
                    LyricsV { source: "LRCLIB"@, synced: true, instrumental: false, lines: lrc_lines(l) },
                )
            } else {
                None
            },
            None => None,
        };
        if from_synced is Some {
            from_synced
        } else {
            plain_lyrics(plain, "LRCLIB"@)
        }
    }
}

/// Best `Lyrics` an LRCLIB track yields: instrumental over synced over plain over nothing.
pub fn lrclib_to_lyrics(t: &LrclibTrack) -> (r: Option<Lyrics>)
    ensures
        match (r, lrclib_lyrics(
            t.instrumental,
            opt_string_view(t.plain_lyrics),
            opt_string_view(t.synced_lyrics),
        )) {
            (Some(a), Some(b)) => a@ == b,
            (None, None) => true,
            _ => false,
        },
{
    if t.instrumental {
        let r = Lyrics {
            source: chars_to_string("LRCLIB"),
            synced: false,
            instrumental: true,
            lines: Vec::new(),
        };
        assert(lines_view(r.lines@) =~= Seq::<LineV>::empty());
        return Some(r);
    }
    if let Some(lrc) = present_str(&t.synced_lyrics) {
        let lines = parse_lrc(lrc);
        if lines.len() > 0 {
            return Some(
                Lyrics { source: chars_to_string("LRCLIB"), synced: true, instrumental: false, lines },
            );
        }
    }
    let plain = match &t.plain_lyrics {
        Some(p) => Some(p.as_str()),
        None => None,
    };
    plain_from_text(plain, "LRCLIB")
}

/// The best a SimpMusic entry yields: its word-synced lyrics, else its line-synced ones (entities
/// decoded), each without syncer credits and only when a line is left; else its plain lyrics
/// (entities decoded).
pub open spec fn simpmusic_lyrics(
    rich: Option<Seq<char>>,
    synced: Option<Seq<char>>,
    plain: Option<Seq<char>>,
) -> Option<LyricsV> {
    let from_rich = match present(rich) {
        Some(r) => parsed_lyrics("SimpMusic Lyrics"@, uncredited(rich_lines(r))),
        None => None,
    };
    let from_lrc = match present(synced) {
        Some(l) => parsed_lyrics("SimpMusic Lyrics"@, uncredited(lrc_lines(decoded(l)))),
        None => None,
    };
    if from_rich is Some {
        from_rich
    } else if from_lrc is Some {
        from_lrc
    } else {
        plain_lyrics(
            match present(plain) {
                Some(p) => Some(decoded(p)),
                None => None,
            },
            "SimpMusic Lyrics"@,
        )
    }
}

/// Word-synced over line-synced over plain, whichever the entry actually carries.
pub fn simpmusic_to_lyrics(e: &SimpMusicEntry) -> (r: Option<Lyrics>)
    ensures
        match (r, simpmusic_lyrics(
            opt_string_view(e.rich_sync_lyrics),
            opt_string_view(e.synced_lyrics),
            opt_string_view(e.plain_lyric),
        )) {
            (Some(a), Some(b)) => a@ == b,
            (None, None) => true,
            _ => false,
        },
{
    let source = "SimpMusic Lyrics";
    if let Some(rich) = present_str(&e.rich_sync_lyrics) {
        if let Some(l) = from_parsed(source, clean_lines(parse_rich_sync(rich))) {
            return Some(l);
        }
    }
    if let Some(lrc) = present_str(&e.synced_lyrics) {
        let decoded_lrc = decode_entities(lrc);
        let lines = parse_lrc(decoded_lrc.as_str());
        if let Some(l) = from_parsed(source, clean_lines(lines)) {
            return Some(l);
        }
    }
    match present_str(&e.plain_lyric) {
        Some(p) => {
            let d = decode_entities(p);
            plain_from_text(Some(d.as_str()), source)
        },
        None => plain_from_text(None, source),
    }
}

// --- which hit --------------------------------------------------------------------------------
/// How far a hit's length may be from the track's before its lyrics would play out of step.
pub const MATCH_TOLERANCE_MS: u64 = 5000;

/// How far a candidate's length is from ours; none when it has no length (it ranks last).
pub open spec fn cand_dist(ours: u64, c: Option<u64>) -> Option<int> {
    match c {
        Some(x) => Some(dist(ours, x)),
        None => None,
    }
}

/// `a` is nearer than `b`, where no distance is farther than any.
pub open spec fn nearer(a: Option<int>, b: Option<int>) -> bool {
    match (a, b) {
        (Some(x), Some(y)) => x < y,
        (Some(_), None) => true,
        _ => false,
    }
}

/// A candidate close enough to count, or with no length to check.
pub open spec fn within(ours: u64, c: Option<u64>) -> bool {
    match cand_dist(ours, c) {
        Some(d) => d <= MATCH_TOLERANCE_MS,
        None => true,
    }
}

/// Among the candidates that count, the nearest; the first of equally near ones.
pub open spec fn closest(ours: u64, cs: Seq<Option<u64>>) -> Option<int>
    decreases cs.len(),
{
    if cs.len() == 0 {
        None
    } else {
        let b = closest(ours, cs.drop_last());
        let i = cs.len() - 1;
        if within(ours, cs[i]) && match b {
            Some(k) => nearer(cand_dist(ours, cs[i]), cand_dist(ours, cs[k])),
            None => true,
        } {
            Some(i)
        } else {
            b
        }
    }
}

/// The search hit to trust, given each hit's length: with no length of ours (none, or 0), the
/// first; otherwise the nearest in length within `MATCH_TOLERANCE_MS`, a hit with no length
/// ranking last but still used.
pub open spec fn best_duration(ours: Option<u64>, cs: Seq<Option<u64>>) -> Option<int> {
    match ours {
        Some(o) => if o > 0 {
            closest(o, cs)
        } else if cs.len() > 0 {
            Some(0)
        } else {
            None
        },
        None => if cs.len() > 0 {
            Some(0)
        } else {
            None
        },
    }
}

/// The hit `best_by_duration` picks, when our length is known, is within the tolerance (or has no
/// length), no hit that counts is nearer, and every hit before it that counts is farther; when it
/// picks none, no hit counts.
pub proof fn law_closest_is_nearest(ours: u64, cs: Seq<Option<u64>>)
    ensures
        closest(ours, cs) matches Some(k) ==> {
            &&& 0 <= k < cs.len()
            &&& within(ours, cs[k])
            &&& forall|j: int|
                0 <= j < cs.len() && within(ours, #[trigger] cs[j]) ==> !nearer(
                    cand_dist(ours, cs[j]),
                    cand_dist(ours, cs[k]),
                )
            &&& forall|j: int|
                0 <= j < k && within(ours, #[trigger] cs[j]) ==> nearer(
                    cand_dist(ours, cs[k]),
                    cand_dist(ours, cs[j]),
                )
        },
        closest(ours, cs) is None ==> forall|j: int| 0 <= j < cs.len() ==> !within(ours, #[trigger] cs[j]),
    decreases cs.len(),
{
    if cs.len() > 0 {
        let p = cs.drop_last();
        law_closest_is_nearest(ours, p);
        let n = cs.len() - 1;
        assert forall|j: int| 0 <= j < n implies #[trigger] cs[j] == p[j] by {}
        let dc = cand_dist(ours, cs[n]);
        match closest(ours, p) {
            Some(k) => {
                assert(cs[k] == p[k]);
                let dk = cand_dist(ours, cs[k]);
                if within(ours, cs[n]) && nearer(dc, dk) {
                    assert forall|j: int| 0 <= j < cs.len() && within(ours, #[trigger] cs[j]) implies !nearer(
                        cand_dist(ours, cs[j]),
                        dc,
                    ) by {
                        if j < n {
                            assert(cs[j] == p[j]);
                            assert(!nearer(cand_dist(ours, p[j]), dk));
                        }
                    }
                    assert forall|j: int| 0 <= j < n && within(ours, #[trigger] cs[j]) implies nearer(
                        dc,
                        cand_dist(ours, cs[j]),
                    ) by {
                        assert(cs[j] == p[j]);
                        assert(!nearer(cand_dist(ours, p[j]), dk));
                    }
                } else {
                    assert forall|j: int| 0 <= j < cs.len() && within(ours, #[trigger] cs[j]) implies !nearer(
                        cand_dist(ours, cs[j]),
                        dk,
                    ) by {
                        if j < n {
                            assert(cs[j] == p[j]);
                        }
                    }
                    assert forall|j: int| 0 <= j < k && within(ours, #[trigger] cs[j]) implies nearer(
                        dk,
                        cand_dist(ours, cs[j]),
                    ) by {
                        assert(cs[j] == p[j]);
                    }
                }
            },
            None => {
                assert forall|j: int| 0 <= j < n implies !within(ours, #[trigger] cs[j]) by {
                    assert(cs[j] == p[j]);
                }
            },
        }
    }
}

fn abs_gap(a: u64, b: u64) -> (r: u64)
    ensures
        r == dist(a, b),
{
    if a >= b {
        a - b
    } else {
        b - a
    }
}

/// Pick the search hit closest in length to what is playing (`ours`, in milliseconds), rejecting
/// anything further off than `MATCH_TOLERANCE_MS`; `cands` are the hits' lengths, in order.
pub fn best_by_duration(ours: Option<u64>, cands: &[Option<u64>]) -> (r: Option<usize>)
    ensures
        match best_duration(ours, cands@) {
            Some(i) => r is Some && r->0 == i,
            None => r is None,
        },
{
    let o = match ours {
        Some(o) if o > 0 => o,
        _ => {
            return if cands.len() > 0 {
                Some(0)
            } else {
                None
            };
        },
    };
    let mut best: Option<usize> = None;
    let mut best_d: Option<u64> = None;
    let mut i: usize = 0;
    assert(cands@.take(0) == Seq::<Option<u64>>::empty());
    while i < cands.len()
        invariant
            i <= cands@.len(),
            o > 0,
            ours == Some(o),
            match closest(o, cands@.take(i as int)) {
                Some(k) => best is Some && best->0 == k && k < i && best_d == match cands@[k] {
                    Some(x) => Some(dist(o, x) as u64),
                    None => None::<u64>,
                },
                None => best is None,
            },
        decreases cands.len() - i,
    {
        let ghost pre = cands@.take(i as int);
        let ghost post = cands@.take(i + 1);
        assert(post.drop_last() == pre);
        assert(post[i as int] == cands@[i as int]);
        proof {
            lemma_closest_bound(o, pre);
            if let Some(k) = closest(o, pre) {
                assert(post[k] == cands@[k]);
                assert(pre[k] == cands@[k]);
            }
        }
        let d: Option<u64> = match cands[i] {
            Some(x) => Some(abs_gap(o, x)),
            None => None,
        };
        let ok = match d {
            Some(v) => v <= MATCH_TOLERANCE_MS,
            None => true,
        };
        let better = match best {
            None => true,
            Some(_) => match (d, best_d) {
                (Some(x), Some(y)) => x < y,
                (Some(_), None) => true,
                _ => false,
            },
        };
        if ok && better {
            best = Some(i);
            best_d = d;
        }
        i = i + 1;
    }
    assert(cands@.take(i as int) == cands@);
    best
}

/// Which SimpMusic entry to show, given the track's length (`ours`, in milliseconds): among the
/// entries whose length is within `MATCH_TOLERANCE_MS` of ours (either length missing or 0 lets
/// it through), the most up-voted, the last of equal ones.
pub open spec fn simpmusic_best(ours: Option<u64>, es: Seq<SimpMusicEntry>) -> Option<int>
    decreases es.len(),
{
    if es.len() == 0 {
        None
    } else {
        let b = simpmusic_best(ours, es.drop_last());
        let i = es.len() - 1;
        let ok = match (ours, es[i].duration_ms) {
            (Some(a), Some(d)) => a == 0 || d == 0 || dist(a, d) <= MATCH_TOLERANCE_MS,
            _ => true,
        };
        if ok && match b {
            Some(k) => es[i].vote >= es[k].vote,
            None => true,
        } {
            Some(i)
        } else {
            b
        }
    }
}

/// The SimpMusic entry to trust for a track `ours` milliseconds long, as `simpmusic_best` says.
pub fn simpmusic_pick(ours: Option<u64>, entries: &[SimpMusicEntry]) -> (r: Option<usize>)
    ensures
        match simpmusic_best(ours, entries@) {
            Some(i) => r is Some && r->0 == i,
            None => r is None,
        },
{
    let mut best: Option<usize> = None;
    let mut best_vote: i64 = 0;
    let mut i: usize = 0;
    assert(entries@.take(0) == Seq::<SimpMusicEntry>::empty());
    while i < entries.len()
        invariant
            i <= entries@.len(),
            match simpmusic_best(ours, entries@.take(i as int)) {
                Some(k) => best is Some && best->0 == k && k < i && best_vote == entries@[k].vote,
                None => best is None,
            },
        decreases entries.len() - i,
    {
        let ghost pre = entries@.take(i as int);
        let ghost post = entries@.take(i + 1);
        assert(post.drop_last() == pre);
        assert(post[i as int] == entries@[i as int]);
        proof {
            lemma_simpmusic_bound(ours, pre);
            if let Some(k) = simpmusic_best(ours, pre) {
                assert(post[k] == entries@[k]);
                assert(pre[k] == entries@[k]);
            }
        }
        let e = &entries[i];
        let ok = match (ours, e.duration_ms) {
            (Some(a), Some(d)) => a == 0 || d == 0 || abs_gap(a, d) <= MATCH_TOLERANCE_MS,
            _ => true,
        };
        let better = match best {
            None => true,
            Some(_) => e.vote >= best_vote,
        };
        if ok && better {
            best = Some(i);
            best_vote = e.vote;
        }
        i = i + 1;
    }
    assert(entries@.take(i as int) == entries@);
    best
}

/// A track whose synced lyrics are there and not blank.
pub open spec fn has_synced(t: LrclibTrack) -> bool {
    present(opt_string_view(t.synced_lyrics)) is Some
}

/// The LRCLIB search hit to use, given the track's length (`ours`, in milliseconds; 0 is none):
/// among the hits within `MATCH_TOLERANCE_MS` (all of them, with no length of ours; a hit with no
/// length of its own is then too far), the synced one nearest in length, the first of equally
/// near ones; failing any, the first unsynced one.
pub open spec fn lrclib_best(ours: Option<u64>, ts: Seq<LrclibTrack>) -> Option<int> {
    let o = match ours {
        Some(x) => if x > 0 {
            Some(x)
        } else {
            None
        },
        None => None,
    };
    match lrclib_best_synced(o, ts) {
        Some(i) => Some(i),
        None => lrclib_first_plain(o, ts),
    }
}

/// Close enough to count for the LRCLIB search.
pub open spec fn lrclib_close(o: Option<u64>, t: LrclibTrack) -> bool {
    match o {
        None => true,
        Some(a) => match t.duration_ms {
            Some(d) => dist(a, d) <= MATCH_TOLERANCE_MS,
            None => false,
        },
    }
}

pub open spec fn lrclib_best_synced(o: Option<u64>, ts: Seq<LrclibTrack>) -> Option<int>
    decreases ts.len(),
{
    if ts.len() == 0 {
        None
    } else {
        let b = lrclib_best_synced(o, ts.drop_last());
        let i = ts.len() - 1;
        if lrclib_close(o, ts[i]) && has_synced(ts[i]) && match (b, o) {
            (Some(k), Some(a)) => dist(a, ts[i].duration_ms->0) < dist(a, ts[k].duration_ms->0),
            (Some(_), None) => false,
            (None, _) => true,
        } {
            Some(i)
        } else {
            b
        }
    }
}

pub open spec fn lrclib_first_plain(o: Option<u64>, ts: Seq<LrclibTrack>) -> Option<int>
    decreases ts.len(),
{
    if ts.len() == 0 {
        None
    } else {
        let b = lrclib_first_plain(o, ts.drop_last());
        let i = ts.len() - 1;
        if b is None && lrclib_close(o, ts[i]) && !has_synced(ts[i]) {
            Some(i)
        } else {
            b
        }
    }
}

proof fn lemma_closest_bound(o: u64, cs: Seq<Option<u64>>)
    ensures
        closest(o, cs) matches Some(k) ==> 0 <= k < cs.len() && within(o, cs[k]),
    decreases cs.len(),
{
    if cs.len() > 0 {
        lemma_closest_bound(o, cs.drop_last());
        if let Some(k) = closest(o, cs.drop_last()) {
            assert(cs.drop_last()[k] == cs[k]);
        }
    }
}

proof fn lemma_simpmusic_bound(ours: Option<u64>, es: Seq<SimpMusicEntry>)
    ensures
        simpmusic_best(ours, es) matches Some(k) ==> 0 <= k < es.len(),
    decreases es.len(),
{
    if es.len() > 0 {
        lemma_simpmusic_bound(ours, es.drop_last());
    }
}

proof fn lemma_lrclib_bound(o: Option<u64>, ts: Seq<LrclibTrack>)
    ensures
        lrclib_best_synced(o, ts) matches Some(k) ==> 0 <= k < ts.len() && lrclib_close(o, ts[k]),
        lrclib_first_plain(o, ts) matches Some(k) ==> 0 <= k < ts.len(),
    decreases ts.len(),
{
    if ts.len() > 0 {
        lemma_lrclib_bound(o, ts.drop_last());
        if let Some(k) = lrclib_best_synced(o, ts.drop_last()) {
            assert(ts.drop_last()[k] == ts[k]);
        }
    }
}

/// The LRCLIB search hit to use for a track `ours` milliseconds long, as `lrclib_best` says.
pub fn lrclib_pick(ours: Option<u64>, tracks: &[LrclibTrack]) -> (r: Option<usize>)
    ensures
        match lrclib_best(ours, tracks@) {
            Some(i) => r is Some && r->0 == i,
            None => r is None,
        },
{
    let o: Option<u64> = match ours {
        Some(x) if x > 0 => Some(x),
        _ => None,
    };
    let mut best_synced: Option<usize> = None;
    let mut best_d: u64 = 0;
    let mut best_plain: Option<usize> = None;
    let mut i: usize = 0;
    assert(tracks@.take(0) == Seq::<LrclibTrack>::empty());
    while i < tracks.len()
        invariant
            i <= tracks@.len(),
            o == match ours {
                Some(x) => if x > 0 {
                    Some(x)
                } else {
                    None
                },
                None => None::<u64>,
            },
            match lrclib_best_synced(o, tracks@.take(i as int)) {
                Some(k) => best_synced is Some && best_synced->0 == k && k < i && (o is Some ==> (
                tracks@[k].duration_ms is Some && best_d == dist(o->0, tracks@[k].duration_ms->0))),
                None => best_synced is None,
            },
            match lrclib_first_plain(o, tracks@.take(i as int)) {
                Some(k) => best_plain is Some && best_plain->0 == k && k < i,
                None => best_plain is None,
            },
        decreases tracks.len() - i,
    {
        let ghost pre = tracks@.take(i as int);
        let ghost post = tracks@.take(i + 1);
        assert(post.drop_last() == pre);
        assert(post[i as int] == tracks@[i as int]);
        proof {
            lemma_lrclib_bound(o, pre);
            if let Some(k) = lrclib_best_synced(o, pre) {
                assert(post[k] == tracks@[k]);
                assert(pre[k] == tracks@[k]);
            }
        }
        let t = &tracks[i];
        let (close, d): (bool, u64) = match o {
            None => (true, 0),
            Some(a) => match t.duration_ms {
                Some(x) => {
                    let g = abs_gap(a, x);
                    (g <= MATCH_TOLERANCE_MS, g)
                },
                None => (false, 0),
            },
        };
        if close {
            let synced = present_str(&t.synced_lyrics).is_some();
            if synced {
                let better = match best_synced {
                    None => true,
                    Some(_) => o.is_some() && d < best_d,
                };
                if better {
                    best_synced = Some(i);
                    best_d = d;
                }
            } else if best_plain.is_none() {
                best_plain = Some(i);
            }
        }
        i = i + 1;
    }
    assert(tracks@.take(i as int) == tracks@);
    match best_synced {
        Some(k) => Some(k),
        None => best_plain,
    }
}

/// `"3:21"` / `"1:02:03"`: the fields, each a whole number, read as base 60.
pub open spec fn clock_total(parts: Seq<Seq<char>>) -> Option<int>
    decreases parts.len(),
{
    if parts.len() == 0 {
        Some(0)
    } else {
        match (clock_total(parts.drop_last()), parse_u64(trim(parts.last()))) {
            (Some(t), Some(p)) => Some(t * 60 + p),
            _ => None,
        }
    }
}

/// A `"3:21"` / `"1:02:03"` length in seconds; none unless it reads, is more than 0 and fits.
pub open spec fn clock_secs(s: Seq<char>) -> Option<u64> {
    match clock_total(split_char(s, ':')) {
        Some(t) => if 0 < t <= u64::MAX {
            Some(t as u64)
        } else {
            None
        },
        None => None,
    }
}

proof fn lemma_clock_total_nonneg(parts: Seq<Seq<char>>)
    ensures
        clock_total(parts) matches Some(t) ==> t >= 0,
    decreases parts.len(),
{
    if parts.len() > 0 {
        lemma_clock_total_nonneg(parts.drop_last());
    }
}

/// `"3:21"` / `"1:02:03"` as whole seconds.
pub fn duration_str_secs(s: &str) -> (r: Option<u64>)
    ensures
        r == clock_secs(s@),
{
    let v = chars_of(s);
    let n = v.len();
    assert(v@.subrange(0, n as int) == v@);
    let parts = split_spans(v.as_slice(), 0, n, ':');
    let ghost ps = split_char(s@, ':');
    let mut total: u64 = 0;
    let mut k: usize = 0;
    assert(ps.take(0) == Seq::<Seq<char>>::empty());
    while k < parts.len()
        invariant
            k <= parts@.len(),
            v@ == s@,
            n == v@.len(),
            ps == split_char(s@, ':'),
            parts@.len() == ps.len(),
            forall|i: int|
                0 <= i < parts@.len() ==> {
                    let (a, b) = #[trigger] parts@[i];
                    a <= b <= n && v@.subrange(a as int, b as int) == ps[i]
                },
            clock_total(ps.take(k as int)) == Some(total as int),
        decreases parts.len() - k,
    {
        let (a, b) = parts[k];
        let lo = skip_ws(v.as_slice(), a, b);
        let hi = skip_ws_back(v.as_slice(), lo, b);
        let ghost pre = ps.take(k as int);
        let ghost post = ps.take(k + 1);
        assert(post.drop_last() == pre);
        assert(post.last() == ps[k as int]);
        assert(v@.subrange(lo as int, hi as int) == trim(ps[k as int]));
        let p = match parse_u64_chars(v.as_slice(), lo, hi) {
            Some(p) => p,
            None => {
                proof {
                    lemma_clock_prefix_none(ps, k as int + 1);
                }
                return None;
            },
        };
        let t = match total.checked_mul(60) {
            Some(t) => t,
            None => {
                proof {
                    lemma_clock_grows(ps, k as int + 1);
                }
                return None;
            },
        };
        let t = match t.checked_add(p) {
            Some(t) => t,
            None => {
                proof {
                    lemma_clock_grows(ps, k as int + 1);
                }
                return None;
            },
        };
        total = t;
        k = k + 1;
    }
    assert(ps.take(k as int) == ps);
    if total > 0 {
        Some(total)
    } else {
        None
    }
}

/// A field that does not read makes the whole length unreadable.
proof fn lemma_clock_prefix_none(ps: Seq<Seq<char>>, k: int)
    requires
        0 <= k <= ps.len(),
        clock_total(ps.take(k)) is None,
    ensures
        clock_total(ps) is None,
    decreases ps.len() - k,
{
    if k < ps.len() {
        let t = ps.take(k + 1);
        assert(t.drop_last() == ps.take(k));
        lemma_clock_prefix_none(ps, k + 1);
    } else {
        assert(ps.take(k) == ps);
    }
}

/// A prefix that is already too large makes the whole length too large, or unreadable.
proof fn lemma_clock_grows(ps: Seq<Seq<char>>, k: int)
    requires
        0 <= k <= ps.len(),
        clock_total(ps.take(k)) matches Some(t) ==> t > u64::MAX,
    ensures
        clock_total(ps) matches Some(t) ==> t > u64::MAX,
    decreases ps.len() - k,
{
    if k < ps.len() {
        let t = ps.take(k + 1);
        assert(t.drop_last() == ps.take(k));
        lemma_clock_total_nonneg(ps.take(k));
        lemma_clock_grows(ps, k + 1);
    } else {
        assert(ps.take(k) == ps);
    }
}

// --- which parser ------------------------------------------------------------------------------
/// A payload that reads as a JSON lyrics list: an array or object naming one of the fields a
/// line carries.
pub open spec fn looks_like_json(t: Seq<char>) -> bool {
    &&& t.len() > 0
    &&& (t[0] == '[' || t[0] == '{')
    &&& (contains_str(t, "\"text\""@) || contains_str(t, "\"time\""@) || contains_str(
        t,
        "\"words\""@,
    ) || contains_str(t, "\"start\""@) || contains_str(t, "\"startTime\""@))
}

/// A payload that reads as TTML or AAML XML.
pub open spec fn looks_like_markup(t: Seq<char>) -> bool {
    (t.len() > 0 && t[0] == '<') || contains_str(t, "<p "@) || contains_str(t, "<tt"@)
}

/// What a provider's payload parses to: the JSON reading's lines (sorted by cue) when the trimmed
/// text looks like JSON and that reading found lines; else its TTML lines when it looks like
/// markup and has any; else the text read as (enhanced) LRC.
pub open spec fn lrc_or_ttml(text: Seq<char>, json: Option<Seq<LineV>>) -> Seq<LineV> {
    let t = trim(text);
    if looks_like_json(t) && (json matches Some(ls) && ls.len() > 0) {
        sort_by_time(json->0)
    } else if looks_like_markup(t) && ttml_lines(t).len() > 0 {
        ttml_lines(t)
    } else {
        elrc_lines(text)
    }
}

/// Whichever format a payload came in, its lines come out in cue order.
pub proof fn law_payload_lines_sorted(text: Seq<char>, json: Option<Seq<LineV>>)
    ensures
        sorted_by_time(lrc_or_ttml(text, json)),
{
    if let Some(ls) = json {
        law_sort_by_time(ls);
    }
    law_ttml_lines_sorted(trim(text));
    law_elrc_keeps_the_cues(text);
}

/// Whether a payload looks like JSON, so that reading it as such is worth a try.
pub fn looks_like_json_text(text: &str) -> (r: bool)
    ensures
        r == looks_like_json(trim(text@)),
{
    let v = chars_of(text);
    let n = v.len();
    let a = skip_ws(v.as_slice(), 0, n);
    let b = skip_ws_back(v.as_slice(), a, n);
    assert(v@.subrange(0, n as int) == v@);
    let t = string_of(v.as_slice(), a, b);
    if b == a || !(v[a] == '[' || v[a] == '{') {
        return false;
    }
    let ts = t.as_str();
    str_contains(ts, "\"text\"") || str_contains(ts, "\"time\"") || str_contains(ts, "\"words\"")
        || str_contains(ts, "\"start\"") || str_contains(ts, "\"startTime\"")
}

/// A provider's payload, whichever format it came in: `json` is what reading it as a JSON lyrics
/// list found (none when it did not read as one).
pub fn parse_lrc_or_ttml(text: &str, json: Option<Vec<LyricLine>>) -> (r: Vec<LyricLine>)
    ensures
        lines_view(r@) == lrc_or_ttml(
            text@,
            match json {
                Some(ls) => Some(lines_view(ls@)),
                None => None,
            },
        ),
{
    if looks_like_json_text(text) {
        if let Some(ls) = json {
            if ls.len() > 0 {
                return sort_lines(ls);
            }
        }
    }
    let v = chars_of(text);
    let n = v.len();
    let a = skip_ws(v.as_slice(), 0, n);
    let b = skip_ws_back(v.as_slice(), a, n);
    assert(v@.subrange(0, n as int) == v@);
    let t = string_of(v.as_slice(), a, b);
    let ts = t.as_str();
    if (b > a && v[a] == '<') || str_contains(ts, "<p ") || str_contains(ts, "<tt") {
        let lines = parse_ttml_aaml(ts);
        if lines.len() > 0 {
            return lines;
        }
    }
    parse_elrc(text)
}

// --- Netease ------------------------------------------------------------------------------------
/// Netease's lyric: its lines, with the words, translations and ends of its word-timed version
/// muxed in when there is one, then its translation (LRC) attached when there is one.
pub open spec fn netease_view(
    lines: Seq<LineV>,
    words: Option<Seq<LineV>>,
    translation: Option<Seq<char>>,
) -> Option<LyricsV> {
    let muxed = match words {
        Some(w) => Seq::new(lines.len(), |i: int| mux_line(lines[i], w)),
        None => lines,
    };
    let with_t = match translation {
        Some(t) => translated(muxed, lrc_lines(t)).1,
        None => muxed,
    };
    parsed_lyrics("Netease Cloud Music"@, with_t)
}

/// What Netease's answer yields: `lines` from its lyric, `word_lines` from its word-timed lyric and
/// `translation` its translation's LRC, each when it sent one.
pub fn netease_lyrics(
    lines: Vec<LyricLine>,
    word_lines: Option<Vec<LyricLine>>,
    translation: Option<&str>,
) -> (r: Option<Lyrics>)
    ensures
        match (r, netease_view(
            lines_view(lines@),
            match word_lines {
                Some(w) => Some(lines_view(w@)),
                None => None,
            },
            match translation {
                Some(t) => Some(t@),
                None => None,
            },
        )) {
            (Some(a), Some(b)) => a@ == b,
            (None, None) => true,
            _ => false,
        },
{
    let mut lines = match word_lines {
        Some(w) => {
            let m = lrc_mux(lines, w);
            m
        },
        None => lines,
    };
    if let Some(t) = translation {
        let ts = parse_lrc(t);
        attach_translations(&mut lines, ts.as_slice());
    }
    from_parsed("Netease Cloud Music", lines)
}


} // verus!
