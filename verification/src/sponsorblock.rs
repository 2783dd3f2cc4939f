//! SponsorBlock's non-music sections of a music video, and when to skip one. Times are in
//! milliseconds.
//!
//! A segment is skipped once per play, and only when playback runs into it. Seeking into one is
//! going there on purpose, so it plays; seeking back over one that was skipped plays it too.
use vstd::prelude::*;

use crate::decimal::digit_char;
use crate::text::{str_eq, string_of};

verus! {

/// Shorter than this is not worth a seek: the jump is more jarring than the second it saves.
pub const MIN_SEGMENT_MS: i64 = 1000;
/// Position moving further than this between two ticks is a seek, not playback.
pub const JUMP_MS: i64 = 2000;
/// A segment made against a cut this much longer or shorter than the one playing is for another
/// upload of the video, and its times would land in the wrong places.
pub const DURATION_SLACK_MS: i64 = 3000;
/// An outro skip stops this far short of the end, so the track ends the ordinary way.
pub const END_GUARD_MS: i64 = 300;
/// Playback this close to a segment's end is past it.
pub const END_MARGIN_MS: i64 = 500;

/// What SHA-256 gives for the UTF-8 bytes of a text.
pub uninterp spec fn sha256_of(s: Seq<char>) -> Seq<u8>;

/// `sha2::Sha256::digest` of the text's UTF-8 bytes: the digest `sha256_of` names, which is 32
/// bytes long. Nothing more is claimed of the hash.
#[verifier::external_body]
fn sha256_digest(s: &str) -> (r: Vec<u8>)
    ensures
        r@ == sha256_of(s@),
        r@.len() == 32,
{
    <sha2::Sha256 as sha2::Digest>::digest(s.as_bytes()).to_vec()
}

/// A lower-case hex digit.
pub open spec fn hex_digit(n: nat) -> char {
    if n < 10 {
        digit_char(n)
    } else if n == 10 {
        'a'
    } else if n == 11 {
        'b'
    } else if n == 12 {
        'c'
    } else if n == 13 {
        'd'
    } else if n == 14 {
        'e'
    } else {
        'f'
    }
}

/// A byte as two lower-case hex digits.
pub open spec fn hex_byte(b: u8) -> Seq<char> {
    seq![hex_digit((b / 16) as nat), hex_digit((b % 16) as nat)]
}

/// The first two bytes of a digest as four lower-case hex digits.
pub open spec fn hex_prefix(d: Seq<u8>) -> Seq<char> {
    hex_byte(d[0]) + hex_byte(d[1])
}

/// The service is asked by hash prefix: the first four hex digits of the video id's SHA-256 name a
/// bucket of videos, ours among them, so the service never learns which one is playing.
pub open spec fn bucket_prefix_of(video_id: Seq<char>) -> Seq<char> {
    hex_prefix(sha256_of(video_id))
}

fn hex(n: u8) -> (c: char)
    requires
        n < 16,
    ensures
        c == hex_digit(n as nat),
{
    if n < 10 {
        if n == 0 { '0' } else if n == 1 { '1' } else if n == 2 { '2' } else if n == 3 { '3' } else if n
            == 4 { '4' } else if n == 5 { '5' } else if n == 6 { '6' } else if n == 7 { '7' } else if n
            == 8 { '8' } else { '9' }
    } else if n == 10 {
        'a'
    } else if n == 11 {
        'b'
    } else if n == 12 {
        'c'
    } else if n == 13 {
        'd'
    } else if n == 14 {
        'e'
    } else {
        'f'
    }
}

/// See [`hex_prefix`].
pub fn digest_prefix(d: &[u8]) -> (r: String)
    requires
        d@.len() >= 2,
    ensures
        r@ == hex_prefix(d@),
{
    let mut v: Vec<char> = Vec::new();
    v.push(hex(d[0] / 16));
    v.push(hex(d[0] % 16));
    v.push(hex(d[1] / 16));
    v.push(hex(d[1] % 16));
    assert(v@ =~= hex_prefix(d@));
    string_of(v.as_slice(), 0, 4)
}

/// See [`bucket_prefix_of`].
pub fn bucket_prefix(video_id: &str) -> (r: String)
    ensures
        r@ == bucket_prefix_of(video_id@),
{
    let d = sha256_digest(video_id);
    digest_prefix(d.as_slice())
}

/// One non-music section.
#[derive(Debug, Clone, Copy, PartialEq, Eq, Structural)]
pub struct Segment {
    pub start_ms: i64,
    pub end_ms: i64,
    /// The length of the upload the segment was drawn on; 0 or less when the submitter's client
    /// did not say.
    pub video_duration_ms: i64,
}

/// The track playing now, as far as skipping goes.
pub struct Current {
    pub video_id: String,
    pub segments: Vec<Segment>,
    /// Per segment: skipped already, or entered by a seek; either way, not to be skipped now.
    pub done: Vec<bool>,
    pub last_pos: Option<i64>,
    /// mpv's length for the track; 0 or less while unknown.
    pub duration_ms: i64,
}

pub open spec fn gap(a: int, b: int) -> int {
    if a >= b {
        a - b
    } else {
        b - a
    }
}

/// Whether a segment belongs to the cut that is playing. Unknown on either side passes.
pub open spec fn fits_cut(s: Segment, duration: int) -> bool {
    s.video_duration_ms <= 0 || duration <= 0 || gap(s.video_duration_ms as int, duration)
        <= DURATION_SLACK_MS
}

/// Whether a segment was drawn on the cut that is playing.
pub fn fits(s: &Segment, duration_ms: i64) -> (r: bool)
    ensures
        r == fits_cut(*s, duration_ms as int),
{
    if s.video_duration_ms <= 0 || duration_ms <= 0 {
        return true;
    }
    let d: i128 = s.video_duration_ms as i128 - duration_ms as i128;
    let g: i128 = if d >= 0 {
        d
    } else {
        -d
    };
    g <= DURATION_SLACK_MS as i128
}

/// Playback at `pos` is inside segment `s`, short of its last half second.
pub open spec fn inside(s: Segment, pos: int) -> bool {
    s.start_ms <= pos && pos < s.end_ms - END_MARGIN_MS
}

/// The first segment from `i` on, not yet decided, that `pos` is inside.
pub open spec fn first_due(segs: Seq<Segment>, done: Seq<bool>, pos: int, i: int) -> Option<int>
    decreases segs.len() - i,
{
    if i < 0 || i >= segs.len() {
        None
    } else if !done[i] && inside(segs[i], pos) {
        Some(i)
    } else {
        first_due(segs, done, pos, i + 1)
    }
}

/// Where a skip of `s` lands: its end, but short of the end of a track of known length.
pub open spec fn landing(s: Segment, duration: int) -> int {
    if duration > 0 {
        if s.end_ms <= duration - END_GUARD_MS {
            s.end_ms as int
        } else {
            duration - END_GUARD_MS
        }
    } else {
        s.end_ms as int
    }
}

/// The decision for one tick at `pos`: the segment to skip and where to seek, if anywhere; which
/// segments are decided after it; and the position the next tick is compared with. Every segment
/// is decided once: skipped when playback runs into it, left alone when a seek lands in it (the
/// position moved more than `JUMP_MS` since the last tick) or it was drawn on another cut.
pub open spec fn step_spec(
    segs: Seq<Segment>,
    done: Seq<bool>,
    last: Option<i64>,
    duration: int,
    pos: i64,
) -> (Option<(Segment, i64)>, Seq<bool>, Option<i64>) {
    let jumped = last matches Some(l) && gap(pos as int, l as int) > JUMP_MS;
    match first_due(segs, done, pos as int, 0) {
        None => (None, done, Some(pos)),
        Some(i) => {
            let d = done.update(i, true);
            let s = segs[i];
            let to = landing(s, duration);
            if jumped || !fits_cut(s, duration) || to <= pos {
                (None, d, Some(pos))
            } else {
                (Some((s, to as i64)), d, Some(to as i64))
            }
        },
    }
}

proof fn lemma_first_due(segs: Seq<Segment>, done: Seq<bool>, pos: int, i: int)
    ensures
        first_due(segs, done, pos, i) matches Some(k) ==> i <= k < segs.len() && 0 <= k && !done[k]
            && inside(segs[k], pos),
    decreases segs.len() - i,
{
    if 0 <= i < segs.len() && !(!done[i] && inside(segs[i], pos)) {
        lemma_first_due(segs, done, pos, i + 1);
    }
}

/// What a tick may do. A decided segment stays decided; a tick that follows a seek skips
/// nothing; and a skip is of a segment not decided before, that playback is inside and that fits
/// the cut, to a point ahead of playback, no later than the segment's end and, on a track of
/// known length, short of its end by `END_GUARD_MS`.
pub proof fn law_a_skip_happens_once_and_forward(
    segs: Seq<Segment>,
    done: Seq<bool>,
    last: Option<i64>,
    duration: int,
    pos: i64,
)
    requires
        done.len() >= segs.len(),
    ensures
        ({
            let (skip, d2, l2) = step_spec(segs, done, last, duration, pos);
            &&& d2.len() == done.len()
            &&& forall|i: int| 0 <= i < done.len() && done[i] ==> #[trigger] d2[i]
            &&& (last matches Some(l) && gap(pos as int, l as int) > JUMP_MS) ==> skip is None
            &&& skip matches Some((s, to)) ==> {
                &&& exists|i: int|
                    0 <= i < segs.len() && !done[i] && #[trigger] d2[i] && segs[i] == s
                &&& inside(s, pos as int)
                &&& fits_cut(s, duration)
                &&& pos < to <= s.end_ms
                &&& duration > 0 ==> to <= duration - END_GUARD_MS
                &&& l2 == Some(to)
            }
        }),
{
    lemma_first_due(segs, done, pos as int, 0);
    if let Some(i) = first_due(segs, done, pos as int, 0) {
        let d2 = done.update(i, true);
        assert(d2[i]);
    }
}

impl Current {
    /// A new track is playing: nothing known about it yet.
    pub fn new(video_id: &str) -> (r: Self)
        ensures
            r.video_id@ == video_id@,
            r.segments@.len() == 0,
            r.done@.len() == 0,
            r.last_pos is None,
            r.duration_ms == 0,
    {
        Current {
            video_id: video_id.to_owned(),
            segments: Vec::new(),
            done: Vec::new(),
            last_pos: None,
            duration_ms: 0,
        }
    }
}

/// The looked-up segments for `video_id`, none of them done yet; nothing when the track changed
/// while the lookup was out.
pub fn install(c: &mut Current, video_id: &str, segments: Vec<Segment>)
    ensures
        final(c).video_id@ == old(c).video_id@,
        final(c).last_pos == old(c).last_pos,
        final(c).duration_ms == old(c).duration_ms,
        old(c).video_id@ == video_id@ ==> final(c).segments@ == segments@ && final(c).done@ == Seq::new(
            segments@.len(),
            |i: int| false,
        ),
        old(c).video_id@ != video_id@ ==> final(c).segments@ == old(c).segments@ && final(c).done@
            == old(c).done@,
{
    if !str_eq(c.video_id.as_str(), video_id) {
        return;
    }
    let n = segments.len();
    let mut done: Vec<bool> = Vec::new();
    let mut i: usize = 0;
    while i < n
        invariant
            i <= n,
            done@ == Seq::new(i as nat, |j: int| false),
        decreases n - i,
    {
        done.push(false);
        i = i + 1;
        assert(done@ =~= Seq::new(i as nat, |j: int| false));
    }
    c.done = done;
    c.segments = segments;
}

/// One position tick: where to seek, if anywhere, as `step_spec` decides.
pub fn step(c: &mut Current, pos: i64) -> (r: Option<(Segment, i64)>)
    requires
        old(c).done@.len() >= old(c).segments@.len(),
    ensures
        ({
            let (skip, done, last) = step_spec(
                old(c).segments@,
                old(c).done@,
                old(c).last_pos,
                old(c).duration_ms as int,
                pos,
            );
            &&& r == skip
            &&& final(c).done@ == done
            &&& final(c).last_pos == last
            &&& final(c).segments@ == old(c).segments@
            &&& final(c).duration_ms == old(c).duration_ms
            &&& final(c).video_id@ == old(c).video_id@
        }),
{
    let jumped = match c.last_pos {
        Some(l) => {
            let d: i128 = pos as i128 - l as i128;
            let g: i128 = if d >= 0 {
                d
            } else {
                -d
            };
            g > JUMP_MS as i128
        },
        None => false,
    };
    c.last_pos = Some(pos);
    let duration = c.duration_ms;
    let n = c.segments.len();
    let mut i: usize = 0;
    proof {
        lemma_first_due(c.segments@, c.done@, pos as int, 0);
    }
    while i < n
        invariant
            n == c.segments@.len(),
            c.done@.len() >= n,
            i <= n,
            first_due(c.segments@, c.done@, pos as int, i as int) == first_due(
                c.segments@,
                c.done@,
                pos as int,
                0,
            ),
            c.last_pos == Some(pos),
            c.segments@ == old(c).segments@,
            c.done@ == old(c).done@,
            c.duration_ms == old(c).duration_ms,
            duration == c.duration_ms,
            c.video_id@ == old(c).video_id@,
            jumped == (old(c).last_pos matches Some(l) && gap(pos as int, l as int) > JUMP_MS),
        decreases n - i,
    {
        let s = c.segments[i];
        let due = !c.done[i] && s.start_ms <= pos && (pos as i128) < s.end_ms as i128
            - END_MARGIN_MS as i128;
        if due {
            let ghost d0 = c.done@;
            c.done.set(i, true);
            assert(c.done@ == d0.update(i as int, true));
            if jumped || !fits(&s, duration) {
                return None;
            }
            let to: i128 = if duration > 0 {
                if s.end_ms as i128 <= duration as i128 - END_GUARD_MS as i128 {
                    s.end_ms as i128
                } else {
                    duration as i128 - END_GUARD_MS as i128
                }
            } else {
                s.end_ms as i128
            };
            if to <= pos as i128 {
                return None;
            }
            let to = to as i64;
            c.last_pos = Some(to);
            return Some((s, to));
        }
        i = i + 1;
    }
    None
}

/// A segment long enough to be worth a seek.
pub open spec fn worth_it(s: Segment) -> bool {
    s.end_ms - s.start_ms >= MIN_SEGMENT_MS
}

/// Our video's segments out of a bucket, in the bucket's order, the ones worth a seek.
pub open spec fn ours(bucket: Seq<(Seq<char>, Seq<Segment>)>, id: Seq<char>) -> Seq<Segment>
    decreases bucket.len(),
{
    if bucket.len() == 0 {
        Seq::empty()
    } else {
        let (vid, segs) = bucket.last();
        ours(bucket.drop_last(), id) + if vid == id {
            segs.filter(|s: Segment| worth_it(s))
        } else {
            Seq::empty()
        }
    }
}

/// Where a stable insertion puts `x` into `s`: before the first segment that starts later.
pub open spec fn start_pos(s: Seq<Segment>, x: Segment) -> int
    decreases s.len(),
{
    if s.len() == 0 {
        0
    } else if s[0].start_ms > x.start_ms {
        0
    } else {
        1 + start_pos(s.drop_first(), x)
    }
}

/// `s` stably sorted by start.
pub open spec fn sort_by_start(s: Seq<Segment>) -> Seq<Segment>
    decreases s.len(),
{
    if s.len() == 0 {
        s
    } else {
        let r = sort_by_start(s.drop_last());
        r.insert(start_pos(r, s.last()), s.last())
    }
}

pub open spec fn bucket_view(b: Seq<(String, Vec<Segment>)>) -> Seq<(Seq<char>, Seq<Segment>)> {
    b.map_values(|e: (String, Vec<Segment>)| (e.0@, e.1@))
}

proof fn lemma_start_pos(s: Seq<Segment>, x: Segment, j: int)
    requires
        0 <= j <= s.len(),
        forall|k: int| 0 <= k < j ==> (#[trigger] s[k]).start_ms <= x.start_ms,
        j == s.len() || s[j].start_ms > x.start_ms,
    ensures
        start_pos(s, x) == j,
    decreases j,
{
    if j > 0 {
        assert forall|k: int| 0 <= k < j - 1 implies (#[trigger] s.drop_first()[k]).start_ms
            <= x.start_ms by {
            assert(s.drop_first()[k] == s[k + 1]);
        }
        if j < s.len() {
            assert(s.drop_first()[j - 1] == s[j]);
        }
        lemma_start_pos(s.drop_first(), x, j - 1);
    }
}

proof fn lemma_start_pos_props(s: Seq<Segment>, x: Segment)
    ensures
        0 <= start_pos(s, x) <= s.len(),
        forall|k: int| 0 <= k < start_pos(s, x) ==> (#[trigger] s[k]).start_ms <= x.start_ms,
        start_pos(s, x) < s.len() ==> s[start_pos(s, x)].start_ms > x.start_ms,
    decreases s.len(),
{
    if s.len() > 0 && s[0].start_ms <= x.start_ms {
        let t = s.drop_first();
        lemma_start_pos_props(t, x);
        assert forall|k: int| 0 <= k < start_pos(s, x) implies (#[trigger] s[k]).start_ms
            <= x.start_ms by {
            if k > 0 {
                assert(s[k] == t[k - 1]);
            }
        }
        if start_pos(s, x) < s.len() {
            assert(s[start_pos(s, x)] == t[start_pos(t, x)]);
        }
    }
}

/// The segments come out in playback order, each one worth a seek, and none lost or made up.
pub proof fn law_segments_in_playback_order(s: Seq<Segment>)
    ensures
        forall|i: int, j: int|
            0 <= i < j < sort_by_start(s).len() ==> (#[trigger] sort_by_start(s)[i]).start_ms
                <= (#[trigger] sort_by_start(s)[j]).start_ms,
        sort_by_start(s).to_multiset() == s.to_multiset(),
    decreases s.len(),
{
    broadcast use vstd::seq_lib::to_multiset_build, vstd::seq_lib::to_multiset_insert;

    if s.len() > 0 {
        let r = sort_by_start(s.drop_last());
        let x = s.last();
        law_segments_in_playback_order(s.drop_last());
        lemma_start_pos_props(r, x);
        let p = start_pos(r, x);
        let t = r.insert(p, x);
        assert forall|i: int, j: int| 0 <= i < j < t.len() implies (#[trigger] t[i]).start_ms <= (
        #[trigger] t[j]).start_ms by {
            if j < p {
                assert(t[i] == r[i] && t[j] == r[j]);
            } else if j == p {
                assert(t[i] == r[i]);
            } else if i < p {
                assert(t[i] == r[i] && t[j] == r[j - 1]);
            } else if i == p {
                assert(t[j] == r[j - 1]);
            } else {
                assert(t[i] == r[i - 1] && t[j] == r[j - 1]);
            }
        }
        assert(s.drop_last().push(x) == s);
    }
}

/// Every segment kept for our video is worth a seek.
pub proof fn law_only_segments_worth_a_seek(bucket: Seq<(Seq<char>, Seq<Segment>)>, id: Seq<char>)
    ensures
        forall|i: int| 0 <= i < ours(bucket, id).len() ==> worth_it(#[trigger] ours(bucket, id)[i]),
    decreases bucket.len(),
{
    if bucket.len() > 0 {
        let p = bucket.drop_last();
        law_only_segments_worth_a_seek(p, id);
        let (vid, segs) = bucket.last();
        let f = segs.filter(|s: Segment| worth_it(s));
        let o = ours(p, id);
        let add = if vid == id {
            f
        } else {
            Seq::empty()
        };
        assert forall|i: int| 0 <= i < (o + add).len() implies worth_it(#[trigger] (o + add)[i]) by {
            if i >= o.len() {
                assert((o + add)[i] == f[i - o.len()]);
                broadcast use vstd::seq_lib::group_filter_ensures;

            } else {
                assert((o + add)[i] == o[i]);
            }
        }
    }
}

/// Our video's usable segments out of a bucket of `(videoID, segments)`, in playback order.
pub fn segments_for(bucket: &[(String, Vec<Segment>)], video_id: &str) -> (r: Vec<Segment>)
    ensures
        r@ == sort_by_start(ours(bucket_view(bucket@), video_id@)),
{
    let ghost bv = bucket_view(bucket@);
    let mut kept: Vec<Segment> = Vec::new();
    let mut k: usize = 0;
    assert(bv.take(0) == Seq::<(Seq<char>, Seq<Segment>)>::empty());
    while k < bucket.len()
        invariant
            k <= bucket@.len(),
            bv == bucket_view(bucket@),
            kept@ == ours(bv.take(k as int), video_id@),
        decreases bucket.len() - k,
    {
        let ghost pre = bv.take(k as int);
        let ghost post = bv.take(k + 1);
        assert(post.drop_last() == pre);
        assert(post.last() == bv[k as int]);
        assert(bv[k as int] == (bucket@[k as int].0@, bucket@[k as int].1@));
        let (id, segs) = &bucket[k];
        if str_eq(id.as_str(), video_id) {
            let ghost before = kept@;
            let mut j: usize = 0;
            assert(segs@.take(0).filter(|s: Segment| worth_it(s)) == Seq::<Segment>::empty());
            while j < segs.len()
                invariant
                    j <= segs@.len(),
                    kept@ == before + segs@.take(j as int).filter(|s: Segment| worth_it(s)),
                decreases segs.len() - j,
            {
                let s = segs[j];
                proof {
                    let t = segs@.take(j + 1);
                    assert(t.drop_last() == segs@.take(j as int));
                    assert(t.last() == s);
                    segs@.take(j as int).lemma_filter_push(s, |s: Segment| worth_it(s));
                    assert(t == segs@.take(j as int).push(s));
                }
                if s.end_ms as i128 - s.start_ms as i128 >= MIN_SEGMENT_MS as i128 {
                    kept.push(s);
                    assert(kept@ == before + segs@.take(j + 1).filter(|s: Segment| worth_it(s)));
                }
                j = j + 1;
            }
            assert(segs@.take(j as int) == segs@);
        } else {
            assert(kept@ + Seq::<Segment>::empty() == kept@);
        }
        k = k + 1;
    }
    assert(bv.take(k as int) == bv);
    let ghost orig = kept@;
    let mut v = kept;
    let mut r: Vec<Segment> = Vec::new();
    let ghost mut i: int = 0;
    assert(orig.take(0) == Seq::<Segment>::empty());
    while v.len() > 0
        invariant
            0 <= i <= orig.len(),
            v@ == orig.skip(i),
            r@ == sort_by_start(orig.take(i)),
        decreases v.len(),
    {
        let x = v.remove(0);
        assert(orig.skip(i)[0] == orig[i]);
        assert(v@ == orig.skip(i + 1));
        let ghost rv = r@;
        let mut j: usize = 0;
        while j < r.len() && r[j].start_ms <= x.start_ms
            invariant
                j <= r@.len(),
                rv == r@,
                forall|k: int| 0 <= k < j ==> (#[trigger] rv[k]).start_ms <= x.start_ms,
            decreases r.len() - j,
        {
            j = j + 1;
        }
        proof {
            lemma_start_pos(rv, x, j as int);
            let t = orig.take(i + 1);
            assert(t.drop_last() == orig.take(i));
            assert(t.last() == x);
        }
        r.insert(j, x);
        proof {
            i = i + 1;
        }
    }
    assert(orig.take(i) == orig);
    r
}

} // verus!
