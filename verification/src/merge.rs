//! Combining two parses of one song: translations onto the lines they translate, and a word-timed
//! source's words onto a line-timed one.
use vstd::prelude::*;

use crate::lyrics::{copy_opt_string, copy_opt_words, lines_view, LineV, LyricLine};
use crate::text::{chars_of, has_non_ws, skip_ws, skip_ws_back, string_of, trim};

verus! {

/// How far a translation line's cue may sit from the original line it belongs to.
pub const TRANSLATION_SLACK_MS: u64 = 1000;

pub open spec fn dist(a: u64, b: u64) -> int {
    if a >= b {
        a - b
    } else {
        b - a
    }
}

/// The translation lines that can be placed: cued, with text, as `(cue, trimmed text)`.
pub open spec fn wanted_of(ts: Seq<LineV>) -> Seq<(u64, Seq<char>)>
    decreases ts.len(),
{
    if ts.len() == 0 {
        Seq::empty()
    } else {
        let w = wanted_of(ts.drop_last());
        let t = ts.last();
        match t.time_ms {
            Some(tm) => if trim(t.text).len() > 0 {
                w.push((tm, trim(t.text)))
            } else {
                w
            },
            None => w,
        }
    }
}

/// Line `i` can take a translation cued at `t`: not taken yet, has text, and has a cue within the
/// slack of `t`.
pub open spec fn eligible(lines: Seq<LineV>, taken: Seq<bool>, i: int, t: u64) -> bool {
    &&& 0 <= i < lines.len()
    &&& i < taken.len()
    &&& !taken[i]
    &&& trim(lines[i].text).len() > 0
    &&& lines[i].time_ms is Some
    &&& dist(lines[i].time_ms->0, t) <= TRANSLATION_SLACK_MS
}

/// Line `i` is the nearest eligible line to `t`, the first of them on a tie.
pub open spec fn is_best(lines: Seq<LineV>, taken: Seq<bool>, t: u64, i: int) -> bool {
    &&& eligible(lines, taken, i, t)
    &&& forall|j: int|
        eligible(lines, taken, j, t) ==> dist(lines[i].time_ms->0, t) <= dist(
            lines[j].time_ms->0,
            t,
        )
    &&& forall|j: int|
        0 <= j < i && eligible(lines, taken, j, t) ==> dist(lines[j].time_ms->0, t) > dist(
            lines[i].time_ms->0,
            t,
        )
}

/// The line a translation cued at `t` goes under, if any.
pub open spec fn best_match(lines: Seq<LineV>, taken: Seq<bool>, t: u64) -> Option<int> {
    if exists|i: int| is_best(lines, taken, t, i) {
        Some(choose|i: int| is_best(lines, taken, t, i))
    } else {
        None
    }
}

/// Each wanted translation in turn takes its nearest free line: which lines are taken, and the
/// `(line, text)` pairs made.
pub open spec fn assign(lines: Seq<LineV>, wanted: Seq<(u64, Seq<char>)>) -> (
    Seq<bool>,
    Seq<(int, Seq<char>)>,
)
    decreases wanted.len(),
{
    if wanted.len() == 0 {
        (Seq::new(lines.len(), |i: int| false), Seq::empty())
    } else {
        let (taken, pairs) = assign(lines, wanted.drop_last());
        let (t, text) = wanted.last();
        match best_match(lines, taken, t) {
            Some(i) => (taken.update(i, true), pairs.push((i, text))),
            None => (taken, pairs),
        }
    }
}

/// The lines with each pair's text set as that line's translation.
pub open spec fn apply_pairs(lines: Seq<LineV>, pairs: Seq<(int, Seq<char>)>) -> Seq<LineV>
    decreases pairs.len(),
{
    if pairs.len() == 0 {
        lines
    } else {
        let l = apply_pairs(lines, pairs.drop_last());
        let (i, text) = pairs.last();
        l.update(i, LineV { translation: Some(text), ..l[i] })
    }
}

/// Whether the translations are accepted, and the lines after. Refused when there is nothing to
/// place, or when more than a quarter of the translation lines find no partner: then nothing
/// changes.
pub open spec fn translated(lines: Seq<LineV>, ts: Seq<LineV>) -> (bool, Seq<LineV>) {
    let w = wanted_of(ts);
    if w.len() == 0 {
        (false, lines)
    } else {
        let pairs = assign(lines, w).1;
        if (w.len() - pairs.len()) * 4 > w.len() {
            (false, lines)
        } else {
            (true, apply_pairs(lines, pairs))
        }
    }
}

proof fn lemma_best_unique(lines: Seq<LineV>, taken: Seq<bool>, t: u64, a: int, b: int)
    requires
        is_best(lines, taken, t, a),
        is_best(lines, taken, t, b),
    ensures
        a == b,
{
    if a < b {
        assert(dist(lines[a].time_ms->0, t) > dist(lines[b].time_ms->0, t));
    } else if b < a {
        assert(dist(lines[b].time_ms->0, t) > dist(lines[a].time_ms->0, t));
    }
}

/// Every pair names a line of `n` that `taken` marks.
pub open spec fn pairs_taken(pairs: Seq<(int, Seq<char>)>, taken: Seq<bool>, n: int) -> bool {
    forall|k: int|
        0 <= k < pairs.len() ==> 0 <= (#[trigger] pairs[k]).0 < n && taken[pairs[k].0]
}

/// No two pairs name the same line.
pub open spec fn pairs_distinct(pairs: Seq<(int, Seq<char>)>) -> bool {
    forall|k1: int, k2: int|
        0 <= k1 < k2 < pairs.len() ==> (#[trigger] pairs[k1]).0 != (#[trigger] pairs[k2]).0
}

/// `b` is `a` but for, at most, its translation.
pub open spec fn same_but_translation(a: LineV, b: LineV) -> bool {
    &&& a.time_ms == b.time_ms
    &&& a.end_time_ms == b.end_time_ms
    &&& a.text == b.text
    &&& a.words == b.words
}

proof fn lemma_assign(lines: Seq<LineV>, wanted: Seq<(u64, Seq<char>)>)
    ensures
        assign(lines, wanted).0.len() == lines.len(),
        pairs_taken(assign(lines, wanted).1, assign(lines, wanted).0, lines.len() as int),
        pairs_distinct(assign(lines, wanted).1),
    decreases wanted.len(),
{
    if wanted.len() > 0 {
        lemma_assign(lines, wanted.drop_last());
        let (taken, pairs) = assign(lines, wanted.drop_last());
        let (t, text) = wanted.last();
        if let Some(i) = best_match(lines, taken, t) {
            let w = choose|i: int| is_best(lines, taken, t, i);
            assert(is_best(lines, taken, t, w));
            let np = pairs.push((i, text));
            let nt = taken.update(i, true);
            assert forall|k: int| 0 <= k < np.len() implies 0 <= (#[trigger] np[k]).0 < lines.len()
                && nt[np[k].0] by {
                if k < pairs.len() {
                    assert(np[k] == pairs[k]);
                }
            }
            assert forall|k1: int, k2: int| 0 <= k1 < k2 < np.len() implies (#[trigger] np[k1]).0
                != (#[trigger] np[k2]).0 by {
                assert(np[k1] == pairs[k1]);
                if k2 < pairs.len() {
                    assert(np[k2] == pairs[k2]);
                } else {
                    assert(taken[pairs[k1].0]);
                }
            }
        }
    }
}

proof fn lemma_apply_pairs(lines: Seq<LineV>, pairs: Seq<(int, Seq<char>)>)
    requires
        forall|k: int| 0 <= k < pairs.len() ==> 0 <= (#[trigger] pairs[k]).0 < lines.len(),
    ensures
        apply_pairs(lines, pairs).len() == lines.len(),
        forall|i: int|
            0 <= i < lines.len() ==> same_but_translation(
                lines[i],
                #[trigger] apply_pairs(lines, pairs)[i],
            ),
    decreases pairs.len(),
{
    if pairs.len() > 0 {
        let q = pairs.drop_last();
        assert forall|k: int| 0 <= k < q.len() implies 0 <= (#[trigger] q[k]).0 < lines.len() by {
            assert(q[k] == pairs[k]);
        }
        lemma_apply_pairs(lines, q);
        assert(pairs.last() == pairs[pairs.len() - 1]);
    }
}

/// A set of translations touches nothing but the lines' translations: every line keeps its cue,
/// end, text and words, and a refused set changes nothing at all.
pub proof fn law_translations_touch_only_translations(lines: Seq<LineV>, ts: Seq<LineV>)
    ensures
        translated(lines, ts).1.len() == lines.len(),
        forall|i: int|
            0 <= i < lines.len() ==> same_but_translation(
                lines[i],
                #[trigger] translated(lines, ts).1[i],
            ),
        !translated(lines, ts).0 ==> translated(lines, ts).1 == lines,
{
    let w = wanted_of(ts);
    lemma_assign(lines, w);
    let pairs = assign(lines, w).1;
    if w.len() > 0 && !((w.len() - pairs.len()) * 4 > w.len()) {
        lemma_apply_pairs(lines, pairs);
    }
}

/// No line takes two translations: each placed translation goes under a different line.
pub proof fn law_one_translation_per_line(lines: Seq<LineV>, ts: Seq<LineV>)
    ensures
        pairs_distinct(assign(lines, wanted_of(ts)).1),
{
    lemma_assign(lines, wanted_of(ts));
}

fn abs_diff(a: u64, b: u64) -> (r: u64)
    ensures
        r == dist(a, b),
{
    if a >= b {
        a - b
    } else {
        b - a
    }
}

/// Whether a line has any text once trimmed.
fn has_text(l: &LyricLine) -> (r: bool)
    ensures
        r == (trim(l@.text).len() > 0),
{
    let v = chars_of(l.text.as_str());
    let n = v.len();
    assert(v@.subrange(0, n as int) == v@);
    has_non_ws(v.as_slice(), 0, n)
}

/// The trimmed text of a string.
fn trimmed(s: &String) -> (r: String)
    ensures
        r@ == trim(s@),
{
    let v = chars_of(s.as_str());
    let n = v.len();
    let a = skip_ws(v.as_slice(), 0, n);
    let b = skip_ws_back(v.as_slice(), a, n);
    assert(v@.subrange(0, n as int) == v@);
    string_of(v.as_slice(), a, b)
}

pub open spec fn wanted_view(w: Seq<(u64, String)>) -> Seq<(u64, Seq<char>)> {
    w.map_values(|p: (u64, String)| (p.0, p.1@))
}

pub open spec fn pairs_view(p: Seq<(usize, String)>) -> Seq<(int, Seq<char>)> {
    p.map_values(|q: (usize, String)| (q.0 as int, q.1@))
}

/// The nearest free line with text within the slack of `t`, first on a tie.
fn find_best(lines: &Vec<LyricLine>, taken: &Vec<bool>, t: u64) -> (r: Option<usize>)
    requires
        taken@.len() == lines@.len(),
    ensures
        match best_match(lines_view(lines@), taken@, t) {
            Some(i) => r == Some(i as usize),
            None => r is None,
        },
{
    let ghost lv = lines_view(lines@);
    let mut best: Option<(usize, u64)> = None;
    let mut i: usize = 0;
    while i < lines.len()
        invariant
            i <= lines@.len(),
            taken@.len() == lines@.len(),
            lv == lines_view(lines@),
            match best {
                None => forall|j: int| 0 <= j < i ==> !eligible(lv, taken@, j, t),
                Some((b, bd)) => {
                    &&& b < i
                    &&& eligible(lv, taken@, b as int, t)
                    &&& bd == dist(lv[b as int].time_ms->0, t)
                    &&& forall|j: int|
                        0 <= j < i && eligible(lv, taken@, j, t) ==> bd <= dist(
                            lv[j].time_ms->0,
                            t,
                        )
                    &&& forall|j: int|
                        0 <= j < b && eligible(lv, taken@, j, t) ==> dist(lv[j].time_ms->0, t)
                            > bd
                },
            },
        decreases lines.len() - i,
    {
        assert(lv[i as int] == lines@[i as int]@);
        let l = &lines[i];
        let ok = !taken[i] && has_text(l) && match l.time_ms {
            Some(tm) => abs_diff(tm, t) <= TRANSLATION_SLACK_MS,
            None => false,
        };
        assert(ok == eligible(lv, taken@, i as int, t));
        if ok {
            let d = match l.time_ms {
                Some(tm) => abs_diff(tm, t),
                None => 0,
            };
            match best {
                None => {
                    best = Some((i, d));
                },
                Some((b, bd)) => {
                    if d < bd {
                        best = Some((i, d));
                    }
                },
            }
        }
        i = i + 1;
    }
    match best {
        None => {
            proof {
                if exists|k: int| is_best(lv, taken@, t, k) {
                    let k = choose|k: int| is_best(lv, taken@, t, k);
                    assert(eligible(lv, taken@, k, t));
                }
            }
            None
        },
        Some((b, bd)) => {
            proof {
                assert(is_best(lv, taken@, t, b as int));
                let k = choose|k: int| is_best(lv, taken@, t, k);
                lemma_best_unique(lv, taken@, t, k, b as int);
            }
            Some(b)
        },
    }
}

/// Put each translation line under the lyric line it translates, or none at all.
///
/// Matched to the nearest unused lyric line within a second, not on an identical cue. The whole
/// set is refused when more than a quarter of its lines find no partner: a translation under the
/// wrong line reads as broken, and none reads as a song that simply has no translation.
pub fn attach_translations(lines: &mut Vec<LyricLine>, translations: &[LyricLine]) -> (r: bool)
    ensures
        r == translated(lines_view(old(lines)@), lines_view(translations@)).0,
        lines_view(final(lines)@) == translated(lines_view(old(lines)@), lines_view(translations@)).1,
{
    let ghost orig = lines_view(lines@);
    let ghost tv = lines_view(translations@);
    // The placeable translation lines.
    let mut wanted: Vec<(u64, String)> = Vec::new();
    let mut k: usize = 0;
    assert(tv.take(0) == Seq::<LineV>::empty());
    while k < translations.len()
        invariant
            k <= translations@.len(),
            tv == lines_view(translations@),
            wanted_view(wanted@) == wanted_of(tv.take(k as int)),
        decreases translations.len() - k,
    {
        let t = &translations[k];
        assert(tv[k as int] == t@);
        proof {
            let p = tv.take(k + 1);
            assert(p.drop_last() == tv.take(k as int));
            assert(p.last() == t@);
        }
        match t.time_ms {
            Some(tm) => {
                let text = trimmed(&t.text);
                if text.unicode_len() > 0 {
                    let ghost before = wanted@;
                    wanted.push((tm, text));
                    assert(wanted_view(wanted@) =~= wanted_view(before).push((tm, trim(t@.text))));
                }
            },
            None => {},
        }
        k = k + 1;
    }
    assert(tv.take(translations@.len() as int) == tv);
    let ghost wv = wanted_view(wanted@);
    if wanted.len() == 0 {
        return false;
    }
    // Each in turn takes its nearest free line.
    let n = lines.len();
    let mut taken: Vec<bool> = Vec::new();
    let mut z: usize = 0;
    while z < n
        invariant
            z <= n,
            taken@ == Seq::new(z as nat, |i: int| false),
        decreases n - z,
    {
        taken.push(false);
        z = z + 1;
        assert(taken@ =~= Seq::new(z as nat, |i: int| false));
    }
    let mut pairs: Vec<(usize, String)> = Vec::new();
    let mut w: usize = 0;
    assert(wv.take(0) == Seq::<(u64, Seq<char>)>::empty());
    while w < wanted.len()
        invariant
            w <= wanted@.len(),
            n == lines@.len(),
            orig == lines_view(lines@),
            wv == wanted_view(wanted@),
            taken@.len() == n,
            (taken@, pairs_view(pairs@)) == assign(orig, wv.take(w as int)),
            pairs@.len() <= w,
            forall|q: int| 0 <= q < pairs@.len() ==> (#[trigger] pairs@[q]).0 < n,
        decreases wanted.len() - w,
    {
        let (t, text) = (wanted[w].0, copy_text(&wanted[w].1));
        assert(wv[w as int] == (t, text@));
        proof {
            let p = wv.take(w + 1);
            assert(p.drop_last() == wv.take(w as int));
            assert(p.last() == (t, text@));
        }
        match find_best(lines, &taken, t) {
            Some(i) => {
                let ghost before = pairs@;
                taken.set(i, true);
                pairs.push((i, text));
                assert(pairs_view(pairs@) =~= pairs_view(before).push((i as int, text@)));
            },
            None => {},
        }
        w = w + 1;
    }
    assert(wv.take(wanted@.len() as int) == wv);
    let missed = wanted.len() - pairs.len();
    if missed > wanted.len() / 4 {
        assert(missed * 4 > wanted@.len());
        return false;
    }
    assert(!(missed * 4 > wanted@.len()));
    // Accepted: set each pair's text.
    let ghost pv = pairs_view(pairs@);
    let mut q: usize = 0;
    assert(pv.take(0) == Seq::<(int, Seq<char>)>::empty());
    while q < pairs.len()
        invariant
            q <= pairs@.len(),
            n == lines@.len(),
            pv == pairs_view(pairs@),
            forall|x: int| 0 <= x < pairs@.len() ==> (#[trigger] pairs@[x]).0 < n,
            lines_view(lines@) == apply_pairs(orig, pv.take(q as int)),
        decreases pairs.len() - q,
    {
        let i = pairs[q].0;
        let text = copy_text(&pairs[q].1);
        assert(pv[q as int] == (i as int, text@));
        let ghost cur = lines_view(lines@);
        let mut l = lines.remove(i);
        assert(l@ == cur[i as int]);
        l.translation = Some(text);
        lines.insert(i, l);
        proof {
            let p = pv.take(q + 1);
            assert(p.drop_last() == pv.take(q as int));
            assert(p.last() == (i as int, text@));
            assert(lines_view(lines@) =~= cur.update(
                i as int,
                LineV { translation: Some(text@), ..cur[i as int] },
            ));
        }
        q = q + 1;
    }
    assert(pv.take(pairs@.len() as int) == pv);
    true
}

fn copy_text(s: &String) -> (r: String)
    ensures
        r@ == s@,
{
    s.clone()
}

// --- LRCMux -------------------------------------------------------------------------------------
/// How far a word-source line's cue may sit from a primary line's.
pub const MUX_SLACK_MS: u64 = 800;

/// The first word-source line with a cue within the slack of `p`.
pub open spec fn first_near(ws: Seq<LineV>, p: u64) -> Option<int>
    decreases ws.len(),
{
    if ws.len() == 0 {
        None
    } else if ws[0].time_ms is Some && dist(p, ws[0].time_ms->0) <= MUX_SLACK_MS {
        Some(0)
    } else {
        match first_near(ws.drop_first(), p) {
            Some(j) => Some(j + 1),
            None => None,
        }
    }
}

/// A primary line with what it lacks (words, translation, end cue) taken from the first nearby
/// word-source line.
pub open spec fn mux_line(p: LineV, ws: Seq<LineV>) -> LineV {
    match p.time_ms {
        None => p,
        Some(pt) => match first_near(ws, pt) {
            None => p,
            Some(j) => {
                let w = ws[j];
                LineV {
                    words: if p.words is None && w.words is Some {
                        w.words
                    } else {
                        p.words
                    },
                    translation: if p.translation is None && w.translation is Some {
                        w.translation
                    } else {
                        p.translation
                    },
                    end_time_ms: if p.end_time_ms is None && w.end_time_ms is Some {
                        w.end_time_ms
                    } else {
                        p.end_time_ms
                    },
                    ..p
                }
            },
        },
    }
}

proof fn lemma_first_near(ws: Seq<LineV>, p: u64)
    ensures
        first_near(ws, p) matches Some(j) ==> 0 <= j < ws.len() && ws[j].time_ms is Some && dist(
            p,
            ws[j].time_ms->0,
        ) <= MUX_SLACK_MS && forall|k: int|
            0 <= k < j ==> !(ws[k].time_ms is Some && dist(p, ws[k].time_ms->0) <= MUX_SLACK_MS),
        first_near(ws, p) is None ==> forall|k: int|
            0 <= k < ws.len() ==> !(ws[k].time_ms is Some && dist(p, ws[k].time_ms->0)
                <= MUX_SLACK_MS),
    decreases ws.len(),
{
    if ws.len() > 0 {
        lemma_first_near(ws.drop_first(), p);
        assert forall|k: int| 1 <= k < ws.len() implies ws[k] == ws.drop_first()[k - 1] by {}
    }
}

fn find_near(ws: &Vec<LyricLine>, p: u64) -> (r: Option<usize>)
    ensures
        match first_near(lines_view(ws@), p) {
            Some(j) => r == Some(j as usize),
            None => r is None,
        },
{
    let ghost wv = lines_view(ws@);
    proof {
        lemma_first_near(wv, p);
    }
    let mut j: usize = 0;
    while j < ws.len()
        invariant
            j <= ws@.len(),
            wv == lines_view(ws@),
            forall|k: int|
                0 <= k < j ==> !(wv[k].time_ms is Some && dist(p, wv[k].time_ms->0)
                    <= MUX_SLACK_MS),
        decreases ws.len() - j,
    {
        assert(wv[j as int] == ws@[j as int]@);
        let near = match ws[j].time_ms {
            Some(w) => abs_diff(p, w) <= MUX_SLACK_MS,
            None => false,
        };
        if near {
            proof {
                lemma_first_near(wv, p);
                match first_near(wv, p) {
                    Some(k) => {
                        assert(!(k < j));
                        assert(!(k > j));
                    },
                    None => {},
                }
            }
            return Some(j);
        }
        j = j + 1;
    }
    proof {
        lemma_first_near(wv, p);
        if let Some(k) = first_near(wv, p) {
            assert(wv[k] == ws@[k]@);
        }
    }
    None
}

/// Muxing keeps every primary line's cue and text, and only fills in what the line lacks: words,
/// translation and end it already has stay as they are.
pub proof fn law_mux_keeps_the_primary(p: LineV, ws: Seq<LineV>)
    ensures
        mux_line(p, ws).time_ms == p.time_ms,
        mux_line(p, ws).text == p.text,
        p.words is Some ==> mux_line(p, ws).words == p.words,
        p.translation is Some ==> mux_line(p, ws).translation == p.translation,
        p.end_time_ms is Some ==> mux_line(p, ws).end_time_ms == p.end_time_ms,
{
}

/// A word-source line with a cue within 800 ms of `t`, either side.
pub open spec fn near_cue(w: LineV, t: u64) -> bool {
    w.time_ms is Some && -800 <= w.time_ms->0 - t <= 800
}

/// A cued primary line takes what it lacks (words, translation, end cue) from the first
/// word-source line cued within 800 ms of it, and from no other: what it already has,
/// its cue and its text stay.
pub proof fn law_mux_takes_from_the_first_near_line(p: LineV, ws: Seq<LineV>, j: int)
    requires
        p.time_ms is Some,
        0 <= j < ws.len(),
        near_cue(ws[j], p.time_ms->0),
        forall|k: int| 0 <= k < j ==> !near_cue(#[trigger] ws[k], p.time_ms->0),
    ensures
        mux_line(p, ws).time_ms == p.time_ms,
        mux_line(p, ws).text == p.text,
        mux_line(p, ws).words == (if p.words is None && ws[j].words is Some {
            ws[j].words
        } else {
            p.words
        }),
        mux_line(p, ws).translation == (if p.translation is None && ws[j].translation is Some {
            ws[j].translation
        } else {
            p.translation
        }),
        mux_line(p, ws).end_time_ms == (if p.end_time_ms is None && ws[j].end_time_ms is Some {
            ws[j].end_time_ms
        } else {
            p.end_time_ms
        }),
{
    let t = p.time_ms->0;
    lemma_first_near(ws, t);
    assert forall|k: int| 0 <= k < ws.len() implies near_cue(#[trigger] ws[k], t) == (ws[k].time_ms
        is Some && dist(t, ws[k].time_ms->0) <= MUX_SLACK_MS) by {}
    match first_near(ws, t) {
        Some(i) => {
            assert(!(i < j)) by {
                if i < j {
                    assert(!near_cue(ws[i], t));
                }
            }
            assert(!(i > j));
        },
        None => {
            assert(near_cue(ws[j], t));
        },
    }
}

/// A primary line without a cue, or with no word-source line cued within 800 ms of it,
/// comes out unchanged.
pub proof fn law_mux_leaves_lines_without_a_partner(p: LineV, ws: Seq<LineV>)
    requires
        p.time_ms is None || forall|k: int| 0 <= k < ws.len() ==> !near_cue(#[trigger] ws[k], p.time_ms->0),
    ensures
        mux_line(p, ws) == p,
{
    if let Some(t) = p.time_ms {
        lemma_first_near(ws, t);
        if let Some(i) = first_near(ws, t) {
            assert(!near_cue(ws[i], t));
        }
    }
}

/// LRCMux: merges line lyrics with another source's word timings, translations and end cues.
pub fn lrc_mux(primary: Vec<LyricLine>, word_source: Vec<LyricLine>) -> (r: Vec<LyricLine>)
    ensures
        lines_view(r@) == Seq::new(
            primary@.len(),
            |i: int| mux_line(lines_view(primary@)[i], lines_view(word_source@)),
        ),
{
    let ghost pv = lines_view(primary@);
    let ghost wv = lines_view(word_source@);
    let mut v = primary;
    let mut out: Vec<LyricLine> = Vec::new();
    let ghost mut i: int = 0;
    while v.len() > 0
        invariant
            0 <= i <= pv.len(),
            wv == lines_view(word_source@),
            lines_view(v@) == pv.skip(i),
            out@.len() == i,
            forall|k: int| 0 <= k < i ==> (#[trigger] out@[k])@ == mux_line(pv[k], wv),
        decreases v.len(),
    {
        let ghost old_v = v@;
        assert(lines_view(old_v)[0] == old_v[0]@);
        assert(lines_view(old_v).len() == old_v.len());
        let mut p = v.remove(0);
        assert(pv.skip(i)[0] == pv[i]);
        assert(lines_view(v@) =~= pv.skip(i + 1)) by {
            assert forall|k: int| 0 <= k < v@.len() implies lines_view(v@)[k] == pv.skip(i + 1)[k] by {
                assert(v@[k] == old_v[k + 1]);
                assert(lines_view(v@)[k] == v@[k]@);
                assert(lines_view(old_v)[k + 1] == old_v[k + 1]@);
                assert(pv.skip(i)[k + 1] == pv.skip(i + 1)[k]);
            }
        }
        let ghost p0 = p@;
        match p.time_ms {
            Some(pt) => {
                proof {
                    lemma_first_near(wv, pt);
                }
                match find_near(&word_source, pt) {
                    Some(j) => {
                        let w = &word_source[j];
                        assert(wv[j as int] == w@);
                        if p.words.is_none() && w.words.is_some() {
                            p.words = copy_opt_words(&w.words);
                        }
                        if p.translation.is_none() && w.translation.is_some() {
                            p.translation = copy_opt_string(&w.translation);
                        }
                        if p.end_time_ms.is_none() && w.end_time_ms.is_some() {
                            p.end_time_ms = w.end_time_ms;
                        }
                    },
                    None => {},
                }
            },
            None => {},
        }
        assert(p@ == mux_line(p0, wv));
        out.push(p);
        proof {
            i = i + 1;
        }
    }
    assert(lines_view(out@) =~= Seq::new(pv.len(), |k: int| mux_line(pv[k], wv)));
    out
}

} // verus!
