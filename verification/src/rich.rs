//! SimpMusic's word-synced format, one line per lyric line:
//!
//! ```text
//! [00:07.12] <00:07.12>Baby, <00:08.22>you <00:08.74>can <00:10.44>lights
//! [00:09.544]v1:<00:09.544>If <00:09.768>you <00:11.711>
//! ```
//!
//! Each `<t>` is when the word after it starts; a trailing `<t>` with no word is when the last one
//! ends. `v1:` is a singer marker and is dropped. A last word with no closing tag ends where the
//! next line starts.
use vstd::prelude::*;

use crate::community::{decode_entities, decoded, strip_voice_marker, voice_stripped};
use crate::lrc::{
    law_sort_by_time, lrc_lines, lrc_time_at, lrc_time_ms, parse_lrc, sort_by_time, sort_lines,
    sorted_by_time,
};
use crate::lyrics::{lines_view, words_view, LineV, LyricLine, LyricWord, WordV};
use crate::text::{
    chars_of, find_char, find_char_in, has_non_ws, lemma_find_char, line_spans, push_chars,
    skip_ws, skip_ws_back, str_lines, string_of, trim,
};
use crate::ttml::extend_last;

verus! {

/// What reading a line's body has gathered so far: its words, its text, the cue of a tag still
/// waiting for its word, and the cue of a closing tag at the end.
pub struct RichState {
    pub words: Seq<WordV>,
    pub plain: Seq<char>,
    pub pending: Option<u64>,
    pub closed_at: Option<u64>,
}

/// The first `<` of `rest`, when what runs from it to the next `>` is a cue: where the tag opens,
/// where it closes, and the cue.
pub open spec fn rich_tag(rest: Seq<char>) -> Option<(int, int, u64)> {
    match find_char(rest, '<') {
        None => None,
        Some(o) => match find_char(rest.skip(o), '>') {
            None => None,
            Some(e) => match lrc_time_ms(rest.subrange(o + 1, o + e)) {
                Some(t) => Some((o, o + e, t)),
                None => None,
            },
        },
    }
}

pub proof fn lemma_rich_tag(rest: Seq<char>)
    ensures
        rich_tag(rest) matches Some((o, c, t)) ==> 0 <= o < c < rest.len() && rest[o] == '<'
            && rest[c] == '>',
{
    lemma_find_char(rest, '<');
    if let Some(o) = find_char(rest, '<') {
        lemma_find_char(rest.skip(o), '>');
        if let Some(e) = find_char(rest.skip(o), '>') {
            assert(rest.skip(o)[0] == rest[o]);
            assert(rest.skip(o)[e] == rest[o + e]);
        }
    }
}

/// A chunk of text taken into the line: after a tag it is that tag's word; ahead of any tag, text
/// that is not blank is a word at the line's own cue; otherwise it joins the last word.
pub open spec fn take_chunk(st: RichState, chunk: Seq<char>, start: u64) -> RichState {
    if chunk.len() == 0 {
        st
    } else {
        let words = match st.pending {
            Some(at) => st.words.push(WordV { text: chunk, start_ms: at, end_ms: at }),
            None => if st.words.len() == 0 && trim(chunk).len() > 0 {
                st.words.push(WordV { text: chunk, start_ms: start, end_ms: start })
            } else {
                extend_last(st.words, chunk)
            },
        };
        RichState { words, plain: st.plain + chunk, pending: None, closed_at: st.closed_at }
    }
}

/// The last word, while it has no end past its start, ends at `t` (or at its start, if later).
pub open spec fn close_last(ws: Seq<WordV>, t: u64) -> Seq<WordV> {
    if ws.len() > 0 && ws.last().end_ms <= ws.last().start_ms {
        ws.update(
            ws.len() - 1,
            WordV {
                end_ms: if t >= ws.last().start_ms {
                    t
                } else {
                    ws.last().start_ms
                },
                ..ws.last()
            },
        )
    } else {
        ws
    }
}

/// Where reading goes on after the step at `p`: just past the tag, when there is one.
pub open spec fn rich_next(body: Seq<char>, p: int) -> Option<int> {
    match rich_tag(body.skip(p)) {
        Some((_, c, _)) => Some(p + c + 1),
        None => None,
    }
}

/// One step at `p` of a line's body: the text up to the next cue tag (its entities decoded), then
/// the tag, which closes the last word and waits for the next. A tag with only blank text after it
/// closes the line.
pub open spec fn rich_step(body: Seq<char>, p: int, start: u64, st: RichState) -> RichState {
    let rest = body.skip(p);
    let tag = rich_tag(rest);
    let text_end = match tag {
        Some((o, _, _)) => o,
        None => rest.len() as int,
    };
    let st1 = take_chunk(st, decoded(rest.take(text_end)), start);
    match tag {
        None => st1,
        Some((_, c, t)) => RichState {
            words: close_last(st1.words, t),
            plain: st1.plain,
            pending: Some(t),
            closed_at: if trim(rest.skip(c + 1)).len() == 0 {
                Some(t)
            } else {
                st1.closed_at
            },
        },
    }
}

pub proof fn lemma_rich_next(body: Seq<char>, p: int)
    requires
        0 <= p <= body.len(),
    ensures
        rich_next(body, p) matches Some(q) ==> p < q <= body.len(),
{
    lemma_rich_tag(body.skip(p));
}

/// Reading a line's body from `p` to the end, one step at a time.
pub open spec fn rich_scan(body: Seq<char>, p: int, start: u64, st: RichState) -> RichState
    decreases body.len() - p,
{
    if p < 0 || p > body.len() {
        st
    } else {
        proof {
            lemma_rich_next(body, p);
        }
        let st2 = rich_step(body, p, start, st);
        match rich_next(body, p) {
            Some(q) => rich_scan(body, q, start, st2),
            None => st2,
        }
    }
}

/// Nothing gathered yet.
pub open spec fn rich_start() -> RichState {
    RichState { words: Seq::empty(), plain: Seq::empty(), pending: None, closed_at: None }
}

/// The line one line of text gives: its first LRC cue, with its body (singer marker dropped) read
/// for words. It carries words when it has more than one or a closing tag; its end is that tag.
pub open spec fn rich_line(raw: Seq<char>) -> Option<LineV> {
    let ls = lrc_lines(raw);
    if ls.len() == 0 {
        None
    } else {
        match ls[0].time_ms {
            None => None,
            Some(start) => {
                let st = rich_scan(voice_stripped(ls[0].text), 0, start, rich_start());
                Some(
                    LineV {
                        time_ms: Some(start),
                        end_time_ms: st.closed_at,
                        text: trim(st.plain),
                        words: if st.words.len() > 1 || st.closed_at is Some {
                            Some(st.words)
                        } else {
                            None
                        },
                        translation: None,
                    },
                )
            },
        }
    }
}

/// Every text line's line, in order.
pub open spec fn rich_unsorted(ls: Seq<Seq<char>>) -> Seq<LineV>
    decreases ls.len(),
{
    if ls.len() == 0 {
        Seq::empty()
    } else {
        rich_unsorted(ls.drop_last()) + match rich_line(ls.last()) {
            Some(l) => seq![l],
            None => Seq::empty(),
        }
    }
}

/// 600 ms past `s`, as far as a `u64` goes.
pub open spec fn beat_after(s: u64) -> u64 {
    if s <= u64::MAX - 600 {
        (s + 600) as u64
    } else {
        u64::MAX
    }
}

/// A line whose last word is still open: that word runs to `next` when it is later, or a beat
/// past its start.
pub open spec fn end_open_word(l: LineV, next: Option<u64>) -> LineV {
    match l.words {
        Some(ws) => if ws.len() > 0 && ws.last().end_ms <= ws.last().start_ms {
            let s = ws.last().start_ms;
            let e = match next {
                Some(n) => if n > s {
                    n
                } else {
                    beat_after(s)
                },
                None => beat_after(s),
            };
            LineV { words: Some(ws.update(ws.len() - 1, WordV { end_ms: e, ..ws.last() })), ..l }
        } else {
            l
        },
        None => l,
    }
}

/// The lines word-synced text parses to: sorted by cue, each open last word run to the next
/// line's cue.
pub open spec fn rich_lines(text: Seq<char>) -> Seq<LineV> {
    let s = sort_by_time(rich_unsorted(str_lines(text)));
    Seq::new(
        s.len(),
        |i: int|
            end_open_word(
                s[i],
                if i + 1 < s.len() {
                    s[i + 1].time_ms
                } else {
                    None
                },
            ),
    )
}

/// Word-synced text parses to lines in cue order, one per text line that has a cue: running a
/// last word on to the next cue moves no line.
pub proof fn law_rich_lines_sorted(text: Seq<char>)
    ensures
        sorted_by_time(rich_lines(text)),
        rich_lines(text).len() == rich_unsorted(str_lines(text)).len(),
{
    let u = rich_unsorted(str_lines(text));
    law_sort_by_time(u);
    let s = sort_by_time(u);
    let r = rich_lines(text);
    assert(s.len() == u.len()) by {
        assert(s.to_multiset().len() == s.len()) by {
            vstd::seq_lib::to_multiset_len(s);
        }
        vstd::seq_lib::to_multiset_len(u);
    }
    assert forall|i: int, j: int| 0 <= i < j < r.len() implies crate::lrc::time_le(
        r[i].time_ms,
        r[j].time_ms,
    ) by {
        assert(r[i].time_ms == s[i].time_ms);
        assert(r[j].time_ms == s[j].time_ms);
    }
}

/// The state that `words`, `plain`, `pending` and `closed` hold.
pub open spec fn state_of(
    words: Seq<LyricWord>,
    plain: Seq<char>,
    pending: Option<u64>,
    closed: Option<u64>,
) -> RichState {
    RichState { words: words_view(words), plain, pending, closed_at: closed }
}

/// `rich_tag` of `b[p..]`, as indices into `b`.
fn rich_tag_at(b: &[char], p: usize) -> (r: Option<(usize, usize, u64)>)
    requires
        p <= b@.len(),
    ensures
        match rich_tag(b@.skip(p as int)) {
            Some((o, c, t)) => r matches Some((ro, rc, rt)) && ro == p + o && rc == p + c && rt
                == t,
            None => r is None,
        },
{
    let n = b.len();
    let ghost rest = b@.skip(p as int);
    assert(rest =~= b@.subrange(p as int, n as int));
    proof {
        lemma_find_char(rest, '<');
    }
    let o = match find_char_in(b, p, n, '<') {
        Some(o) => o,
        None => {
            return None;
        },
    };
    assert(find_char(rest, '<') == Some(o - p));
    let ghost r2 = rest.skip(o - p);
    assert(r2 =~= b@.subrange(o as int, n as int));
    proof {
        lemma_find_char(r2, '>');
    }
    let c = match find_char_in(b, o, n, '>') {
        Some(c) => c,
        None => {
            return None;
        },
    };
    assert(find_char(r2, '>') == Some(c - o));
    assert(rest.subrange(o - p + 1, c - p) =~= b@.subrange(o + 1, c as int));
    match lrc_time_at(b, o + 1, c) {
        Some(t) => Some((o, c, t)),
        None => None,
    }
}

/// `take_chunk` on the state held in `words`, `plain`, `pending` and `closed`.
fn take_chunk_at(
    words: &mut Vec<LyricWord>,
    plain: &mut Vec<char>,
    pending: &mut Option<u64>,
    closed: &Option<u64>,
    chunk: String,
    start: u64,
)
    ensures
        state_of(final(words)@, final(plain)@, *final(pending), *closed) == take_chunk(
            state_of(old(words)@, old(plain)@, *old(pending), *closed),
            chunk@,
            start,
        ),
{
    let cc = chars_of(chunk.as_str());
    let m = cc.len();
    if m == 0 {
        return;
    }
    let ghost w0 = words_view(words@);
    assert(cc@.subrange(0, m as int) == cc@);
    match *pending {
        Some(at) => {
            let word = LyricWord { text: chunk, start_ms: at, end_ms: at };
            let ghost wv = word@;
            words.push(word);
            assert(words_view(words@) =~= w0.push(wv));
        },
        None => {
            if words.len() == 0 && has_non_ws(cc.as_slice(), 0, m) {
                let word = LyricWord { text: chunk, start_ms: start, end_ms: start };
                let ghost wv = word@;
                words.push(word);
                assert(words_view(words@) =~= w0.push(wv));
            } else if words.len() > 0 {
                let ghost ws = words@;
                let mut w = words.pop().unwrap();
                assert(w == ws[ws.len() - 1]);
                push_chars(&mut w.text, cc.as_slice(), 0, m);
                words.push(w);
                proof {
                    assert(words@ == ws.update(ws.len() - 1, w));
                    assert(w0.last() == ws[ws.len() - 1]@);
                    assert(words_view(words@) =~= extend_last(w0, chunk@));
                }
            }
        },
    }
    let mut rest = cc;
    plain.append(&mut rest);
    *pending = None;
}

/// `close_last` on `words`.
fn close_last_at(words: &mut Vec<LyricWord>, t: u64)
    ensures
        words_view(final(words)@) == close_last(words_view(old(words)@), t),
{
    let ghost w0 = words_view(words@);
    let n = words.len();
    if n > 0 && words[n - 1].end_ms <= words[n - 1].start_ms {
        let ghost ws = words@;
        let mut w = words.pop().unwrap();
        assert(w == ws[ws.len() - 1]);
        w.end_ms = if t >= w.start_ms {
            t
        } else {
            w.start_ms
        };
        words.push(w);
        proof {
            assert(words@ == ws.update(ws.len() - 1, w));
            assert(w0.last() == ws[ws.len() - 1]@);
            assert(words_view(words@) =~= close_last(w0, t));
        }
    } else {
        proof {
            if n > 0 {
                assert(w0.last() == words@[n - 1]@);
            }
        }
    }
}

/// One `rich_step` at `p` on the state held in `words`, `plain`, `pending` and `closed`; where to
/// go on, as `rich_next` says.
fn rich_step_at(
    b: &[char],
    p: usize,
    start: u64,
    words: &mut Vec<LyricWord>,
    plain: &mut Vec<char>,
    pending: &mut Option<u64>,
    closed: &mut Option<u64>,
) -> (r: Option<usize>)
    requires
        p <= b@.len(),
    ensures
        state_of(final(words)@, final(plain)@, *final(pending), *final(closed)) == rich_step(
            b@,
            p as int,
            start,
            state_of(old(words)@, old(plain)@, *old(pending), *old(closed)),
        ),
        match rich_next(b@, p as int) {
            Some(q) => r is Some && r->0 == q,
            None => r is None,
        },
{
    let n = b.len();
    let ghost rest = b@.skip(p as int);
    proof {
        lemma_rich_tag(rest);
    }
    let tag = rich_tag_at(b, p);
    let te = match tag {
        Some((o, _, _)) => o,
        None => n,
    };
    assert(rest.take(te - p) =~= b@.subrange(p as int, te as int));
    let raw = string_of(b, p, te);
    let chunk = decode_entities(raw.as_str());
    let cl = *closed;
    take_chunk_at(words, plain, pending, &cl, chunk, start);
    match tag {
        None => None,
        Some((_, c, t)) => {
            close_last_at(words, t);
            *pending = Some(t);
            assert(rest.skip(c - p + 1) =~= b@.subrange(c + 1, n as int));
            if !has_non_ws(b, c + 1, n) {
                *closed = Some(t);
            }
            Some(c + 1)
        },
    }
}

/// `rich_scan` of a line's body from the start, as a line: `rich_line` once its cue is known.
fn scan_body(b: &[char], start: u64) -> (r: (Vec<LyricWord>, Vec<char>, Option<u64>))
    ensures
        state_of(r.0@, r.1@, None, r.2) == {
            let st = rich_scan(b@, 0, start, rich_start());
            RichState { pending: None, ..st }
        },
{
    let ghost total = rich_scan(b@, 0, start, rich_start());
    let mut words: Vec<LyricWord> = Vec::new();
    let mut plain: Vec<char> = Vec::new();
    let mut pending: Option<u64> = None;
    let mut closed: Option<u64> = None;
    let mut p: usize = 0;
    assert(words_view(words@) =~= Seq::<WordV>::empty());
    assert(state_of(words@, plain@, pending, closed) == rich_start());
    loop
        invariant
            p <= b@.len(),
            total == rich_scan(b@, 0, start, rich_start()),
            rich_scan(b@, p as int, start, state_of(words@, plain@, pending, closed)) == total,
        decreases b@.len() - p,
    {
        proof {
            lemma_rich_next(b@, p as int);
        }
        match rich_step_at(b, p, start, &mut words, &mut plain, &mut pending, &mut closed) {
            Some(q) => {
                p = q;
            },
            None => {
                return (words, plain, closed);
            },
        }
    }
}

/// The line the text `t[lo..hi]` gives, as `rich_line` says.
fn rich_line_at(t: &[char], lo: usize, hi: usize) -> (r: Option<LyricLine>)
    requires
        lo <= hi <= t@.len(),
    ensures
        match rich_line(t@.subrange(lo as int, hi as int)) {
            Some(l) => r matches Some(x) && x@ == l,
            None => r is None,
        },
{
    let raw = string_of(t, lo, hi);
    let mut ls = parse_lrc(raw.as_str());
    if ls.len() == 0 {
        return None;
    }
    let ghost lv = lines_view(ls@);
    assert(lv[0] == ls@[0]@);
    let line = ls.remove(0);
    let start = match line.time_ms {
        Some(s) => s,
        None => {
            return None;
        },
    };
    let body = strip_voice_marker(line.text.as_str());
    let b = chars_of(body);
    let (words, plain, closed) = scan_body(b.as_slice(), start);
    let n = plain.len();
    let s0 = skip_ws(plain.as_slice(), 0, n);
    let s1 = skip_ws_back(plain.as_slice(), s0, n);
    assert(plain@.subrange(0, n as int) == plain@);
    let text = string_of(plain.as_slice(), s0, s1);
    let has_words = words.len() > 1 || closed.is_some();
    let ws = if has_words {
        Some(words)
    } else {
        None
    };
    Some(LyricLine { time_ms: Some(start), end_time_ms: closed, text, words: ws, translation: None })
}

/// `end_open_word` on a line.
fn end_open_word_at(l: LyricLine, next: Option<u64>) -> (r: LyricLine)
    ensures
        r@ == end_open_word(l@, next),
{
    let ghost lv = l@;
    let LyricLine { time_ms, end_time_ms, text, words, translation } = l;
    let words = match words {
        Some(ws) => {
            let mut ws = ws;
            let n = ws.len();
            if n > 0 && ws[n - 1].end_ms <= ws[n - 1].start_ms {
                let ghost w0 = ws@;
                let mut w = ws.pop().unwrap();
                assert(w == w0[n - 1]);
                let s = w.start_ms;
                let beat = if s <= u64::MAX - 600 {
                    s + 600
                } else {
                    u64::MAX
                };
                let e = match next {
                    Some(nx) => if nx > s {
                        nx
                    } else {
                        beat
                    },
                    None => beat,
                };
                w.end_ms = e;
                ws.push(w);
                proof {
                    let v0 = words_view(w0);
                    assert(v0.last() == w0[n - 1]@);
                    assert(ws@ == w0.update(n - 1, w));
                    assert(words_view(ws@) =~= v0.update(n - 1, WordV { end_ms: e, ..v0.last() }));
                }
            } else {
                proof {
                    if n > 0 {
                        assert(words_view(ws@).last() == ws@[n - 1]@);
                    }
                }
            }
            Some(ws)
        },
        None => None,
    };
    LyricLine { time_ms, end_time_ms, text, words, translation }
}

/// SimpMusic's word-synced text: one line per text line with a cue, each tag timing the word after
/// it, sorted by cue; a last word with no closing tag runs to the next line's cue.
pub fn parse_rich_sync(text: &str) -> (r: Vec<LyricLine>)
    ensures
        lines_view(r@) == rich_lines(text@),
{
    let t = chars_of(text);
    let spans = line_spans(t.as_slice());
    let ghost ls = str_lines(t@);
    let mut out: Vec<LyricLine> = Vec::new();
    let mut k: usize = 0;
    assert(lines_view(out@) =~= rich_unsorted(ls.take(0)));
    while k < spans.len()
        invariant
            k <= spans@.len(),
            spans@.len() == ls.len(),
            ls == str_lines(t@),
            forall|i: int|
                0 <= i < spans@.len() ==> {
                    let (a, b) = #[trigger] spans@[i];
                    a <= b <= t@.len() && t@.subrange(a as int, b as int) == ls[i]
                },
            lines_view(out@) == rich_unsorted(ls.take(k as int)),
        decreases spans.len() - k,
    {
        let (a, b) = spans[k];
        let ghost before = lines_view(out@);
        let ghost tk = ls.take(k + 1);
        assert(tk.drop_last() == ls.take(k as int));
        assert(tk.last() == ls[k as int]);
        match rich_line_at(t.as_slice(), a, b) {
            Some(l) => {
                out.push(l);
                assert(lines_view(out@) =~= before + seq![l@]);
            },
            None => {
                assert(before + Seq::<LineV>::empty() == before);
            },
        }
        k = k + 1;
    }
    assert(ls.take(k as int) == ls);
    assert(t@ == text@);
    let sorted = sort_lines(out);
    let ghost s = lines_view(sorted@);
    let m = sorted.len();
    let mut nexts: Vec<Option<u64>> = Vec::new();
    let mut i: usize = 0;
    while i < m
        invariant
            i <= m,
            m == sorted@.len(),
            s == lines_view(sorted@),
            nexts@.len() == i,
            forall|j: int|
                0 <= j < i ==> #[trigger] nexts@[j] == if j + 1 < m {
                    s[j + 1].time_ms
                } else {
                    None
                },
        decreases m - i,
    {
        let nx = if i + 1 < m {
            assert(s[i + 1] == sorted@[i + 1]@);
            sorted[i + 1].time_ms
        } else {
            None
        };
        nexts.push(nx);
        i = i + 1;
    }
    let mut v = sorted;
    let mut res: Vec<LyricLine> = Vec::new();
    let mut j: usize = 0;
    while v.len() > 0
        invariant
            j <= m,
            m == s.len(),
            nexts@.len() == m,
            forall|q: int|
                0 <= q < m ==> #[trigger] nexts@[q] == if q + 1 < m {
                    s[q + 1].time_ms
                } else {
                    None
                },
            lines_view(v@) == s.skip(j as int),
            res@.len() == j,
            forall|q: int| 0 <= q < j ==> (#[trigger] res@[q])@ == end_open_word(s[q], nexts@[q]),
        decreases v.len(),
    {
        let ghost old_v = v@;
        assert(lines_view(old_v)[0] == old_v[0]@);
        assert(lines_view(old_v).len() == old_v.len());
        let l = v.remove(0);
        assert(s.skip(j as int)[0] == s[j as int]);
        assert(lines_view(v@) =~= s.skip(j + 1)) by {
            assert forall|q: int| 0 <= q < v@.len() implies lines_view(v@)[q] == s.skip(j + 1)[q] by {
                assert(v@[q] == old_v[q + 1]);
                assert(lines_view(v@)[q] == v@[q]@);
                assert(lines_view(old_v)[q + 1] == old_v[q + 1]@);
                assert(s.skip(j as int)[q + 1] == s.skip(j + 1)[q]);
            }
        }
        let l2 = end_open_word_at(l, nexts[j]);
        res.push(l2);
        j = j + 1;
    }
    assert(lines_view(res@) =~= rich_lines(text@)) by {
        assert forall|q: int| 0 <= q < res@.len() implies lines_view(res@)[q] == rich_lines(
            text@,
        )[q] by {
            assert(lines_view(res@)[q] == res@[q]@);
        }
    }
    res
}

} // verus!
