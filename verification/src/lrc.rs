//! LRC: `[mm:ss.xx] line` text, its timestamps, and the stable time order every parser ends on.
use vstd::prelude::*;

use crate::lyrics::{lines_view, simple_line, words_view, LineV, LyricLine, LyricWord, WordV};
use crate::text::{
    all_digits, chars_of, decimal_value, find_char, find_char_in, is_digit, lemma_find_char,
    line_spans, parse_u64, parse_u64_chars, skip_ws, skip_ws_back, str_lines, string_of, trim,
    trim_start,
};

verus! {

/// The ASCII digits of `s`, in order.
pub open spec fn ascii_digits(s: Seq<char>) -> Seq<char>
    decreases s.len(),
{
    if s.len() == 0 {
        s
    } else if is_digit(s.last()) {
        ascii_digits(s.drop_last()).push(s.last())
    } else {
        ascii_digits(s.drop_last())
    }
}

/// At most the first three of `d`.
pub open spec fn first3(d: Seq<char>) -> Seq<char> {
    if d.len() > 3 {
        d.take(3)
    } else {
        d
    }
}

/// The fraction after the seconds' `.`: its first three digits, scaled to milliseconds.
pub open spec fn frac_ms(f: Seq<char>) -> Option<int> {
    let d = first3(ascii_digits(f));
    if d.len() == 0 {
        None
    } else if d.len() == 1 {
        Some(decimal_value(d) * 100)
    } else if d.len() == 2 {
        Some(decimal_value(d) * 10)
    } else {
        Some(decimal_value(d))
    }
}

/// `mm:ss`, `mm:ss.xx` or `mm:ss.xxx` in milliseconds, as an unbounded integer.
pub open spec fn lrc_time(tag: Seq<char>) -> Option<int> {
    match find_char(tag, ':') {
        None => None,
        Some(c) => match parse_u64(trim(tag.take(c))) {
            None => None,
            Some(m) => {
                let rest = tag.skip(c + 1);
                let (sec, ms) = match find_char(rest, '.') {
                    Some(d) => (rest.take(d), frac_ms(rest.skip(d + 1))),
                    None => (rest, Some(0int)),
                };
                match (parse_u64(trim(sec)), ms) {
                    (Some(s), Some(f)) => Some((m * 60 + s) * 1000 + f),
                    _ => None,
                }
            },
        },
    }
}

/// An LRC timestamp that a `u64` holds; anything else is not a timestamp.
pub open spec fn lrc_time_ms(tag: Seq<char>) -> Option<u64> {
    match lrc_time(tag) {
        Some(v) => if v <= u64::MAX {
            Some(v as u64)
        } else {
            None
        },
        None => None,
    }
}

proof fn lemma_ascii_digits_push(s: Seq<char>, c: char)
    ensures
        ascii_digits(s.push(c)) == if is_digit(c) {
            ascii_digits(s).push(c)
        } else {
            ascii_digits(s)
        },
{
    assert(s.push(c).drop_last() == s);
}

proof fn lemma_ascii_digits_all(s: Seq<char>)
    ensures
        all_digits(ascii_digits(s)),
        ascii_digits(s).len() <= s.len(),
    decreases s.len(),
{
    if s.len() > 0 {
        lemma_ascii_digits_all(s.drop_last());
    }
}

/// The milliseconds of the fraction `s[lo..hi]`.
fn frac_ms_at(s: &[char], lo: usize, hi: usize) -> (r: Option<u64>)
    requires
        lo <= hi <= s@.len(),
    ensures
        match frac_ms(s@.subrange(lo as int, hi as int)) {
            Some(v) => r == Some(v as u64) && 0 <= v <= 999,
            None => r is None,
        },
{
    let mut d: Vec<char> = Vec::new();
    let mut i = lo;
    assert(s@.subrange(lo as int, lo as int) == Seq::<char>::empty());
    while i < hi
        invariant
            lo <= i <= hi <= s@.len(),
            d@ == first3(ascii_digits(s@.subrange(lo as int, i as int))),
        decreases hi - i,
    {
        let c = s[i];
        proof {
            assert(s@.subrange(lo as int, i + 1) == s@.subrange(lo as int, i as int).push(c));
            lemma_ascii_digits_push(s@.subrange(lo as int, i as int), c);
        }
        if '0' <= c && c <= '9' && d.len() < 3 {
            d.push(c);
        }
        i = i + 1;
        proof {
            let a = ascii_digits(s@.subrange(lo as int, (i - 1) as int));
            if is_digit(c) {
                if a.len() >= 3 {
                    assert(a.push(c).take(3) == a.take(3));
                }
            }
        }
    }
    let ghost f = s@.subrange(lo as int, hi as int);
    proof {
        lemma_ascii_digits_all(f);
        let a = ascii_digits(f);
        assert(all_digits(d@)) by {
            assert forall|j: int| 0 <= j < d@.len() implies is_digit(#[trigger] d@[j]) by {
                assert(d@[j] == a[j]);
            }
        }
    }
    let n = d.len();
    if n == 0 {
        return None;
    }
    let v = parse_u64_chars(d.as_slice(), 0, n);
    proof {
        assert(d@.subrange(0, n as int) == d@);
        lemma_small_decimal(d@);
    }
    match v {
        Some(x) => {
            if n == 1 {
                Some(x * 100)
            } else if n == 2 {
                Some(x * 10)
            } else {
                Some(x)
            }
        },
        None => None,
    }
}

/// A run of at most three digits reads as a small number, and `u64::from_str` reads it.
proof fn lemma_small_decimal(d: Seq<char>)
    requires
        all_digits(d),
        1 <= d.len() <= 3,
    ensures
        d.len() == 1 ==> decimal_value(d) <= 9,
        d.len() == 2 ==> decimal_value(d) <= 99,
        d.len() == 3 ==> decimal_value(d) <= 999,
        decimal_value(d) >= 0,
        parse_u64(d) == Some(decimal_value(d) as u64),
    decreases d.len(),
{
    let p = d.drop_last();
    assert(all_digits(p)) by {
        assert forall|j: int| 0 <= j < p.len() implies is_digit(#[trigger] p[j]) by {
            assert(p[j] == d[j]);
        }
    }
    assert(is_digit(d[d.len() - 1]));
    crate::text::lemma_decimal_nonneg(p);
    assert(decimal_value(d) == decimal_value(p) * 10 + crate::text::digit_value(d.last()));
    if d.len() == 1 {
        assert(decimal_value(p) == 0);
    }
    if d.len() > 1 {
        lemma_small_decimal(p);
    }
    assert(d[0] != '+') by {
        assert(is_digit(d[0]));
    }
}

/// `mm:ss`, `mm:ss.xx` or `mm:ss.xxx` in `s[lo..hi]`, in milliseconds.
pub fn lrc_time_at(s: &[char], lo: usize, hi: usize) -> (r: Option<u64>)
    requires
        lo <= hi <= s@.len(),
    ensures
        r == lrc_time_ms(s@.subrange(lo as int, hi as int)),
{
    let ghost tag = s@.subrange(lo as int, hi as int);
    proof {
        lemma_find_char(tag, ':');
    }
    let c = match find_char_in(s, lo, hi, ':') {
        Some(c) => c,
        None => {
            return None;
        },
    };
    let ms = skip_ws(s, lo, c);
    let me = skip_ws_back(s, ms, c);
    proof {
        assert(tag.take(c - lo) == s@.subrange(lo as int, c as int));
        assert(s@.subrange(ms as int, me as int) == trim(s@.subrange(lo as int, c as int)));
    }
    let m = match parse_u64_chars(s, ms, me) {
        Some(m) => m,
        None => {
            return None;
        },
    };
    let ghost rest = tag.skip(c - lo + 1);
    assert(rest == s@.subrange(c + 1, hi as int));
    proof {
        lemma_find_char(rest, '.');
    }
    let dot = find_char_in(s, c + 1, hi, '.');
    let sec_end = match dot {
        Some(d) => d,
        None => hi,
    };
    let ss = skip_ws(s, c + 1, sec_end);
    let se = skip_ws_back(s, ss, sec_end);
    proof {
        match dot {
            Some(d) => {
                assert(rest.take(d - c - 1) == s@.subrange(c + 1, d as int));
            },
            None => {},
        }
        assert(s@.subrange(ss as int, se as int) == trim(s@.subrange(c + 1, sec_end as int)));
    }
    let sec = match parse_u64_chars(s, ss, se) {
        Some(x) => x,
        None => {
            return None;
        },
    };
    let frac: u64 = match dot {
        Some(d) => {
            proof {
                assert(rest.skip(d - c) == s@.subrange(d + 1, hi as int));
            }
            match frac_ms_at(s, d + 1, hi) {
                Some(f) => f,
                None => {
                    return None;
                },
            }
        },
        None => 0,
    };
    let total = match m.checked_mul(60) {
        Some(a) => match a.checked_add(sec) {
            Some(b) => match b.checked_mul(1000) {
                Some(c2) => c2.checked_add(frac),
                None => None,
            },
            None => None,
        },
        None => None,
    };
    proof {
        assert(find_char(tag, ':') == Some(c - lo));
        assert(parse_u64(trim(tag.take(c - lo))) == Some(m));
        match dot {
            Some(d) => {
                assert(find_char(rest, '.') == Some(d - c - 1));
                assert(parse_u64(trim(rest.take(d - c - 1))) == Some(sec));
                assert(frac_ms(rest.skip(d - c)) == Some(frac as int));
            },
            None => {
                assert(find_char(rest, '.') is None);
                assert(parse_u64(trim(rest)) == Some(sec));
            },
        }
        assert(lrc_time(tag) == Some((m * 60 + sec) * 1000 + frac));
    }
    total
}

/// `mm:ss`, `mm:ss.xx` or `mm:ss.xxx` in milliseconds.
pub fn parse_lrc_time(tag: &str) -> (r: Option<u64>)
    ensures
        r == lrc_time_ms(tag@),
{
    let v = chars_of(tag);
    let n = v.len();
    assert(v@.subrange(0, n as int) == v@);
    lrc_time_at(v.as_slice(), 0, n)
}

// --- stable order by cue ---------------------------------------------------------------------
/// `a <= b` for cues, where a missing cue sorts first (`Option`'s order).
pub open spec fn time_le(a: Option<u64>, b: Option<u64>) -> bool {
    match (a, b) {
        (None, _) => true,
        (Some(_), None) => false,
        (Some(x), Some(y)) => x <= y,
    }
}

/// Where a stable insertion puts `x` into `s`: before the first line whose cue is later.
pub open spec fn insert_pos(s: Seq<LineV>, x: LineV) -> int
    decreases s.len(),
{
    if s.len() == 0 {
        0
    } else if !time_le(s[0].time_ms, x.time_ms) {
        0
    } else {
        1 + insert_pos(s.drop_first(), x)
    }
}

/// `s` stably sorted by cue: what `sort_by_key(|l| l.time_ms)` leaves.
pub open spec fn sort_by_time(s: Seq<LineV>) -> Seq<LineV>
    decreases s.len(),
{
    if s.len() == 0 {
        s
    } else {
        let r = sort_by_time(s.drop_last());
        r.insert(insert_pos(r, s.last()), s.last())
    }
}

/// Every cue is no later than the ones after it.
pub open spec fn sorted_by_time(s: Seq<LineV>) -> bool {
    forall|i: int, j: int| 0 <= i < j < s.len() ==> time_le(s[i].time_ms, s[j].time_ms)
}

proof fn lemma_insert_pos(s: Seq<LineV>, x: LineV, j: int)
    requires
        0 <= j <= s.len(),
        forall|k: int| 0 <= k < j ==> time_le(#[trigger] s[k].time_ms, x.time_ms),
        j == s.len() || !time_le(s[j].time_ms, x.time_ms),
    ensures
        insert_pos(s, x) == j,
    decreases j,
{
    if j > 0 {
        assert forall|k: int| 0 <= k < j - 1 implies time_le(
            #[trigger] s.drop_first()[k].time_ms,
            x.time_ms,
        ) by {
            assert(s.drop_first()[k] == s[k + 1]);
        }
        if j < s.len() {
            assert(s.drop_first()[j - 1] == s[j]);
        }
        lemma_insert_pos(s.drop_first(), x, j - 1);
    }
}

proof fn lemma_insert_pos_bounds(s: Seq<LineV>, x: LineV)
    ensures
        0 <= insert_pos(s, x) <= s.len(),
    decreases s.len(),
{
    if s.len() > 0 {
        lemma_insert_pos_bounds(s.drop_first(), x);
    }
}

proof fn lemma_time_le_total(a: Option<u64>, b: Option<u64>)
    ensures
        time_le(a, b) || time_le(b, a),
{
}

proof fn lemma_time_le_trans(a: Option<u64>, b: Option<u64>, c: Option<u64>)
    requires
        time_le(a, b),
        time_le(b, c),
    ensures
        time_le(a, c),
{
}

proof fn lemma_insert_pos_props(s: Seq<LineV>, x: LineV)
    ensures
        0 <= insert_pos(s, x) <= s.len(),
        forall|k: int| 0 <= k < insert_pos(s, x) ==> time_le(#[trigger] s[k].time_ms, x.time_ms),
        insert_pos(s, x) < s.len() ==> !time_le(s[insert_pos(s, x)].time_ms, x.time_ms),
    decreases s.len(),
{
    if s.len() > 0 && time_le(s[0].time_ms, x.time_ms) {
        let t = s.drop_first();
        lemma_insert_pos_props(t, x);
        assert forall|k: int| 0 <= k < insert_pos(s, x) implies time_le(
            #[trigger] s[k].time_ms,
            x.time_ms,
        ) by {
            if k > 0 {
                assert(s[k] == t[k - 1]);
            }
        }
        if insert_pos(s, x) < s.len() {
            assert(s[insert_pos(s, x)] == t[insert_pos(t, x)]);
        }
    }
}

/// Sorting by cue leaves the lines in cue order, and leaves the same lines: none lost, none
/// added.
pub proof fn law_sort_by_time(s: Seq<LineV>)
    ensures
        sorted_by_time(sort_by_time(s)),
        sort_by_time(s).to_multiset() == s.to_multiset(),
    decreases s.len(),
{
    broadcast use vstd::seq_lib::to_multiset_build, vstd::seq_lib::to_multiset_insert;

    if s.len() > 0 {
        let r = sort_by_time(s.drop_last());
        let x = s.last();
        law_sort_by_time(s.drop_last());
        lemma_insert_pos_props(r, x);
        let p = insert_pos(r, x);
        let t = r.insert(p, x);
        assert forall|i: int, j: int| 0 <= i < j < t.len() implies time_le(
            t[i].time_ms,
            t[j].time_ms,
        ) by {
            if j < p {
                assert(t[i] == r[i] && t[j] == r[j]);
            } else if j == p {
                assert(t[i] == r[i]);
            } else if i < p {
                assert(t[i] == r[i] && t[j] == r[j - 1]);
                lemma_time_le_total(r[p].time_ms, x.time_ms);
                lemma_time_le_trans(r[i].time_ms, x.time_ms, r[p].time_ms);
                lemma_time_le_trans(r[i].time_ms, r[p].time_ms, r[j - 1].time_ms);
            } else if i == p {
                assert(t[j] == r[j - 1]);
                lemma_time_le_total(r[p].time_ms, x.time_ms);
                lemma_time_le_trans(x.time_ms, r[p].time_ms, r[j - 1].time_ms);
            } else {
                assert(t[i] == r[i - 1] && t[j] == r[j - 1]);
            }
        }
        assert(s.drop_last().push(x) == s);
    }
}

fn cue_le(a: Option<u64>, b: Option<u64>) -> (r: bool)
    ensures
        r == time_le(a, b),
{
    match (a, b) {
        (None, _) => true,
        (Some(_), None) => false,
        (Some(x), Some(y)) => x <= y,
    }
}

/// Stable sort by cue.
pub fn sort_lines(v: Vec<LyricLine>) -> (r: Vec<LyricLine>)
    ensures
        lines_view(r@) == sort_by_time(lines_view(v@)),
{
    let ghost orig = lines_view(v@);
    let mut v = v;
    let mut r: Vec<LyricLine> = Vec::new();
    let ghost mut i: int = 0;
    assert(orig.take(0) == Seq::<LineV>::empty());
    while v.len() > 0
        invariant
            0 <= i <= orig.len(),
            lines_view(v@) == orig.skip(i),
            lines_view(r@) == sort_by_time(orig.take(i)),
        decreases v.len(),
    {
        let ghost old_v = v@;
        assert(lines_view(old_v)[0] == old_v[0]@);
        assert(lines_view(old_v).len() == old_v.len());
        assert(i < orig.len());
        let x = v.remove(0);
        let ghost xv = x@;
        assert(orig.skip(i)[0] == orig[i]);
        assert(xv == orig[i]);
        assert(lines_view(v@) =~= orig.skip(i + 1)) by {
            assert(v@ == old_v.remove(0));
            assert forall|k: int| 0 <= k < v@.len() implies lines_view(v@)[k] == orig.skip(i + 1)[k] by {
                assert(v@[k] == old_v[k + 1]);
                assert(lines_view(v@)[k] == v@[k]@);
                assert(lines_view(old_v)[k + 1] == old_v[k + 1]@);
                assert(orig.skip(i)[k + 1] == orig.skip(i + 1)[k]);
            }
        }
        let ghost rv = lines_view(r@);
        let mut j: usize = 0;
        while j < r.len() && cue_le(r[j].time_ms, x.time_ms)
            invariant
                j <= r@.len(),
                rv == lines_view(r@),
                xv == x@,
                forall|k: int| 0 <= k < j ==> time_le(#[trigger] rv[k].time_ms, xv.time_ms),
            decreases r.len() - j,
        {
            assert(rv[j as int] == r@[j as int]@);
            j = j + 1;
        }
        proof {
            if j < r@.len() {
                assert(rv[j as int] == r@[j as int]@);
            }
            lemma_insert_pos(rv, xv, j as int);
            let t = orig.take(i + 1);
            assert(t.drop_last() == orig.take(i));
            assert(t.last() == xv);
        }
        r.insert(j, x);
        assert(lines_view(r@) =~= rv.insert(j as int, xv));
        proof {
            i = i + 1;
        }
    }
    assert(orig.take(i) == orig);
    r
}

// --- LRC --------------------------------------------------------------------------------------
/// The leading `[time]` tags of a (trimmed) line: their cues, and the text after them. A bracket
/// that is not a timestamp ends the run: a metadata tag (`[ar:...]`) or bracketed lyric text.
pub open spec fn lrc_head(rest: Seq<char>) -> (Seq<u64>, Seq<char>)
    decreases rest.len(),
{
    if rest.len() > 0 && rest[0] == '[' {
        let after = rest.drop_first();
        match find_char(after, ']') {
            Some(e) => match lrc_time_ms(after.take(e)) {
                Some(ms) => {
                    proof {
                        lemma_find_char(after, ']');
                        lemma_trim_start_len(after.skip(e + 1));
                    }
                    let (ts, t) = lrc_head(trim_start(after.skip(e + 1)));
                    (seq![ms] + ts, t)
                },
                None => (Seq::empty(), rest),
            },
            None => (Seq::empty(), rest),
        }
    } else {
        (Seq::empty(), rest)
    }
}

pub proof fn lemma_trim_start_len(s: Seq<char>)
    ensures
        trim_start(s).len() <= s.len(),
    decreases s.len(),
{
    if s.len() > 0 && crate::text::is_ws(s[0]) {
        lemma_trim_start_len(s.drop_first());
    }
}

/// The lines one LRC line yields: its text once per leading cue.
pub open spec fn lrc_entries(raw: Seq<char>) -> Seq<LineV> {
    let (ts, t) = lrc_head(trim(raw));
    Seq::new(ts.len(), |i: int| simple_line(Some(ts[i]), t))
}

/// Every line's entries, in the order they appear.
pub open spec fn lrc_unsorted(ls: Seq<Seq<char>>) -> Seq<LineV>
    decreases ls.len(),
{
    if ls.len() == 0 {
        Seq::empty()
    } else {
        lrc_unsorted(ls.drop_last()) + lrc_entries(ls.last())
    }
}

/// The lines LRC text parses to: every cue of every line, in time order, ties in text order.
pub open spec fn lrc_lines(text: Seq<char>) -> Seq<LineV> {
    sort_by_time(lrc_unsorted(str_lines(text)))
}

/// The cues and text of `s[lo..hi]` (already trimmed), as `lrc_head` reads them.
fn lrc_head_at(s: &[char], lo: usize, hi: usize) -> (r: (Vec<u64>, usize))
    requires
        lo <= hi <= s@.len(),
    ensures
        r.1 <= hi,
        lo <= r.1,
        r.0@ == lrc_head(s@.subrange(lo as int, hi as int)).0,
        s@.subrange(r.1 as int, hi as int) == lrc_head(s@.subrange(lo as int, hi as int)).1,
{
    let mut times: Vec<u64> = Vec::new();
    let mut p = lo;
    while p < hi && s[p] == '['
        invariant
            lo <= p <= hi <= s@.len(),
            times@ + lrc_head(s@.subrange(p as int, hi as int)).0 == lrc_head(
                s@.subrange(lo as int, hi as int),
            ).0,
            lrc_head(s@.subrange(p as int, hi as int)).1 == lrc_head(
                s@.subrange(lo as int, hi as int),
            ).1,
        decreases hi - p,
    {
        let ghost rest = s@.subrange(p as int, hi as int);
        let ghost after = rest.drop_first();
        assert(after == s@.subrange(p + 1, hi as int));
        proof {
            lemma_find_char(after, ']');
        }
        let e = match find_char_in(s, p + 1, hi, ']') {
            Some(e) => e,
            None => {
                return (times, p);
            },
        };
        assert(after.take(e - p - 1) == s@.subrange(p + 1, e as int));
        match lrc_time_at(s, p + 1, e) {
            Some(ms) => {
                let q = skip_ws(s, e + 1, hi);
                proof {
                    assert(after.skip(e - p) == s@.subrange(e + 1, hi as int));
                    assert(trim_start(after.skip(e - p)) == s@.subrange(q as int, hi as int));
                    let (ts, t) = lrc_head(s@.subrange(q as int, hi as int));
                    assert(lrc_head(rest).0 == seq![ms] + ts);
                    assert(times@.push(ms) + ts == times@ + (seq![ms] + ts));
                }
                times.push(ms);
                p = q;
            },
            None => {
                return (times, p);
            },
        }
    }
    proof {
        let rest = s@.subrange(p as int, hi as int);
        assert(lrc_head(rest).0 == Seq::<u64>::empty());
        assert(times@ + Seq::<u64>::empty() == times@);
    }
    (times, p)
}

/// Parse LRC text into sorted lines. Handles several cues on a line (`[t1][t2]text` repeats the
/// text at both cues), skips metadata tags (`[ar:...]`), and keeps timestamped empty lines: they are
/// the instrumental gaps.
pub fn parse_lrc(lrc: &str) -> (r: Vec<LyricLine>)
    ensures
        lines_view(r@) == lrc_lines(lrc@),
{
    let s = chars_of(lrc);
    let spans = line_spans(s.as_slice());
    let ghost ls = str_lines(s@);
    let mut out: Vec<LyricLine> = Vec::new();
    let mut k: usize = 0;
    assert(ls.take(0) == Seq::<Seq<char>>::empty());
    while k < spans.len()
        invariant
            k <= spans@.len(),
            spans@.len() == ls.len(),
            ls == str_lines(s@),
            forall|i: int|
                0 <= i < spans@.len() ==> {
                    let (a, b) = #[trigger] spans@[i];
                    a <= b <= s@.len() && s@.subrange(a as int, b as int) == ls[i]
                },
            lines_view(out@) == lrc_unsorted(ls.take(k as int)),
        decreases spans.len() - k,
    {
        let (a, b) = spans[k];
        let ta = skip_ws(s.as_slice(), a, b);
        let tb = skip_ws_back(s.as_slice(), ta, b);
        assert(s@.subrange(ta as int, tb as int) == trim(ls[k as int]));
        let (times, q) = lrc_head_at(s.as_slice(), ta, tb);
        let ghost before = lines_view(out@);
        let ghost entries = lrc_entries(ls[k as int]);
        let mut t: usize = 0;
        while t < times.len()
            invariant
                t <= times@.len(),
                q <= tb <= s@.len(),
                entries.len() == times@.len(),
                forall|i: int|
                    0 <= i < times@.len() ==> #[trigger] entries[i] == simple_line(
                        Some(times@[i]),
                        s@.subrange(q as int, tb as int),
                    ),
                lines_view(out@) == before + entries.take(t as int),
            decreases times.len() - t,
        {
            let text = string_of(s.as_slice(), q, tb);
            let line = LyricLine::simple(Some(times[t]), text);
            let ghost prev = out@;
            out.push(line);
            proof {
                assert(lines_view(out@) =~= lines_view(prev).push(line@));
                assert(entries.take(t + 1) =~= entries.take(t as int).push(entries[t as int]));
            }
            t = t + 1;
        }
        proof {
            assert(entries.take(t as int) == entries);
            let n = ls.take(k + 1);
            assert(n.drop_last() == ls.take(k as int));
            assert(n.last() == ls[k as int]);
        }
        k = k + 1;
    }
    assert(ls.take(k as int) == ls);
    sort_lines(out)
}

// --- enhanced LRC ------------------------------------------------------------------------------
/// Reading a line's text from `pos` for inline word tags (`<mm:ss.xx>word`): the text with the
/// tags taken out, and one word per tag, which runs from the previous tag (or `last`) to its own.
pub open spec fn elrc_scan(t: Seq<char>, pos: int, last: u64) -> (Seq<char>, Seq<WordV>)
    decreases t.len() - pos,
{
    if pos < 0 || pos >= t.len() {
        (Seq::empty(), Seq::empty())
    } else {
        let tag = elrc_tag(t, pos);
        proof {
            lemma_elrc_tag(t, pos);
        }
        match tag {
            Some((w_ms, p2, nx)) => {
                let w_str = t.subrange(p2, nx);
                let (b, ws) = elrc_scan(t, nx, w_ms);
                (w_str + b, seq![WordV { text: w_str, start_ms: last, end_ms: w_ms }] + ws)
            },
            None => {
                let (b, ws) = elrc_scan(t, pos + 1, last);
                (seq![t[pos]] + b, ws)
            },
        }
    }
}

/// A word tag at `pos`: its cue, where its word starts, and where the word ends (the next `<`, or
/// the end of the text).
pub open spec fn elrc_tag(t: Seq<char>, pos: int) -> Option<(u64, int, int)> {
    if 0 <= pos < t.len() && t[pos] == '<' {
        match find_char(t.skip(pos), '>') {
            Some(e) => match lrc_time_ms(t.subrange(pos + 1, pos + e)) {
                Some(w) => {
                    let p2 = pos + e + 1;
                    let nx = match find_char(t.skip(p2), '<') {
                        Some(i) => p2 + i,
                        None => t.len() as int,
                    };
                    Some((w, p2, nx))
                },
                None => None,
            },
            None => None,
        }
    } else {
        None
    }
}

pub proof fn lemma_elrc_tag(t: Seq<char>, pos: int)
    ensures
        elrc_tag(t, pos) matches Some((w, p2, nx)) ==> pos < p2 <= nx <= t.len(),
{
    if 0 <= pos < t.len() && t[pos] == '<' {
        lemma_find_char(t.skip(pos), '>');
        if let Some(e) = find_char(t.skip(pos), '>') {
            assert(t.skip(pos)[0] == '<');
            let p2 = pos + e + 1;
            lemma_find_char(t.skip(p2), '<');
        }
    }
}

/// A line with its inline word tags read: unchanged when it has none.
pub open spec fn elrc_line(l: LineV) -> LineV {
    let start = match l.time_ms {
        Some(t) => t,
        None => 0,
    };
    let (b, ws) = elrc_scan(l.text, 0, start);
    if ws.len() == 0 {
        l
    } else {
        LineV { text: trim(b), words: Some(ws), ..l }
    }
}

/// The lines eLRC text parses to: LRC lines, each with its word tags read.
pub open spec fn elrc_lines(text: Seq<char>) -> Seq<LineV> {
    let ls = lrc_lines(text);
    Seq::new(ls.len(), |i: int| elrc_line(ls[i]))
}

/// LRC text parses to lines in cue order, and every cue of every line is there: as many lines as
/// the text's lines have leading cues.
pub proof fn law_lrc_lines_sorted(text: Seq<char>)
    ensures
        sorted_by_time(lrc_lines(text)),
        lrc_lines(text).to_multiset() == lrc_unsorted(str_lines(text)).to_multiset(),
{
    law_sort_by_time(lrc_unsorted(str_lines(text)));
}

/// Reading the word tags keeps every LRC line and its cue, so enhanced LRC is in cue order too.
pub proof fn law_elrc_keeps_the_cues(text: Seq<char>)
    ensures
        elrc_lines(text).len() == lrc_lines(text).len(),
        forall|i: int|
            0 <= i < elrc_lines(text).len() ==> (#[trigger] elrc_lines(text)[i]).time_ms
                == lrc_lines(text)[i].time_ms,
        sorted_by_time(elrc_lines(text)),
{
    law_sort_by_time(lrc_unsorted(str_lines(text)));
    let e = elrc_lines(text);
    let l = lrc_lines(text);
    assert forall|i: int, j: int| 0 <= i < j < e.len() implies time_le(
        e[i].time_ms,
        e[j].time_ms,
    ) by {
        assert(e[i].time_ms == l[i].time_ms);
        assert(e[j].time_ms == l[j].time_ms);
    }
}

/// The word tag at `pos` of `t`, as `elrc_tag` reads it.
fn elrc_tag_at(t: &[char], pos: usize) -> (r: Option<(u64, usize, usize)>)
    requires
        pos < t@.len(),
    ensures
        match elrc_tag(t@, pos as int) {
            Some((w, p2, nx)) => r == Some((w, p2 as usize, nx as usize)),
            None => r is None,
        },
{
    let n = t.len();
    if t[pos] != '<' {
        return None;
    }
    proof {
        lemma_find_char(t@.skip(pos as int), '>');
        assert(t@.skip(pos as int) == t@.subrange(pos as int, n as int));
    }
    let close = match find_char_in(t, pos, n, '>') {
        Some(c) => c,
        None => {
            return None;
        },
    };
    let w = match lrc_time_at(t, pos + 1, close) {
        Some(w) => w,
        None => {
            return None;
        },
    };
    let p2 = close + 1;
    proof {
        lemma_find_char(t@.skip(p2 as int), '<');
        assert(t@.skip(p2 as int) == t@.subrange(p2 as int, n as int));
    }
    let nx = match find_char_in(t, p2, n, '<') {
        Some(i) => i,
        None => n,
    };
    Some((w, p2, nx))
}

/// Enhanced LRC: line cues plus inline word cues (`[00:10.50]<00:10.50>Hello <00:11.20>world`).
pub fn parse_elrc(lrc: &str) -> (r: Vec<LyricLine>)
    ensures
        lines_view(r@) == elrc_lines(lrc@),
{
    let base = parse_lrc(lrc);
    let ghost bv = lines_view(base@);
    let mut v = base;
    let mut out: Vec<LyricLine> = Vec::new();
    let ghost mut i: int = 0;
    while v.len() > 0
        invariant
            0 <= i <= bv.len(),
            lines_view(v@) == bv.skip(i),
            out@.len() == i,
            forall|k: int| 0 <= k < i ==> (#[trigger] out@[k])@ == elrc_line(bv[k]),
        decreases v.len(),
    {
        let ghost old_v = v@;
        assert(lines_view(old_v)[0] == old_v[0]@);
        assert(lines_view(old_v).len() == old_v.len());
        let mut line = v.remove(0);
        assert(bv.skip(i)[0] == bv[i]);
        assert(lines_view(v@) =~= bv.skip(i + 1)) by {
            assert forall|k: int| 0 <= k < v@.len() implies lines_view(v@)[k] == bv.skip(i + 1)[k] by {
                assert(v@[k] == old_v[k + 1]);
                assert(lines_view(v@)[k] == v@[k]@);
                assert(lines_view(old_v)[k + 1] == old_v[k + 1]@);
                assert(bv.skip(i)[k + 1] == bv.skip(i + 1)[k]);
            }
        }
        let ghost l0 = line@;
        let t = chars_of(line.text.as_str());
        let n = t.len();
        let start: u64 = match line.time_ms {
            Some(s) => s,
            None => 0,
        };
        let ghost total = elrc_scan(t@, 0, start);
        let mut buf: Vec<char> = Vec::new();
        let mut words: Vec<LyricWord> = Vec::new();
        let mut last = start;
        let mut pos: usize = 0;
        while pos < n
            invariant
                pos <= n,
                n == t@.len(),
                buf@ + elrc_scan(t@, pos as int, last).0 == total.0,
                words_view(words@) + elrc_scan(t@, pos as int, last).1 == total.1,
            decreases n - pos,
        {
            proof {
                lemma_elrc_tag(t@, pos as int);
            }
            match elrc_tag_at(t.as_slice(), pos) {
                Some((w_ms, p2, nx)) => {
                    let ghost before_b = buf@;
                    let ghost before_w = words_view(words@);
                    let mut k = p2;
                    while k < nx
                        invariant
                            p2 <= k <= nx <= t@.len(),
                            buf@ == before_b + t@.subrange(p2 as int, k as int),
                        decreases nx - k,
                    {
                        buf.push(t[k]);
                        k = k + 1;
                        assert(buf@ == before_b + t@.subrange(p2 as int, k as int));
                    }
                    let w_str = string_of(t.as_slice(), p2, nx);
                    let word = LyricWord { text: w_str, start_ms: last, end_ms: w_ms };
                    words.push(word);
                    proof {
                        assert(words_view(words@) =~= before_w.push(word@));
                        let w_seq = t@.subrange(p2 as int, nx as int);
                        assert(word@ == WordV { text: w_seq, start_ms: last, end_ms: w_ms });
                        let (b2, ws2) = elrc_scan(t@, nx as int, w_ms);
                        assert(elrc_scan(t@, pos as int, last).0 == w_seq + b2);
                        assert(elrc_scan(t@, pos as int, last).1 == seq![word@] + ws2);
                        assert(buf@ + b2 == before_b + (w_seq + b2));
                        assert(before_w.push(word@) + ws2 == before_w + (seq![word@] + ws2));
                    }
                    last = w_ms;
                    pos = nx;
                },
                None => {
                    let ghost before_b = buf@;
                    buf.push(t[pos]);
                    proof {
                        let (b2, ws2) = elrc_scan(t@, pos + 1, last);
                        assert(elrc_scan(t@, pos as int, last).0 == seq![t@[pos as int]] + b2);
                        assert(buf@ + b2 == before_b + (seq![t@[pos as int]] + b2));
                    }
                    pos = pos + 1;
                },
            }
        }
        proof {
            assert(buf@ + Seq::<char>::empty() == buf@);
            assert(words_view(words@) + Seq::<WordV>::empty() == words_view(words@));
        }
        if words.len() > 0 {
            let bl = buf.len();
            let a = skip_ws(buf.as_slice(), 0, bl);
            let b = skip_ws_back(buf.as_slice(), a, bl);
            assert(buf@.subrange(0, bl as int) == buf@);
            line.text = string_of(buf.as_slice(), a, b);
            line.words = Some(words);
        }
        proof {
            assert(words_view(words@).len() == words@.len());
        }
        assert(line@ == elrc_line(l0));
        out.push(line);
        proof {
            i = i + 1;
        }
    }
    assert(lines_view(out@) =~= elrc_lines(lrc@));
    out
}

} // verus!
