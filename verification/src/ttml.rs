//! TTML and Apple Music AAML: `<p begin=... end=...>` lines of `<span begin=... end=...>` words.
use vstd::prelude::*;

use crate::lrc::{law_sort_by_time, sort_by_time, sort_lines, sorted_by_time};
use crate::seconds::{seconds_ms, seconds_ms_at};
use crate::lyrics::{lines_view, words_view, LineV, LyricLine, LyricWord, WordV};
use crate::text::{
    push_chars, all_digits, chars_of, decimal_value, find_char, find_char_in, find_str, find_str_in, is_digit,
    lemma_find_char, lemma_find_str_some, parse_u64, parse_u64_chars, skip_ws, skip_ws_back,
    split_char, split_spans, string_of, trim,
};

verus! {

// --- tags ------------------------------------------------------------------------------------------
/// `s` with everything between `<` and `>` taken out, starting inside a tag or not.
pub open spec fn strip_tags(s: Seq<char>, in_tag: bool) -> Seq<char>
    decreases s.len(),
{
    if s.len() == 0 {
        s
    } else if s[0] == '<' {
        strip_tags(s.drop_first(), true)
    } else if s[0] == '>' {
        strip_tags(s.drop_first(), false)
    } else if !in_tag {
        seq![s[0]] + strip_tags(s.drop_first(), false)
    } else {
        strip_tags(s.drop_first(), true)
    }
}

/// What is left once the tags are taken out holds no `<` or `>`.
pub proof fn law_stripped_text_has_no_tags(s: Seq<char>, in_tag: bool)
    ensures
        !strip_tags(s, in_tag).contains('<'),
        !strip_tags(s, in_tag).contains('>'),
    decreases s.len(),
{
    if s.len() > 0 {
        let t = s.drop_first();
        law_stripped_text_has_no_tags(t, true);
        law_stripped_text_has_no_tags(t, false);
        if s[0] != '<' && s[0] != '>' && !in_tag {
            let r = seq![s[0]] + strip_tags(t, false);
            assert forall|i: int| 0 <= i < r.len() implies r[i] != '<' && r[i] != '>' by {
                if i > 0 {
                    assert(r[i] == strip_tags(t, false)[i - 1]);
                }
            }
        }
    }
}

/// The text of `s[lo..hi]` with its tags taken out.
fn strip_tags_at(s: &[char], lo: usize, hi: usize) -> (r: Vec<char>)
    requires
        lo <= hi <= s@.len(),
    ensures
        r@ == strip_tags(s@.subrange(lo as int, hi as int), false),
{
    let ghost total = strip_tags(s@.subrange(lo as int, hi as int), false);
    let mut out: Vec<char> = Vec::new();
    let mut in_tag = false;
    let mut i = lo;
    while i < hi
        invariant
            lo <= i <= hi <= s@.len(),
            out@ + strip_tags(s@.subrange(i as int, hi as int), in_tag) == total,
        decreases hi - i,
    {
        let c = s[i];
        let ghost rest = s@.subrange(i as int, hi as int);
        assert(rest.drop_first() == s@.subrange(i + 1, hi as int));
        assert(rest[0] == c);
        let ghost before = out@;
        if c == '<' {
            in_tag = true;
        } else if c == '>' {
            in_tag = false;
        } else if !in_tag {
            out.push(c);
            assert(out@ + strip_tags(rest.drop_first(), false) == before + (seq![c] + strip_tags(
                rest.drop_first(),
                false,
            )));
        }
        i = i + 1;
    }
    assert(out@ + Seq::<char>::empty() == out@);
    out
}

/// The text of an XML fragment with its tags taken out.
pub fn strip_xml_tags(s: &str) -> (r: String)
    ensures
        r@ == strip_tags(s@, false),
{
    let v = chars_of(s);
    let n = v.len();
    assert(v@.subrange(0, n as int) == v@);
    let out = strip_tags_at(v.as_slice(), 0, n);
    string_of(out.as_slice(), 0, out.len())
}

/// The value of `attr` in a tag: after the first `attr="` up to the next `"`; failing a `"` form
/// at all, after the first `attr='` up to the next `'`.
pub open spec fn xml_attr(tag: Seq<char>, attr: Seq<char>) -> Option<Seq<char>> {
    let p = attr + seq!['=', '"'];
    match find_str(tag, p) {
        Some(idx) => {
            let start = idx + p.len();
            match find_char(tag.skip(start), '"') {
                Some(e) => Some(tag.subrange(start, start + e)),
                None => None,
            }
        },
        None => {
            let q = attr + seq!['=', '\''];
            match find_str(tag, q) {
                Some(idx) => {
                    let start = idx + q.len();
                    match find_char(tag.skip(start), '\'') {
                        Some(e) => Some(tag.subrange(start, start + e)),
                        None => None,
                    }
                },
                None => None,
            }
        },
    }
}

/// The value of `attr` in the tag `s[lo..hi]`, as a span of `s`.
fn xml_attr_at(s: &[char], lo: usize, hi: usize, attr: &[char]) -> (r: Option<(usize, usize)>)
    requires
        lo <= hi <= s@.len(),
    ensures
        match xml_attr(s@.subrange(lo as int, hi as int), attr@) {
            Some(v) => r matches Some((a, b)) && lo <= a <= b <= hi && s@.subrange(
                a as int,
                b as int,
            ) == v,
            None => r is None,
        },
{
    let ghost tag = s@.subrange(lo as int, hi as int);
    let mut p: Vec<char> = Vec::new();
    let mut k: usize = 0;
    while k < attr.len()
        invariant
            k <= attr@.len(),
            p@ == attr@.take(k as int),
        decreases attr.len() - k,
    {
        p.push(attr[k]);
        k = k + 1;
        assert(p@ == attr@.take(k as int));
    }
    assert(attr@.take(attr@.len() as int) == attr@);
    let mut q = p.clone();
    assert(q@ == p@);
    p.push('=');
    p.push('"');
    q.push('=');
    q.push('\'');
    assert(p@ == attr@ + seq!['=', '"']);
    assert(q@ == attr@ + seq!['=', '\'']);
    proof {
        lemma_find_str_some(tag, p@);
        lemma_find_str_some(tag, q@);
    }
    match find_str_in(s, lo, hi, p.as_slice()) {
        Some(idx) => {
            let start = idx + p.len();
            proof {
                assert(tag.skip(start - lo) == s@.subrange(start as int, hi as int));
                lemma_find_char(tag.skip(start - lo), '"');
            }
            match find_char_in(s, start, hi, '"') {
                Some(e) => {
                    proof {
                        assert(tag.subrange(start - lo, e - lo) == s@.subrange(
                            start as int,
                            e as int,
                        ));
                    }
                    Some((start, e))
                },
                None => None,
            }
        },
        None => match find_str_in(s, lo, hi, q.as_slice()) {
            Some(idx) => {
                let start = idx + q.len();
                proof {
                    assert(tag.skip(start - lo) == s@.subrange(start as int, hi as int));
                    lemma_find_char(tag.skip(start - lo), '\'');
                }
                match find_char_in(s, start, hi, '\'') {
                    Some(e) => {
                        proof {
                            assert(tag.subrange(start - lo, e - lo) == s@.subrange(
                                start as int,
                                e as int,
                            ));
                        }
                        Some((start, e))
                    },
                    None => None,
                }
            },
            None => None,
        },
    }
}

/// The value of an attribute in a tag (`begin="00:10.5"` gives `00:10.5`).
pub fn parse_xml_attr(tag: &str, attr: &str) -> (r: Option<String>)
    ensures
        match (r, xml_attr(tag@, attr@)) {
            (Some(a), Some(b)) => a@ == b,
            (None, None) => true,
            _ => false,
        },
{
    let t = chars_of(tag);
    let a = chars_of(attr);
    let n = t.len();
    assert(t@.subrange(0, n as int) == t@);
    match xml_attr_at(t.as_slice(), 0, n, a.as_slice()) {
        Some((x, y)) => Some(string_of(t.as_slice(), x, y)),
        None => None,
    }
}

// --- times ---------------------------------------------------------------------------------------
/// A number of seconds as whole milliseconds, as a float's parse and cast give them (see
/// [`seconds_ms`]).
pub open spec fn decimal_ms(s: Seq<char>) -> Option<u64> {
    seconds_ms(s)
}

/// `s` ends with `p`.
pub open spec fn ends_with(s: Seq<char>, p: Seq<char>) -> bool {
    p.len() <= s.len() && s.skip(s.len() - p.len()) == p
}

/// A value that a `u64` holds.
pub open spec fn fit_u64(v: int) -> Option<u64> {
    if 0 <= v <= u64::MAX {
        Some(v as u64)
    } else {
        None
    }
}

/// A TTML time in milliseconds: `1500ms`, `1.5s`, `h:mm:ss.fff`, `mm:ss.fff` or bare seconds.
pub open spec fn ttml_time(s: Seq<char>) -> Option<u64> {
    let t = trim(s);
    if ends_with(t, seq!['m', 's']) {
        parse_u64(t.take(t.len() - 2))
    } else if t.len() > 0 && t.last() == 's' {
        decimal_ms(t.drop_last())
    } else if find_char(t, ':') is Some {
        let parts = split_char(t, ':');
        if parts.len() == 3 {
            match (parse_u64(parts[0]), parse_u64(parts[1]), decimal_ms(parts[2])) {
                (Some(h), Some(m), Some(x)) => fit_u64((h * 3600 + m * 60) * 1000 + x),
                _ => None,
            }
        } else if parts.len() == 2 {
            match (parse_u64(parts[0]), decimal_ms(parts[1])) {
                (Some(m), Some(x)) => fit_u64(m * 60 * 1000 + x),
                _ => None,
            }
        } else {
            decimal_ms(t)
        }
    } else {
        decimal_ms(t)
    }
}

/// Seconds in `s[lo..hi]` as milliseconds, as `decimal_ms` reads them.
fn decimal_ms_at(s: &[char], lo: usize, hi: usize) -> (r: Option<u64>)
    requires
        lo <= hi <= s@.len(),
    ensures
        r == decimal_ms(s@.subrange(lo as int, hi as int)),
{
    seconds_ms_at(s, lo, hi)
}

/// A TTML time in `s[lo..hi]`, as `ttml_time` reads it.
fn ttml_time_at(s: &[char], lo: usize, hi: usize) -> (r: Option<u64>)
    requires
        lo <= hi <= s@.len(),
    ensures
        r == ttml_time(s@.subrange(lo as int, hi as int)),
{
    let a = skip_ws(s, lo, hi);
    let b = skip_ws_back(s, a, hi);
    let ghost t = s@.subrange(a as int, b as int);
    assert(t == trim(s@.subrange(lo as int, hi as int)));
    if b - a >= 2 && s[b - 2] == 'm' && s[b - 1] == 's' {
        proof {
            assert(t.skip(t.len() - 2) =~= seq!['m', 's']);
            assert(t.take(t.len() - 2) == s@.subrange(a as int, b - 2));
        }
        return parse_u64_chars(s, a, b - 2);
    }
    proof {
        if ends_with(t, seq!['m', 's']) {
            assert(t.skip(t.len() - 2)[0] == s@[b - 2]);
            assert(t.skip(t.len() - 2)[1] == s@[b - 1]);
        }
    }
    if b > a && s[b - 1] == 's' {
        assert(t.drop_last() == s@.subrange(a as int, b - 1));
        return decimal_ms_at(s, a, b - 1);
    }
    proof {
        lemma_find_char(t, ':');
    }
    match find_char_in(s, a, b, ':') {
        None => decimal_ms_at(s, a, b),
        Some(_) => {
            let parts = split_spans(s, a, b, ':');
            let ghost ps = split_char(t, ':');
            if parts.len() == 3 {
                let (h0, h1) = parts[0];
                let (m0, m1) = parts[1];
                let (x0, x1) = parts[2];
                let h = parse_u64_chars(s, h0, h1);
                let m = parse_u64_chars(s, m0, m1);
                let x = decimal_ms_at(s, x0, x1);
                match (h, m, x) {
                    (Some(h), Some(m), Some(x)) => {
                        let v: u128 = (h as u128 * 3600 + m as u128 * 60) * 1000 + x as u128;
                        if v > u64::MAX as u128 {
                            None
                        } else {
                            Some(v as u64)
                        }
                    },
                    _ => None,
                }
            } else if parts.len() == 2 {
                let (m0, m1) = parts[0];
                let (x0, x1) = parts[1];
                let m = parse_u64_chars(s, m0, m1);
                let x = decimal_ms_at(s, x0, x1);
                match (m, x) {
                    (Some(m), Some(x)) => {
                        let v: u128 = m as u128 * 60 * 1000 + x as u128;
                        if v > u64::MAX as u128 {
                            None
                        } else {
                            Some(v as u64)
                        }
                    },
                    _ => None,
                }
            } else {
                decimal_ms_at(s, a, b)
            }
        },
    }
}

/// A TTML time in milliseconds.
pub fn parse_ttml_time(s: &str) -> (r: Option<u64>)
    ensures
        r == ttml_time(s@),
{
    let v = chars_of(s);
    let n = v.len();
    assert(v@.subrange(0, n as int) == v@);
    ttml_time_at(v.as_slice(), 0, n)
}

// --- documents -------------------------------------------------------------------------------------
pub open spec fn para_open() -> Seq<char> {
    seq!['<', 'p']
}

pub open spec fn para_close() -> Seq<char> {
    seq!['<', '/', 'p', '>']
}

pub open spec fn span_open() -> Seq<char> {
    seq!['<', 's', 'p', 'a', 'n']
}

pub open spec fn span_close() -> Seq<char> {
    seq!['<', '/', 's', 'p', 'a', 'n', '>']
}

pub open spec fn begin_attr() -> Seq<char> {
    seq!['b', 'e', 'g', 'i', 'n']
}

pub open spec fn end_attr() -> Seq<char> {
    seq!['e', 'n', 'd']
}

/// A time attribute of a tag read as a TTML time: none when it is absent or unreadable.
#[verifier::opaque]
pub open spec fn attr_time(tag: Seq<char>, attr: Seq<char>) -> Option<u64> {
    match xml_attr(tag, attr) {
        Some(v) => ttml_time(v),
        None => None,
    }
}

/// `a`, or failing it `b`.
pub open spec fn or_else(a: Option<u64>, b: Option<u64>) -> Option<u64> {
    match a {
        Some(x) => Some(x),
        None => b,
    }
}

/// `ws` with `t` added to the text of its last word, if it has one.
pub open spec fn extend_last(ws: Seq<WordV>, t: Seq<char>) -> Seq<WordV> {
    if ws.len() == 0 {
        ws
    } else {
        ws.update(ws.len() - 1, WordV { text: ws.last().text + t, ..ws.last() })
    }
}

/// The element that opens at the first `open` of `s` from `from`: where it opens, where its
/// start tag closes (the next `>`), and where the first `close` after that is, if any.
#[verifier::opaque]
pub open spec fn next_element(s: Seq<char>, from: int, open: Seq<char>, close: Seq<char>) -> Option<
    (int, int, Option<int>),
> {
    match find_str(s.skip(from), open) {
        None => None,
        Some(k) => {
            let a = from + k;
            match find_char(s.skip(a), '>') {
                None => None,
                Some(e) => {
                    let b = a + e;
                    Some(
                        (
                            a,
                            b,
                            match find_str(s.skip(b), close) {
                                Some(c) => Some(b + c),
                                None => None,
                            },
                        ),
                    )
                },
            }
        },
    }
}

pub proof fn lemma_next_element(s: Seq<char>, from: int, open: Seq<char>, close: Seq<char>)
    requires
        0 <= from <= s.len(),
        open.len() > 0,
        open[0] == '<',
        close.len() > 0,
        close[0] == '<',
    ensures
        next_element(s, from, open, close) matches Some((a, b, c)) ==> from <= a < b < s.len()
            && s[b] == '>' && (c matches Some(c) ==> b < c && c + close.len() <= s.len()),
{
    reveal(next_element);
    lemma_find_str_some(s.skip(from), open);
    if let Some(k) = find_str(s.skip(from), open) {
        let a = from + k;
        assert(s.skip(from).subrange(k, k + open.len())[0] == s[a]);
        lemma_find_char(s.skip(a), '>');
        if let Some(e) = find_char(s.skip(a), '>') {
            let b = a + e;
            assert(s.skip(a)[e] == s[b]);
            assert(s.skip(a)[0] == s[a]);
            lemma_find_str_some(s.skip(b), close);
            if let Some(c) = find_str(s.skip(b), close) {
                assert(s.skip(b).subrange(c, c + close.len())[0] == s[b + c]);
                assert(s.skip(b)[0] == s[b]);
            }
        }
    }
}

/// Where reading for `<span>` words goes on after the span at `sp`: just past its `</span>`, when
/// there is a whole span to read.
pub open spec fn span_next(inner: Seq<char>, sp: int) -> Option<int> {
    match next_element(inner, sp, span_open(), span_close()) {
        Some((_, _, Some(c))) => Some(c + 7),
        _ => None,
    }
}

/// One step of reading a line's inner XML at `sp` for `<span>` words: the words and the text read
/// so far, after the span there (or, when there is no whole span, after the rest of the line). A
/// span's time attributes default to the line's; a span with no text, or no time either way,
/// gives no word. Text between spans joins the word before it. Where the rest of the line has no
/// well-formed span, its text (tags taken out) ends the line's text.
pub open spec fn span_read(
    inner: Seq<char>,
    sp: int,
    lb: Option<u64>,
    le: Option<u64>,
    words: Seq<WordV>,
    plain: Seq<char>,
) -> (Seq<WordV>, Seq<char>) {
    let rest = strip_tags(inner.skip(sp), false);
    match next_element(inner, sp, span_open(), span_close()) {
        None => (words, plain + rest),
        Some((a, b, close)) => {
            let before = strip_tags(inner.subrange(sp, a), false);
            let words1 = extend_last(words, before);
            let plain1 = plain + before;
            match close {
                None => (words1, plain1 + rest),
                Some(c) => {
                    let tag = inner.subrange(a, b + 1);
                    let wt = strip_tags(inner.subrange(b + 1, c), false);
                    let wb = or_else(attr_time(tag, begin_attr()), lb);
                    let we = or_else(attr_time(tag, end_attr()), le);
                    let words2 = match (wb, we) {
                        (Some(x), Some(y)) => if wt.len() > 0 {
                            words1.push(WordV { text: wt, start_ms: x, end_ms: y })
                        } else {
                            words1
                        },
                        _ => words1,
                    };
                    (words2, plain1 + wt)
                },
            }
        },
    }
}

pub proof fn lemma_span_next(inner: Seq<char>, sp: int)
    requires
        0 <= sp <= inner.len(),
    ensures
        span_next(inner, sp) matches Some(n) ==> sp < n <= inner.len(),
{
    let o = span_open();
    let c = span_close();
    assert(o.len() == 5 && o[0] == '<');
    assert(c.len() == 7 && c[0] == '<');
    lemma_next_element(inner, sp, o, c);
}

/// Reading a line's inner XML for `<span>` words from `sp` to the end, one span at a time.
pub open spec fn ttml_spans(
    inner: Seq<char>,
    sp: int,
    lb: Option<u64>,
    le: Option<u64>,
    words: Seq<WordV>,
    plain: Seq<char>,
) -> (Seq<WordV>, Seq<char>)
    decreases inner.len() - sp,
{
    if sp < 0 || sp > inner.len() {
        (words, plain)
    } else {
        proof {
            lemma_span_next(inner, sp);
        }
        let (w, p) = span_read(inner, sp, lb, le, words, plain);
        match span_next(inner, sp) {
            Some(n) => ttml_spans(inner, n, lb, le, w, p),
            None => (w, p),
        }
    }
}

/// The line a `<p>` element gives, from its start tag and its inner XML: its cue and end from the
/// tag's `begin` and `end`, its words and text from its spans; none when it has neither text nor
/// a cue.
pub open spec fn ttml_line(tag: Seq<char>, inner: Seq<char>) -> Option<LineV> {
    let lb = attr_time(tag, begin_attr());
    let le = attr_time(tag, end_attr());
    let (ws, plain) = ttml_spans(inner, 0, lb, le, Seq::empty(), Seq::empty());
    let text = trim(plain);
    if text.len() > 0 || lb is Some {
        Some(
            LineV {
                time_ms: lb,
                end_time_ms: le,
                text,
                words: if ws.len() > 0 {
                    Some(ws)
                } else {
                    None
                },
                translation: None,
            },
        )
    } else {
        None
    }
}

pub proof fn lemma_para_next(x: Seq<char>, pos: int)
    requires
        0 <= pos <= x.len(),
    ensures
        next_element(x, pos, para_open(), para_close()) matches Some((a, b, Some(c))) ==> pos
            <= a < b < c && c + 4 <= x.len(),
{
    let o = para_open();
    let c = para_close();
    assert(o.len() == 2 && o[0] == '<');
    assert(c.len() == 4 && c[0] == '<');
    lemma_next_element(x, pos, o, c);
}

/// The lines of the `<p>` elements of `x` from `pos` on, in document order. Reading stops at a
/// `<p` with no `>`, or no `</p>`, after it.
pub open spec fn ttml_paras(x: Seq<char>, pos: int) -> Seq<LineV>
    decreases x.len() - pos,
{
    if pos < 0 || pos > x.len() {
        Seq::empty()
    } else {
        proof {
            lemma_para_next(x, pos);
        }
        match next_element(x, pos, para_open(), para_close()) {
            Some((a, b, Some(c))) => {
                let rest = ttml_paras(x, c + 4);
                match ttml_line(x.subrange(a, b + 1), x.subrange(b + 1, c)) {
                    Some(l) => seq![l] + rest,
                    None => rest,
                }
            },
            _ => Seq::empty(),
        }
    }
}

/// The lines of a TTML or AAML document, sorted by cue.
pub open spec fn ttml_lines(x: Seq<char>) -> Seq<LineV> {
    sort_by_time(ttml_paras(x, 0))
}

/// A TTML document's lines come out in cue order, and they are its `<p>` lines, none lost.
pub proof fn law_ttml_lines_sorted(x: Seq<char>)
    ensures
        sorted_by_time(ttml_lines(x)),
        ttml_lines(x).to_multiset() == ttml_paras(x, 0).to_multiset(),
{
    law_sort_by_time(ttml_paras(x, 0));
}

/// The time in the attribute `attr` of the tag `s[lo..hi]`, as `attr_time` reads it.
fn attr_time_at(s: &[char], lo: usize, hi: usize, attr: &[char]) -> (r: Option<u64>)
    requires
        lo <= hi <= s@.len(),
    ensures
        r == attr_time(s@.subrange(lo as int, hi as int), attr@),
{
    reveal(attr_time);
    match xml_attr_at(s, lo, hi, attr) {
        Some((a, b)) => ttml_time_at(s, a, b),
        None => None,
    }
}

/// The element opening with `open` in `x[lo..hi]` from `from`, as `next_element` finds it, as
/// indices into `x`.
#[verifier::rlimit(50)]
fn next_element_at(x: &[char], lo: usize, hi: usize, from: usize, open: &[char], close: &[char]) -> (r:
    Option<(usize, usize, Option<usize>)>)
    requires
        lo <= from <= hi <= x@.len(),
        open@.len() > 0,
        open@[0] == '<',
        close@.len() > 0,
        close@[0] == '<',
    ensures
        match next_element(x@.subrange(lo as int, hi as int), from - lo, open@, close@) {
            Some((a, b, c)) => r matches Some((ra, rb, rc)) && ra == lo + a && rb == lo + b && (
            c is Some <==> rc is Some) && (c is Some ==> rc->0 == lo + c->0),
            None => r is None,
        },
        r matches Some((a, b, c)) ==> from <= a < b < hi && (c matches Some(c) ==> b < c && c
            + close@.len() <= hi),
{
    let ghost inner = x@.subrange(lo as int, hi as int);
    let ghost f = from - lo;
    proof {
        lemma_next_element(inner, f, open@, close@);
    }
    let ghost s1 = inner.skip(f);
    assert(s1 =~= x@.subrange(from as int, hi as int));
    proof {
        lemma_find_str_some(s1, open@);
    }
    let a = match find_str_in(x, from, hi, open) {
        Some(a) => a,
        None => {
            assert(find_str(s1, open@) is None);
            assert(next_element(inner, f, open@, close@) is None) by {
                reveal(next_element);
            }
            return None;
        },
    };
    assert(find_str(s1, open@) == Some(a - from));
    let ghost s2 = inner.skip(a - lo);
    assert(s2 =~= x@.subrange(a as int, hi as int));
    proof {
        lemma_find_char(s2, '>');
    }
    let b = match find_char_in(x, a, hi, '>') {
        Some(b) => b,
        None => {
            assert(find_char(s2, '>') is None);
            assert(next_element(inner, f, open@, close@) is None) by {
                reveal(next_element);
            }
            return None;
        },
    };
    assert(find_char(s2, '>') == Some(b - a));
    let ghost s3 = inner.skip(b - lo);
    assert(s3 =~= x@.subrange(b as int, hi as int));
    proof {
        lemma_find_str_some(s3, close@);
    }
    match find_str_in(x, b, hi, close) {
        Some(c) => {
            assert(find_str(s3, close@) == Some(c - b));
            assert(next_element(inner, f, open@, close@) == Some(
                ((a - lo) as int, (b - lo) as int, Some((c - lo) as int)),
            )) by {
                reveal(next_element);
            }
            Some((a, b, Some(c)))
        },
        None => {
            assert(find_str(s3, close@) is None);
            assert(next_element(inner, f, open@, close@) == Some(
                ((a - lo) as int, (b - lo) as int, None::<int>),
            )) by {
                reveal(next_element);
            }
            Some((a, b, None))
        },
    }
}

/// One `span_read` step on the inner XML `x[lo..hi]` at `sp`, into `words` and `plain`; where to
/// go on, as `span_next` says.
#[verifier::rlimit(40)]
fn span_step_at(
    x: &[char],
    lo: usize,
    hi: usize,
    sp: usize,
    lb: Option<u64>,
    le: Option<u64>,
    words: &mut Vec<LyricWord>,
    plain: &mut Vec<char>,
) -> (r: Option<usize>)
    requires
        lo <= sp <= hi <= x@.len(),
    ensures
        ({
            let st = span_read(
                x@.subrange(lo as int, hi as int),
                sp - lo,
                lb,
                le,
                words_view(old(words)@),
                old(plain)@,
            );
            words_view(final(words)@) == st.0 && final(plain)@ == st.1
        }),
        match span_next(x@.subrange(lo as int, hi as int), sp - lo) {
            Some(n) => r is Some && r->0 == lo + n,
            None => r is None,
        },
{
    let ghost inner = x@.subrange(lo as int, hi as int);
    let ghost i = sp - lo;
    let ghost w0 = words_view(words@);
    let ghost p0 = plain@;
    let open = vec!['<', 's', 'p', 'a', 'n'];
    let close = vec!['<', '/', 's', 'p', 'a', 'n', '>'];
    let bname = vec!['b', 'e', 'g', 'i', 'n'];
    let ename = vec!['e', 'n', 'd'];
    assert(open@ == span_open());
    assert(close@ == span_close());
    assert(bname@ == begin_attr());
    assert(ename@ == end_attr());
    assert(inner.skip(i) == x@.subrange(sp as int, hi as int));
    let (a, b, cl) = match next_element_at(x, lo, hi, sp, open.as_slice(), close.as_slice()) {
        Some(t) => t,
        None => {
            let mut rest = strip_tags_at(x, sp, hi);
            plain.append(&mut rest);
            return None;
        },
    };
    assert(inner.subrange(i, a - lo) == x@.subrange(sp as int, a as int));
    let mut before = strip_tags_at(x, sp, a);
    let ghost bf = before@;
    if before.len() > 0 {
        if words.len() > 0 {
            let ghost ws = words@;
            let mut w = words.pop().unwrap();
            assert(w == ws[ws.len() - 1]);
            push_chars(&mut w.text, before.as_slice(), 0, before.len());
            assert(before@.subrange(0, before@.len() as int) == bf);
            words.push(w);
            proof {
                assert(words@ == ws.update(ws.len() - 1, w));
                assert(w0.last() == ws[ws.len() - 1]@);
                assert(words_view(words@) =~= extend_last(w0, bf));
            }
        }
        plain.append(&mut before);
    } else {
        proof {
            if w0.len() > 0 {
                assert(w0.last().text + bf =~= w0.last().text);
                assert(extend_last(w0, bf) =~= w0);
            }
            assert(p0 + bf =~= p0);
        }
    }
    assert(words_view(words@) == extend_last(w0, bf));
    assert(plain@ == p0 + bf);
    let c = match cl {
        Some(c) => c,
        None => {
            let mut rest = strip_tags_at(x, sp, hi);
            plain.append(&mut rest);
            return None;
        },
    };
    assert(inner.subrange(a - lo, b - lo + 1) == x@.subrange(a as int, b + 1));
    assert(inner.subrange(b - lo + 1, c - lo) == x@.subrange(b + 1, c as int));
    let mut wt = strip_tags_at(x, b + 1, c);
    let wb = match attr_time_at(x, a, b + 1, bname.as_slice()) {
        Some(t) => Some(t),
        None => lb,
    };
    let we = match attr_time_at(x, a, b + 1, ename.as_slice()) {
        Some(t) => Some(t),
        None => le,
    };
    match (wb, we) {
        (Some(s0), Some(e0)) => {
            if wt.len() > 0 {
                let ghost before_push = words@;
                let word = LyricWord { text: string_of(wt.as_slice(), 0, wt.len()), start_ms: s0, end_ms: e0 };
                assert(wt@.subrange(0, wt@.len() as int) == wt@);
                words.push(word);
                assert(words_view(words@) =~= words_view(before_push).push(word@));
            }
        },
        _ => {},
    }
    plain.append(&mut wt);
    proof {
        assert(next_element(inner, i, span_open(), span_close()) == Some(
            ((a - lo) as int, (b - lo) as int, Some((c - lo) as int)),
        ));
        assert(span_next(inner, i) == Some((c - lo) + 7));
    }
    Some(c + 7)
}

/// The `<span>` words and the text of the inner XML `x[lo..hi]`, as `ttml_spans` reads them.
fn ttml_spans_at(x: &[char], lo: usize, hi: usize, lb: Option<u64>, le: Option<u64>) -> (r: (
    Vec<LyricWord>,
    Vec<char>,
))
    requires
        lo <= hi <= x@.len(),
    ensures
        words_view(r.0@) == ttml_spans(
            x@.subrange(lo as int, hi as int),
            0,
            lb,
            le,
            Seq::empty(),
            Seq::empty(),
        ).0,
        r.1@ == ttml_spans(x@.subrange(lo as int, hi as int), 0, lb, le, Seq::empty(), Seq::empty()).1,
{
    let ghost inner = x@.subrange(lo as int, hi as int);
    let ghost total = ttml_spans(inner, 0, lb, le, Seq::empty(), Seq::empty());
    let mut words: Vec<LyricWord> = Vec::new();
    let mut plain: Vec<char> = Vec::new();
    let mut sp = lo;
    assert(words_view(words@) =~= Seq::<WordV>::empty());
    loop
        invariant
            lo <= sp <= hi <= x@.len(),
            inner == x@.subrange(lo as int, hi as int),
            total == ttml_spans(inner, 0, lb, le, Seq::empty(), Seq::empty()),
            ttml_spans(inner, sp - lo, lb, le, words_view(words@), plain@) == total,
        decreases hi - sp,
    {
        proof {
            lemma_span_next(inner, sp - lo);
        }
        match span_step_at(x, lo, hi, sp, lb, le, &mut words, &mut plain) {
            Some(n) => {
                sp = n;
            },
            None => {
                return (words, plain);
            },
        }
    }
}

/// The line of the `<p>` element whose start tag is `x[a..=b]` and whose `</p>` is at `c`.
fn ttml_line_at(x: &[char], a: usize, b: usize, c: usize) -> (r: Option<LyricLine>)
    requires
        a <= b < c <= x@.len(),
    ensures
        match ttml_line(x@.subrange(a as int, b + 1), x@.subrange(b + 1, c as int)) {
            Some(l) => r matches Some(rl) && rl@ == l,
            None => r is None,
        },
{
    let bname = vec!['b', 'e', 'g', 'i', 'n'];
    let ename = vec!['e', 'n', 'd'];
    assert(bname@ == begin_attr());
    assert(ename@ == end_attr());
    let lb = attr_time_at(x, a, b + 1, bname.as_slice());
    let le = attr_time_at(x, a, b + 1, ename.as_slice());
    let (words, plain) = ttml_spans_at(x, b + 1, c, lb, le);
    let n = plain.len();
    let s0 = skip_ws(plain.as_slice(), 0, n);
    let s1 = skip_ws_back(plain.as_slice(), s0, n);
    assert(plain@.subrange(0, n as int) == plain@);
    assert(plain@.subrange(s0 as int, s1 as int) == trim(plain@));
    if s1 > s0 || lb.is_some() {
        let text = string_of(plain.as_slice(), s0, s1);
        let ghost wl = words@.len();
        let ws = if words.len() > 0 {
            Some(words)
        } else {
            None
        };
        Some(LyricLine { time_ms: lb, end_time_ms: le, text, words: ws, translation: None })
    } else {
        None
    }
}

/// TTML and Apple Music AAML: one line per `<p begin=... end=...>`, with a word per timed
/// `<span>`, sorted by cue.
pub fn parse_ttml_aaml(xml: &str) -> (r: Vec<LyricLine>)
    ensures
        lines_view(r@) == ttml_lines(xml@),
{
    let x = chars_of(xml);
    let n = x.len();
    let open = vec!['<', 'p'];
    let close = vec!['<', '/', 'p', '>'];
    assert(open@ == para_open());
    assert(close@ == para_close());
    assert(x@.subrange(0, n as int) == x@);
    let mut out: Vec<LyricLine> = Vec::new();
    let mut pos: usize = 0;
    assert(lines_view(out@) + ttml_paras(x@, 0) == ttml_paras(x@, 0));
    loop
        invariant
            pos <= n,
            n == x@.len(),
            x@ == xml@,
            x@.subrange(0, n as int) == x@,
            open@ == para_open(),
            close@ == para_close(),
            lines_view(out@) + ttml_paras(x@, pos as int) == ttml_paras(x@, 0),
        decreases n - pos,
    {
        proof {
            lemma_para_next(x@, pos as int);
        }
        let ghost before = lines_view(out@);
        match next_element_at(x.as_slice(), 0, n, pos, open.as_slice(), close.as_slice()) {
            Some((a, b, Some(c))) => {
                let ghost rest = ttml_paras(x@, c + 4);
                match ttml_line_at(x.as_slice(), a, b, c) {
                    Some(l) => {
                        out.push(l);
                        proof {
                            assert(lines_view(out@) =~= before.push(l@));
                            assert(before.push(l@) + rest =~= before + (seq![l@] + rest));
                        }
                    },
                    None => {},
                }
                pos = c + 4;
            },
            _ => {
                assert(!(next_element(x@, pos as int, para_open(), para_close()) matches Some(
                    (_, _, Some(_)),
                )));
                assert(ttml_paras(x@, pos as int) == Seq::<LineV>::empty());
                assert(lines_view(out@) + Seq::<LineV>::empty() == lines_view(out@));
                return sort_lines(out);
            },
        }
    }
}

} // verus!
