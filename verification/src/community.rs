//! Cleaning up community-synced lyrics: singer markers, syncer credits and HTML entities.
use vstd::prelude::*;

use crate::lyrics::{lines_view, LineV, LyricLine};
use crate::text::{
    all_digits, chars_of, find_char, find_char_in, is_digit, lemma_find_char, matches_at,
    parse_uint, parse_uint_chars, skip_ws, skip_ws_back, starts_with, string_of, trim, trim_start,
};

verus! {

// --- singer markers ---------------------------------------------------------------------------
/// `v1:` / `v2:` ahead of a line's first tag says which singer has it; nothing here draws that, so
/// it goes. Anything else before a colon stays.
pub open spec fn voice_stripped(s: Seq<char>) -> Seq<char> {
    let t = trim_start(s);
    match find_char(t, ':') {
        Some(i) => {
            let v = t.take(i);
            if 1 <= v.len() <= 3 && v[0] == 'v' && all_digits(v.skip(1)) {
                t.skip(i + 1)
            } else {
                s
            }
        },
        None => s,
    }
}

/// Drop a `v1:`-style singer marker from the start of a line.
pub fn strip_voice_marker(s: &str) -> (r: &str)
    ensures
        r@ == voice_stripped(s@),
{
    let v = chars_of(s);
    let n = v.len();
    let t = skip_ws(v.as_slice(), 0, n);
    assert(v@.subrange(0, n as int) == v@);
    let ghost ts = v@.subrange(t as int, n as int);
    assert(ts == trim_start(s@));
    proof {
        lemma_find_char(ts, ':');
    }
    match find_char_in(v.as_slice(), t, n, ':') {
        Some(c) => {
            let len = c - t;
            let ghost vv = ts.take(len as int);
            assert(vv == v@.subrange(t as int, c as int));
            if len >= 1 && len <= 3 && v[t] == 'v' {
                let mut k = t + 1;
                while k < c
                    invariant
                        t + 1 <= k <= c <= n,
                        n == v@.len(),
                        v@ == s@,
                        ts == v@.subrange(t as int, n as int),
                        ts == trim_start(s@),
                        find_char(ts, ':') == Some(c - t),
                        vv == ts.take(c - t),
                        vv == v@.subrange(t as int, c as int),
                        1 <= c - t <= 3,
                        vv[0] == 'v',
                        forall|j: int| t + 1 <= j < k ==> is_digit(#[trigger] v@[j]),
                    decreases c - k,
                {
                    if !('0' <= v[k] && v[k] <= '9') {
                        proof {
                            assert(vv.skip(1)[k - t - 1] == v@[k as int]);
                            assert(!is_digit(vv.skip(1)[k - t - 1]));
                        }
                        return s;
                    }
                    k = k + 1;
                }
                proof {
                    assert(all_digits(vv.skip(1))) by {
                        assert forall|j: int| 0 <= j < vv.skip(1).len() implies is_digit(
                            #[trigger] vv.skip(1)[j],
                        ) by {
                            assert(vv.skip(1)[j] == v@[t + 1 + j]);
                        }
                    }
                    assert(ts.skip(len + 1) == v@.subrange(c + 1, n as int));
                }
                return s.substring_char(c + 1, n);
            }
            s
        },
        None => s,
    }
}

// --- credits ------------------------------------------------------------------------------------
/// `str::to_lowercase`: Unicode lower case by the Unicode case rules (mostly character by
/// character; a capital sigma depends on its neighbours).
pub uninterp spec fn lowercase(s: Seq<char>) -> Seq<char>;

/// `str::to_lowercase`: the lower-case form of `s` by the Unicode case tables, named
/// `lowercase` here and not otherwise described.
#[verifier::external_body]
fn to_lower(s: &str) -> (r: String)
    ensures
        r@ == lowercase(s@),
{
    s.to_lowercase()
}

/// The signatures syncers leave as a first line.
pub open spec fn credit_prefix(t: Seq<char>) -> bool {
    ||| starts_with(t, "synced by"@)
    ||| starts_with(t, "sync by"@)
    ||| starts_with(t, "lyrics synced by"@)
    ||| starts_with(t, "timed by"@)
    ||| starts_with(t, "transcribed by"@)
    ||| starts_with(t, "lyrics by"@)
}

/// A syncer's signature ("Synced by ..."), which is not part of the song.
pub open spec fn is_credit(text: Seq<char>) -> bool {
    credit_prefix(lowercase(trim(text)))
}

fn starts_with_str(s: &[char], p: &str) -> (r: bool)
    ensures
        r == starts_with(s@, p@),
{
    let q = chars_of(p);
    let r = matches_at(s, 0, q.as_slice());
    proof {
        if q@.len() <= s@.len() {
            assert(s@.subrange(0, q@.len() as int) == s@.take(q@.len() as int));
        }
    }
    r
}

/// Community-synced lyrics carry the syncer's signature as a lyric line.
pub fn is_credit_line(text: &str) -> (r: bool)
    ensures
        r == is_credit(text@),
{
    let v = chars_of(text);
    let n = v.len();
    let a = skip_ws(v.as_slice(), 0, n);
    let b = skip_ws_back(v.as_slice(), a, n);
    assert(v@.subrange(0, n as int) == v@);
    let trimmed = string_of(v.as_slice(), a, b);
    let lower = to_lower(trimmed.as_str());
    opens_with_credit(lower.as_str())
}

/// Whether a trimmed, lower-cased line opens with a syncer's signature.
pub fn opens_with_credit(lowered: &str) -> (r: bool)
    ensures
        r == credit_prefix(lowered@),
{
    let l = chars_of(lowered);
    let s = l.as_slice();
    starts_with_str(s, "synced by") || starts_with_str(s, "sync by") || starts_with_str(
        s,
        "lyrics synced by",
    ) || starts_with_str(s, "timed by") || starts_with_str(s, "transcribed by")
        || starts_with_str(s, "lyrics by")
}

/// The lines that are not syncer credits, in order.
pub open spec fn uncredited(ls: Seq<LineV>) -> Seq<LineV>
    decreases ls.len(),
{
    if ls.len() == 0 {
        ls
    } else if is_credit(ls.last().text) {
        uncredited(ls.drop_last())
    } else {
        uncredited(ls.drop_last()).push(ls.last())
    }
}

/// After cleaning, no line is a syncer's credit, and every line that was not one is still there.
pub proof fn law_credits_are_gone(ls: Seq<LineV>)
    ensures
        forall|i: int|
            0 <= i < uncredited(ls).len() ==> !is_credit((#[trigger] uncredited(ls)[i]).text),
        forall|i: int|
            0 <= i < ls.len() && !is_credit((#[trigger] ls[i]).text) ==> uncredited(ls).contains(
                ls[i],
            ),
    decreases ls.len(),
{
    if ls.len() > 0 {
        let p = ls.drop_last();
        law_credits_are_gone(p);
        let u = uncredited(p);
        assert forall|i: int| 0 <= i < ls.len() && !is_credit((#[trigger] ls[i]).text) implies uncredited(
            ls,
        ).contains(ls[i]) by {
            if i < p.len() {
                assert(p[i] == ls[i]);
                let k = choose|k: int| 0 <= k < u.len() && u[k] == p[i];
                if !is_credit(ls.last().text) {
                    assert(u.push(ls.last())[k] == ls[i]);
                }
            } else {
                assert(u.push(ls.last())[u.len() as int] == ls[i]);
            }
        }
    }
}

/// Drop the syncers' signatures.
pub fn clean_lines(lines: Vec<LyricLine>) -> (r: Vec<LyricLine>)
    ensures
        lines_view(r@) == uncredited(lines_view(lines@)),
{
    let ghost orig = lines_view(lines@);
    let mut v = lines;
    let mut out: Vec<LyricLine> = Vec::new();
    let ghost mut i: int = 0;
    assert(orig.take(0) == Seq::<LineV>::empty());
    while v.len() > 0
        invariant
            0 <= i <= orig.len(),
            lines_view(v@) == orig.skip(i),
            lines_view(out@) == uncredited(orig.take(i)),
        decreases v.len(),
    {
        let ghost old_v = v@;
        assert(lines_view(old_v)[0] == old_v[0]@);
        assert(lines_view(old_v).len() == old_v.len());
        let l = v.remove(0);
        assert(orig.skip(i)[0] == orig[i]);
        assert(lines_view(v@) =~= orig.skip(i + 1)) by {
            assert forall|k: int| 0 <= k < v@.len() implies lines_view(v@)[k] == orig.skip(i + 1)[k] by {
                assert(v@[k] == old_v[k + 1]);
                assert(lines_view(v@)[k] == v@[k]@);
                assert(lines_view(old_v)[k + 1] == old_v[k + 1]@);
                assert(orig.skip(i)[k + 1] == orig.skip(i + 1)[k]);
            }
        }
        let keep = !is_credit_line(l.text.as_str());
        let ghost before = out@;
        let ghost lv = l@;
        if keep {
            out.push(l);
        }
        proof {
            let t = orig.take(i + 1);
            assert(t.drop_last() == orig.take(i));
            assert(t.last() == orig[i]);
            if keep {
                assert(lines_view(out@) =~= lines_view(before).push(lv));
            }
            i = i + 1;
        }
    }
    assert(orig.take(i) == orig);
    out
}

// --- HTML entities ----------------------------------------------------------------------------
/// A code point `char::from_u32` accepts: not past U+10FFFF, not a surrogate.
pub open spec fn scalar(v: int) -> bool {
    0 <= v <= 0x10FFFF && !(0xD800 <= v <= 0xDFFF)
}

/// `char::from_u32`: the character with that code point, when there is one.
#[verifier::external_body]
fn char_from_u32(v: u32) -> (r: Option<char>)
    ensures
        r is Some <==> scalar(v as int),
        r matches Some(c) ==> c as int == v as int,
{
    char::from_u32(v)
}

/// A numeric entity's code point: `#xHH`/`#XHH` in hex, else `#DD` in decimal.
pub open spec fn numeric_entity(name: Seq<char>) -> Option<int> {
    let hex = if starts_with(name, "#x"@) || starts_with(name, "#X"@) {
        parse_uint(name.skip(2), 16, u32::MAX as int)
    } else {
        None
    };
    match hex {
        Some(v) => Some(v),
        None => if starts_with(name, "#"@) {
            parse_uint(name.skip(1), 10, u32::MAX as int)
        } else {
            None
        },
    }
}

/// The character an entity's name (between `&` and `;`) stands for.
pub open spec fn entity_char(name: Seq<char>) -> Option<char> {
    if name == "amp"@ {
        Some('&')
    } else if name == "lt"@ {
        Some('<')
    } else if name == "gt"@ {
        Some('>')
    } else if name == "quot"@ {
        Some('"')
    } else if name == "apos"@ {
        Some('\'')
    } else if name == "nbsp"@ {
        Some(' ')
    } else {
        match numeric_entity(name) {
            Some(v) => if scalar(v) {
                Some(v as char)
            } else {
                None
            },
            None => None,
        }
    }
}

/// The entity at the start of `after` (which starts with `&`): its character and where its `;`
/// is, when the `;` comes within ten characters and the name is known.
pub open spec fn entity_at(after: Seq<char>) -> Option<(char, int)> {
    match find_char(after, ';') {
        Some(e) => if e <= 10 && e >= 1 {
            match entity_char(after.subrange(1, e)) {
                Some(ch) => Some((ch, e)),
                None => None,
            }
        } else {
            None
        },
        None => None,
    }
}

/// `s` with its entities decoded; unknown ones are left as written.
pub open spec fn decoded(s: Seq<char>) -> Seq<char>
    decreases s.len(),
{
    proof {
        lemma_find_char(s, '&');
    }
    match find_char(s, '&') {
        None => s,
        Some(a) => {
            let after = s.skip(a);
            proof {
                lemma_find_char(after, ';');
            }
            match entity_at(after) {
                Some((ch, e)) => s.take(a).push(ch) + decoded(after.skip(e + 1)),
                None => s.take(a).push('&') + decoded(after.skip(1)),
            }
        },
    }
}

/// Text with no `&` in it has no entities, and comes back exactly as it was.
pub proof fn law_text_without_entities_is_unchanged(s: Seq<char>)
    requires
        !s.contains('&'),
    ensures
        decoded(s) == s,
{
    lemma_find_char(s, '&');
    if let Some(a) = find_char(s, '&') {
        assert(s[a] == '&');
    }
}

fn name_is(v: &[char], lo: usize, hi: usize, p: &str) -> (r: bool)
    requires
        lo <= hi <= v@.len(),
    ensures
        r == (v@.subrange(lo as int, hi as int) == p@),
{
    let q = chars_of(p);
    if hi - lo != q.len() {
        return false;
    }
    matches_at(v, lo, q.as_slice())
}

fn prefix_is(v: &[char], lo: usize, hi: usize, p: &str) -> (r: bool)
    requires
        lo <= hi <= v@.len(),
    ensures
        r == starts_with(v@.subrange(lo as int, hi as int), p@),
{
    let q = chars_of(p);
    if hi - lo < q.len() {
        return false;
    }
    let r = matches_at(v, lo, q.as_slice());
    assert(v@.subrange(lo as int, hi as int).take(q@.len() as int) == v@.subrange(
        lo as int,
        lo + q@.len(),
    ));
    r
}

/// The character the entity name `v[lo..hi]` stands for.
fn entity_char_at(v: &[char], lo: usize, hi: usize) -> (r: Option<char>)
    requires
        lo <= hi <= v@.len(),
    ensures
        r == entity_char(v@.subrange(lo as int, hi as int)),
{
    let ghost name = v@.subrange(lo as int, hi as int);
    if name_is(v, lo, hi, "amp") {
        return Some('&');
    }
    if name_is(v, lo, hi, "lt") {
        return Some('<');
    }
    if name_is(v, lo, hi, "gt") {
        return Some('>');
    }
    if name_is(v, lo, hi, "quot") {
        return Some('"');
    }
    if name_is(v, lo, hi, "apos") {
        return Some('\'');
    }
    if name_is(v, lo, hi, "nbsp") {
        return Some(' ');
    }
    let hexed = if prefix_is(v, lo, hi, "#x") || prefix_is(v, lo, hi, "#X") {
        proof {
            reveal_strlit("#x");
            reveal_strlit("#X");
            assert(name.skip(2) == v@.subrange(lo + 2, hi as int));
        }
        parse_uint_chars(v, lo + 2, hi, 16, 0xFFFF_FFFF)
    } else {
        None
    };
    let num = match hexed {
        Some(x) => Some(x),
        None => if prefix_is(v, lo, hi, "#") {
            proof {
                reveal_strlit("#");
                assert(name.skip(1) == v@.subrange(lo + 1, hi as int));
            }
            parse_uint_chars(v, lo + 1, hi, 10, 0xFFFF_FFFF)
        } else {
            None
        },
    };
    assert(match numeric_entity(name) {
        Some(x) => num == Some(x as u64),
        None => num is None,
    });
    match num {
        Some(x) => {
            assert(x <= 0xFFFF_FFFF);
            char_from_u32(x as u32)
        },
        None => None,
    }
}

/// HTML entities as community lyrics carry them (`don&#x27;t`, `&amp;`) decoded; unknown
/// entities are left as written.
pub fn decode_entities(s: &str) -> (r: String)
    ensures
        r@ == decoded(s@),
{
    let v = chars_of(s);
    let n = v.len();
    let mut out: Vec<char> = Vec::new();
    let mut p: usize = 0;
    assert(v@.skip(0) == v@);
    while p < n
        invariant
            p <= n,
            n == v@.len(),
            out@ + decoded(v@.skip(p as int)) == decoded(v@),
        decreases n - p,
    {
        let ghost rest = v@.skip(p as int);
        assert(rest == v@.subrange(p as int, n as int));
        proof {
            lemma_find_char(rest, '&');
        }
        match find_char_in(v.as_slice(), p, n, '&') {
            None => {
                let mut i = p;
                let ghost base = out@;
                while i < n
                    invariant
                        p <= i <= n,
                        n == v@.len(),
                        out@ == base + v@.subrange(p as int, i as int),
                    decreases n - i,
                {
                    out.push(v[i]);
                    i = i + 1;
                    assert(out@ == base + v@.subrange(p as int, i as int));
                }
                proof {
                    assert(decoded(rest) == rest);
                    assert(v@.skip(n as int) == Seq::<char>::empty());
                    assert(decoded(v@.skip(n as int)) == Seq::<char>::empty());
                }
                p = n;
            },
            Some(amp) => {
                let ghost a = amp - p;
                let ghost after = rest.skip(a);
                assert(after == v@.subrange(amp as int, n as int));
                let mut i = p;
                let ghost base = out@;
                while i < amp
                    invariant
                        p <= i <= amp <= n,
                        n == v@.len(),
                        out@ == base + v@.subrange(p as int, i as int),
                    decreases amp - i,
                {
                    out.push(v[i]);
                    i = i + 1;
                    assert(out@ == base + v@.subrange(p as int, i as int));
                }
                assert(rest.take(a) == v@.subrange(p as int, amp as int));
                proof {
                    lemma_find_char(after, ';');
                }
                let semi = find_char_in(v.as_slice(), amp, n, ';');
                let dec: Option<(char, usize)> = match semi {
                    Some(e) => if e - amp <= 10 && e > amp {
                        match entity_char_at(v.as_slice(), amp + 1, e) {
                            Some(ch) => Some((ch, e)),
                            None => None,
                        }
                    } else {
                        None
                    },
                    None => None,
                };
                proof {
                    match semi {
                        Some(e) => {
                            assert(after.subrange(1, e - amp) == v@.subrange(amp + 1, e as int));
                        },
                        None => {},
                    }
                }
                match dec {
                    Some((ch, e)) => {
                        out.push(ch);
                        proof {
                            assert(entity_at(after) == Some((ch, (e - amp) as int)));
                            assert(after.skip(e - amp + 1) == v@.skip(e + 1));
                            assert(decoded(rest) == rest.take(a).push(ch) + decoded(v@.skip(e + 1)));
                            assert(out@ + decoded(v@.skip(e + 1)) == base + decoded(rest));
                        }
                        p = e + 1;
                    },
                    None => {
                        out.push('&');
                        proof {
                            assert(entity_at(after) is None);
                            assert(after.skip(1) == v@.skip(amp + 1));
                            assert(decoded(rest) == rest.take(a).push('&') + decoded(
                                v@.skip(amp + 1),
                            ));
                            assert(out@ + decoded(v@.skip(amp + 1)) == base + decoded(rest));
                        }
                        p = amp + 1;
                    },
                }
            },
        }
    }
    proof {
        assert(v@.skip(n as int) == Seq::<char>::empty());
        assert(decoded(Seq::<char>::empty()) == Seq::<char>::empty());
        assert(out@ + Seq::<char>::empty() == out@);
    }
    string_of(out.as_slice(), 0, out.len())
}

} // verus!
