//! Character-level text primitives shared by the parsers: Unicode whitespace, trimming, line
//! splitting, searching and unsigned-integer parsing, each stated over `Seq<char>` exactly as the
//! corresponding `str` method behaves.
use vstd::prelude::*;

verus! {

/// `char::is_whitespace`: the Unicode `White_Space` property.
pub open spec fn is_ws(c: char) -> bool {
    ||| ('\u{9}' <= c && c <= '\u{d}')
    ||| c == ' '
    ||| c == '\u{85}'
    ||| c == '\u{a0}'
    ||| c == '\u{1680}'
    ||| ('\u{2000}' <= c && c <= '\u{200a}')
    ||| c == '\u{2028}'
    ||| c == '\u{2029}'
    ||| c == '\u{202f}'
    ||| c == '\u{205f}'
    ||| c == '\u{3000}'
}

pub fn is_ws_char(c: char) -> (r: bool)
    ensures
        r == is_ws(c),
{
    ('\u{9}' <= c && c <= '\u{d}') || c == ' ' || c == '\u{85}' || c == '\u{a0}' || c == '\u{1680}'
        || ('\u{2000}' <= c && c <= '\u{200a}') || c == '\u{2028}' || c == '\u{2029}' || c
        == '\u{202f}' || c == '\u{205f}' || c == '\u{3000}'
}

/// `str::trim_start`.
pub open spec fn trim_start(s: Seq<char>) -> Seq<char>
    decreases s.len(),
{
    if s.len() > 0 && is_ws(s[0]) {
        trim_start(s.drop_first())
    } else {
        s
    }
}

/// `str::trim_end`.
pub open spec fn trim_end(s: Seq<char>) -> Seq<char>
    decreases s.len(),
{
    if s.len() > 0 && is_ws(s.last()) {
        trim_end(s.drop_last())
    } else {
        s
    }
}

/// `str::trim`.
pub open spec fn trim(s: Seq<char>) -> Seq<char> {
    trim_end(trim_start(s))
}

/// Index of the first `c` in `s`.
pub open spec fn find_char(s: Seq<char>, c: char) -> Option<int>
    decreases s.len(),
{
    if s.len() == 0 {
        None
    } else if s[0] == c {
        Some(0)
    } else {
        match find_char(s.drop_first(), c) {
            Some(i) => Some(i + 1),
            None => None,
        }
    }
}

pub proof fn lemma_find_char(s: Seq<char>, c: char)
    ensures
        find_char(s, c) matches Some(i) ==> 0 <= i < s.len() && s[i] == c && forall|j: int|
            0 <= j < i ==> s[j] != c,
        find_char(s, c) is None ==> forall|j: int| 0 <= j < s.len() ==> s[j] != c,
    decreases s.len(),
{
    if s.len() > 0 {
        lemma_find_char(s.drop_first(), c);
        if s[0] != c {
            assert forall|j: int| 1 <= j < s.len() implies s[j] == s.drop_first()[j - 1] by {}
        }
    }
}

/// `s` starts with `p`.
pub open spec fn starts_with(s: Seq<char>, p: Seq<char>) -> bool {
    p.len() <= s.len() && s.take(p.len() as int) == p
}

/// `s` contains `p` at `i`.
pub open spec fn occurs_at(s: Seq<char>, p: Seq<char>, i: int) -> bool {
    0 <= i && i + p.len() <= s.len() && s.subrange(i, i + p.len()) == p
}

/// `str::find` for a string pattern: the first index where `p` occurs.
pub open spec fn find_str(s: Seq<char>, p: Seq<char>) -> Option<int> {
    if exists|i: int| occurs_at(s, p, i) {
        Some(choose_first(s, p))
    } else {
        None
    }
}

/// The least index at which `p` occurs in `s` (meaningful when it occurs at all).
pub open spec fn choose_first(s: Seq<char>, p: Seq<char>) -> int {
    choose|i: int| occurs_at(s, p, i) && forall|j: int| 0 <= j < i ==> !occurs_at(s, p, j)
}

/// `s` contains `p` somewhere.
pub open spec fn contains_str(s: Seq<char>, p: Seq<char>) -> bool {
    exists|i: int| occurs_at(s, p, i)
}

/// A line as `str::lines` yields it: one trailing `'\r'` dropped.
pub open spec fn strip_cr(s: Seq<char>) -> Seq<char> {
    if s.len() > 0 && s.last() == '\r' {
        s.drop_last()
    } else {
        s
    }
}

/// `str::lines`: split at `'\n'` (a `"\r\n"` ending drops the `'\r'` too), with no empty line for
/// a final line ending.
pub open spec fn str_lines(s: Seq<char>) -> Seq<Seq<char>>
    decreases s.len(),
{
    if s.len() == 0 {
        Seq::empty()
    } else {
        proof {
            lemma_find_char(s, '\n');
        }
        match find_char(s, '\n') {
            Some(i) => seq![strip_cr(s.take(i))] + str_lines(s.skip(i + 1)),
            None => seq![s],
        }
    }
}

pub open spec fn is_digit(c: char) -> bool {
    '0' <= c && c <= '9'
}

pub open spec fn all_digits(s: Seq<char>) -> bool {
    forall|i: int| 0 <= i < s.len() ==> is_digit(#[trigger] s[i])
}

pub open spec fn digit_value(c: char) -> int {
    (c as int) - ('0' as int)
}

/// The decimal value of a run of digits.
pub open spec fn decimal_value(s: Seq<char>) -> int
    decreases s.len(),
{
    if s.len() == 0 {
        0
    } else {
        decimal_value(s.drop_last()) * 10 + digit_value(s.last())
    }
}

/// The digits an unsigned `FromStr` reads: everything after an optional leading `'+'`.
pub open spec fn unsigned_body(s: Seq<char>) -> Seq<char> {
    if s.len() > 0 && s[0] == '+' {
        s.drop_first()
    } else {
        s
    }
}

/// `u64::from_str`: an optional `'+'`, then at least one decimal digit, within range.
pub open spec fn parse_u64(s: Seq<char>) -> Option<u64> {
    let b = unsigned_body(s);
    if b.len() > 0 && all_digits(b) && decimal_value(b) <= u64::MAX {
        Some(decimal_value(b) as u64)
    } else {
        None
    }
}

pub proof fn lemma_decimal_nonneg(s: Seq<char>)
    requires
        all_digits(s),
    ensures
        decimal_value(s) >= 0,
    decreases s.len(),
{
    if s.len() > 0 {
        assert(all_digits(s.drop_last())) by {
            assert forall|i: int| 0 <= i < s.drop_last().len() implies is_digit(
                #[trigger] s.drop_last()[i],
            ) by {
                assert(s.drop_last()[i] == s[i]);
            }
        }
        lemma_decimal_nonneg(s.drop_last());
        assert(is_digit(s[s.len() - 1]));
    }
}

/// A digit run is worth at least as much as any prefix of it.
pub proof fn lemma_decimal_prefix_le(s: Seq<char>, k: int)
    requires
        all_digits(s),
        0 <= k <= s.len(),
    ensures
        decimal_value(s.take(k)) <= decimal_value(s),
    decreases s.len(),
{
    if k < s.len() {
        let d = s.drop_last();
        assert(all_digits(d)) by {
            assert forall|i: int| 0 <= i < d.len() implies is_digit(#[trigger] d[i]) by {
                assert(d[i] == s[i]);
            }
        }
        lemma_decimal_prefix_le(d, k);
        assert(d.take(k) == s.take(k));
        lemma_decimal_nonneg(d);
        assert(is_digit(s[s.len() - 1]));
    } else {
        assert(s.take(k) == s);
    }
}

/// `u64::from_str` on `s[lo..hi]`.
pub fn parse_u64_chars(s: &[char], lo: usize, hi: usize) -> (r: Option<u64>)
    requires
        lo <= hi <= s@.len(),
    ensures
        r == parse_u64(s@.subrange(lo as int, hi as int)),
{
    let ghost t = s@.subrange(lo as int, hi as int);
    let mut i: usize = lo;
    if lo < hi && s[lo] == '+' {
        i = lo + 1;
    }
    let start = i;
    let ghost b = unsigned_body(t);
    assert(b == s@.subrange(start as int, hi as int));
    if start == hi {
        return None;
    }
    let mut acc: u64 = 0;
    while i < hi
        invariant
            lo <= start <= i <= hi <= s@.len(),
            t == s@.subrange(lo as int, hi as int),
            b == s@.subrange(start as int, hi as int),
            b == unsigned_body(t),
            all_digits(b.take(i - start)),
            acc == decimal_value(b.take(i - start)),
        decreases hi - i,
    {
        let c = s[i];
        if !('0' <= c && c <= '9') {
            assert(b[i - start] == c);
            assert(!is_digit(b[i - start]));
            return None;
        }
        let ghost pre = b.take(i - start);
        let ghost post = b.take(i - start + 1);
        assert(post.drop_last() == pre);
        assert(post.last() == c);
        assert(all_digits(post)) by {
            assert forall|j: int| 0 <= j < post.len() implies is_digit(#[trigger] post[j]) by {
                if j < post.len() - 1 {
                    assert(post[j] == pre[j]);
                }
            }
        }
        let d = (c as u32 - '0' as u32) as u64;
        assert(d == digit_value(c));
        if acc > (u64::MAX - d) / 10 {
            proof {
                assert(acc * 10 + d > u64::MAX) by (nonlinear_arith)
                    requires
                        acc > (u64::MAX - d) / 10,
                        d <= 9,
                ;
                assert(decimal_value(post) == acc * 10 + d);
                if all_digits(b) {
                    lemma_decimal_prefix_le(b, i - start + 1);
                }
            }
            return None;
        }
        assert(acc * 10 + d <= u64::MAX) by (nonlinear_arith)
            requires
                acc <= (u64::MAX - d) / 10,
                d <= 9,
        ;
        acc = acc * 10 + d;
        i = i + 1;
    }
    assert(b.take(hi - start) == b);
    Some(acc)
}

/// A string trims to nothing exactly when it is all whitespace.
pub proof fn lemma_trim_empty(s: Seq<char>)
    ensures
        (trim(s).len() == 0) <==> (forall|i: int| 0 <= i < s.len() ==> is_ws(#[trigger] s[i])),
{
    lemma_trim_start_shape(s);
    let t = trim_start(s);
    lemma_trim_end_keeps_first(t);
    if trim(s).len() == 0 {
        assert(t.len() == 0);
    } else {
        assert(t.len() > 0 && !is_ws(t[0]));
        let k = s.len() - t.len();
        assert(s[k] == t[0]);
    }
}

/// `trim_start(s)` is a suffix of `s`, everything before it is whitespace, and it does not open
/// with whitespace.
pub proof fn lemma_trim_start_shape(s: Seq<char>)
    ensures
        trim_start(s).len() <= s.len(),
        trim_start(s) == s.skip(s.len() - trim_start(s).len()),
        forall|i: int| 0 <= i < s.len() - trim_start(s).len() ==> is_ws(#[trigger] s[i]),
        trim_start(s).len() > 0 ==> !is_ws(trim_start(s)[0]),
    decreases s.len(),
{
    if s.len() > 0 && is_ws(s[0]) {
        lemma_trim_start_shape(s.drop_first());
        let t = trim_start(s.drop_first());
        assert(s.drop_first().skip(s.drop_first().len() - t.len()) == s.skip(s.len() - t.len()));
        assert forall|i: int| 0 <= i < s.len() - t.len() implies is_ws(#[trigger] s[i]) by {
            if i > 0 {
                assert(s[i] == s.drop_first()[i - 1]);
            }
        }
    } else {
        assert(s.skip(0) == s);
    }
}

/// Trimming the end of a string that opens with a non-space leaves it non-empty.
pub proof fn lemma_trim_end_keeps_first(t: Seq<char>)
    ensures
        t.len() > 0 && !is_ws(t[0]) ==> trim_end(t).len() > 0,
    decreases t.len(),
{
    if t.len() > 1 && is_ws(t.last()) {
        lemma_trim_end_keeps_first(t.drop_last());
    }
}

/// Whether `s[lo..hi]` holds anything but whitespace.
pub fn has_non_ws(s: &[char], lo: usize, hi: usize) -> (r: bool)
    requires
        lo <= hi <= s@.len(),
    ensures
        r == (trim(s@.subrange(lo as int, hi as int)).len() > 0),
{
    let mut i = lo;
    while i < hi
        invariant
            lo <= i <= hi <= s@.len(),
            forall|j: int| lo <= j < i ==> is_ws(#[trigger] s@[j]),
        decreases hi - i,
    {
        if !is_ws_char(s[i]) {
            proof {
                lemma_trim_empty(s@.subrange(lo as int, hi as int));
                assert(s@.subrange(lo as int, hi as int)[i - lo] == s@[i as int]);
            }
            return true;
        }
        i = i + 1;
    }
    proof {
        lemma_trim_empty(s@.subrange(lo as int, hi as int));
        assert forall|j: int| 0 <= j < hi - lo implies is_ws(
            #[trigger] s@.subrange(lo as int, hi as int)[j],
        ) by {
            assert(s@.subrange(lo as int, hi as int)[j] == s@[lo + j]);
        }
    }
    false
}

/// Where the non-whitespace of `s[lo..hi]` begins.
pub fn skip_ws(s: &[char], lo: usize, hi: usize) -> (r: usize)
    requires
        lo <= hi <= s@.len(),
    ensures
        lo <= r <= hi,
        s@.subrange(r as int, hi as int) == trim_start(s@.subrange(lo as int, hi as int)),
{
    let mut i = lo;
    while i < hi && is_ws_char(s[i])
        invariant
            lo <= i <= hi <= s@.len(),
            trim_start(s@.subrange(i as int, hi as int)) == trim_start(
                s@.subrange(lo as int, hi as int),
            ),
        decreases hi - i,
    {
        assert(s@.subrange(i as int, hi as int).drop_first() == s@.subrange(i + 1, hi as int));
        i = i + 1;
    }
    proof {
        lemma_trim_start_stops(s@.subrange(i as int, hi as int));
    }
    i
}

/// `trim_start` of a string that does not open with whitespace is the string itself.
pub proof fn lemma_trim_start_stops(s: Seq<char>)
    ensures
        (s.len() == 0 || !is_ws(s[0])) ==> trim_start(s) == s,
{
}

/// Where the non-whitespace of `s[lo..hi]` ends.
pub fn skip_ws_back(s: &[char], lo: usize, hi: usize) -> (r: usize)
    requires
        lo <= hi <= s@.len(),
    ensures
        lo <= r <= hi,
        s@.subrange(lo as int, r as int) == trim_end(s@.subrange(lo as int, hi as int)),
{
    let mut j = hi;
    while j > lo && is_ws_char(s[j - 1])
        invariant
            lo <= j <= hi <= s@.len(),
            trim_end(s@.subrange(lo as int, j as int)) == trim_end(
                s@.subrange(lo as int, hi as int),
            ),
        decreases j,
    {
        assert(s@.subrange(lo as int, j as int).drop_last() == s@.subrange(lo as int, j - 1));
        j = j - 1;
    }
    j
}

/// The first `c` in `s[lo..hi]`, as an index into `s`.
pub fn find_char_in(s: &[char], lo: usize, hi: usize, c: char) -> (r: Option<usize>)
    requires
        lo <= hi <= s@.len(),
    ensures
        match find_char(s@.subrange(lo as int, hi as int), c) {
            Some(i) => r == Some((lo + i) as usize),
            None => r is None,
        },
        r matches Some(k) ==> lo <= k < hi && s@[k as int] == c,
{
    let mut i = lo;
    while i < hi
        invariant
            lo <= i <= hi <= s@.len(),
            forall|j: int| lo <= j < i ==> s@[j] != c,
        decreases hi - i,
    {
        if s[i] == c {
            proof {
                lemma_find_char(s@.subrange(lo as int, hi as int), c);
                let sub = s@.subrange(lo as int, hi as int);
                match find_char(sub, c) {
                    Some(k) => {
                        assert(sub[i - lo] == c);
                        assert(!(k < i - lo)) by {
                            if k < i - lo {
                                assert(sub[k] == s@[lo + k]);
                            }
                        }
                        assert(!(k > i - lo));
                    },
                    None => {
                        assert(sub[i - lo] == c);
                    },
                }
            }
            return Some(i);
        }
        i = i + 1;
    }
    proof {
        lemma_find_char(s@.subrange(lo as int, hi as int), c);
        let sub = s@.subrange(lo as int, hi as int);
        if let Some(k) = find_char(sub, c) {
            assert(sub[k] == s@[lo + k]);
        }
    }
    None
}

/// The spans of `str::lines(s)`: `(start, end)` index pairs into `s`.
pub fn line_spans(s: &[char]) -> (r: Vec<(usize, usize)>)
    ensures
        r@.len() == str_lines(s@).len(),
        forall|i: int|
            0 <= i < r@.len() ==> {
                let (a, b) = #[trigger] r@[i];
                a <= b <= s@.len() && s@.subrange(a as int, b as int) == str_lines(s@)[i]
            },
{
    let n = s.len();
    let mut r: Vec<(usize, usize)> = Vec::new();
    let mut pos: usize = 0;
    assert(s@.skip(0) == s@);
    while pos < n
        invariant
            n == s@.len(),
            pos <= n,
            r@.len() + str_lines(s@.skip(pos as int)).len() == str_lines(s@).len(),
            forall|i: int|
                0 <= i < r@.len() ==> {
                    let (a, b) = #[trigger] r@[i];
                    a <= b <= s@.len() && s@.subrange(a as int, b as int) == str_lines(s@)[i]
                },
            forall|i: int|
                0 <= i < str_lines(s@.skip(pos as int)).len() ==> str_lines(s@)[r@.len() + i]
                    == #[trigger] str_lines(s@.skip(pos as int))[i],
        decreases n - pos,
    {
        let ghost rest = s@.skip(pos as int);
        assert(rest == s@.subrange(pos as int, n as int));
        let found = find_char_in(s, pos, n, '\n');
        match found {
            Some(k) => {
                let end = if k > pos && s[k - 1] == '\r' {
                    k - 1
                } else {
                    k
                };
                proof {
                    let i = (k - pos) as int;
                    lemma_find_char(rest, '\n');
                    assert(find_char(rest, '\n') == Some(i));
                    assert(rest.len() > 0);
                    assert(rest.take(i) == s@.subrange(pos as int, k as int));
                    assert(rest.skip(i + 1) == s@.skip(k + 1));
                    assert(str_lines(rest) == seq![strip_cr(rest.take(i))] + str_lines(
                        s@.skip(k + 1),
                    ));
                    assert(s@.subrange(pos as int, end as int) == strip_cr(rest.take(i)));
                    assert(str_lines(rest)[0] == s@.subrange(pos as int, end as int));
                    assert forall|j: int| 0 <= j < str_lines(s@.skip(k + 1)).len() implies str_lines(
                        s@,
                    )[r@.len() + 1 + j] == #[trigger] str_lines(s@.skip(k + 1))[j] by {
                        assert(str_lines(rest)[j + 1] == str_lines(s@.skip(k + 1))[j]);
                    }
                }
                r.push((pos, end));
                pos = k + 1;
            },
            None => {
                proof {
                    assert(find_char(rest, '\n') is None);
                    assert(rest.len() > 0);
                    assert(str_lines(rest) == seq![rest]);
                    assert(str_lines(rest)[0] == s@.subrange(pos as int, n as int));
                    assert(s@.skip(n as int).len() == 0);
                    assert(str_lines(s@.skip(n as int)).len() == 0);
                }
                r.push((pos, n));
                pos = n;
            },
        }
    }
    r
}

/// Whether `p` occurs at `i` in `s`.
pub fn matches_at(s: &[char], i: usize, p: &[char]) -> (r: bool)
    ensures
        r == occurs_at(s@, p@, i as int),
{
    if i > s.len() || p.len() > s.len() - i {
        return false;
    }
    let n = s.len();
    let mut k: usize = 0;
    while k < p.len()
        invariant
            n == s@.len(),
            i + p@.len() <= s@.len(),
            k <= p@.len(),
            forall|j: int| 0 <= j < k ==> s@[i + j] == p@[j],
        decreases p.len() - k,
    {
        assert(i + k < n);
        if s[i + k] != p[k] {
            assert(s@.subrange(i as int, i + p@.len())[k as int] != p@[k as int]);
            return false;
        }
        k = k + 1;
    }
    assert(s@.subrange(i as int, i + p@.len()) =~= p@);
    true
}

/// The first index at or after `from` where `p` occurs in `s`.
pub fn find_from(s: &[char], from: usize, p: &[char]) -> (r: Option<usize>)
    requires
        from <= s@.len(),
    ensures
        match r {
            Some(i) => from <= i && occurs_at(s@, p@, i as int) && forall|j: int|
                from <= j < i ==> !occurs_at(s@, p@, j),
            None => forall|j: int| from <= j ==> !occurs_at(s@, p@, j),
        },
{
    let mut i = from;
    while i < s.len()
        invariant
            from <= i <= s@.len(),
            forall|j: int| from <= j < i ==> !occurs_at(s@, p@, j),
        decreases s.len() - i,
    {
        if matches_at(s, i, p) {
            return Some(i);
        }
        i = i + 1;
    }
    if matches_at(s, i, p) {
        return Some(i);
    }
    None
}

/// Whether `p` occurs anywhere in `s`.
pub fn contains_chars(s: &[char], p: &[char]) -> (r: bool)
    ensures
        r == contains_str(s@, p@),
{
    match find_from(s, 0, p) {
        Some(_) => true,
        None => {
            assert(!contains_str(s@, p@)) by {
                if contains_str(s@, p@) {
                    let j = choose|j: int| occurs_at(s@, p@, j);
                    assert(!occurs_at(s@, p@, j));
                }
            }
            false
        },
    }
}

/// Whether `p` occurs anywhere in `s`.
pub fn str_contains(s: &str, p: &str) -> (r: bool)
    ensures
        r == contains_str(s@, p@),
{
    let a = chars_of(s);
    let b = chars_of(p);
    contains_chars(a.as_slice(), b.as_slice())
}

/// `s` followed by `t`.
pub fn concat_str(s: &str, t: &str) -> (r: String)
    ensures
        r@ == s@ + t@,
{
    let mut r = String::new();
    let a = chars_of(s);
    let b = chars_of(t);
    let mut i: usize = 0;
    while i < a.len()
        invariant
            a@ == s@,
            i <= a@.len(),
            r@ == a@.take(i as int),
        decreases a.len() - i,
    {
        push_char(&mut r, a[i]);
        i = i + 1;
        assert(r@ == a@.take(i as int));
    }
    let mut j: usize = 0;
    while j < b.len()
        invariant
            a@ == s@,
            b@ == t@,
            j <= b@.len(),
            r@ == a@ + b@.take(j as int),
        decreases b.len() - j,
    {
        push_char(&mut r, b[j]);
        j = j + 1;
        assert(r@ == a@ + b@.take(j as int));
    }
    assert(a@.take(a@.len() as int) == a@);
    assert(b@.take(b@.len() as int) == b@);
    r
}

/// `str::split(c)`: the pieces between occurrences of `c` (always at least one).
pub open spec fn split_char(s: Seq<char>, c: char) -> Seq<Seq<char>>
    decreases s.len(),
{
    proof {
        lemma_find_char(s, c);
    }
    match find_char(s, c) {
        Some(i) => seq![s.take(i)] + split_char(s.skip(i + 1), c),
        None => seq![s],
    }
}

/// `split` always yields at least one piece.
pub proof fn lemma_split_nonempty(s: Seq<char>, c: char)
    ensures
        split_char(s, c).len() >= 1,
{
}

/// The spans of `s[lo..hi].split(c)`, as index pairs into `s`.
pub fn split_spans(s: &[char], lo: usize, hi: usize, c: char) -> (r: Vec<(usize, usize)>)
    requires
        lo <= hi <= s@.len(),
    ensures
        r@.len() == split_char(s@.subrange(lo as int, hi as int), c).len(),
        forall|i: int|
            0 <= i < r@.len() ==> {
                let (a, b) = #[trigger] r@[i];
                lo <= a <= b <= hi && s@.subrange(a as int, b as int) == split_char(
                    s@.subrange(lo as int, hi as int),
                    c,
                )[i]
            },
{
    let ghost whole = split_char(s@.subrange(lo as int, hi as int), c);
    let mut r: Vec<(usize, usize)> = Vec::new();
    let mut pos: usize = lo;
    loop
        invariant
            lo <= pos <= hi <= s@.len(),
            whole == split_char(s@.subrange(lo as int, hi as int), c),
            r@.len() + split_char(s@.subrange(pos as int, hi as int), c).len() == whole.len(),
            forall|i: int|
                0 <= i < r@.len() ==> {
                    let (a, b) = #[trigger] r@[i];
                    lo <= a <= b <= hi && s@.subrange(a as int, b as int) == whole[i]
                },
            forall|i: int|
                0 <= i < split_char(s@.subrange(pos as int, hi as int), c).len() ==> whole[r@.len()
                    + i] == #[trigger] split_char(s@.subrange(pos as int, hi as int), c)[i],
        decreases hi - pos,
    {
        let ghost rest = s@.subrange(pos as int, hi as int);
        proof {
            lemma_find_char(rest, c);
        }
        match find_char_in(s, pos, hi, c) {
            Some(k) => {
                proof {
                    let i = (k - pos) as int;
                    assert(find_char(rest, c) == Some(i));
                    assert(rest.take(i) == s@.subrange(pos as int, k as int));
                    assert(rest.skip(i + 1) == s@.subrange(k + 1, hi as int));
                    let tail = split_char(s@.subrange(k + 1, hi as int), c);
                    assert(split_char(rest, c) == seq![rest.take(i)] + tail);
                    assert(split_char(rest, c)[0] == s@.subrange(pos as int, k as int));
                    assert forall|j: int| 0 <= j < tail.len() implies whole[r@.len() + 1 + j]
                        == #[trigger] tail[j] by {
                        assert(split_char(rest, c)[j + 1] == tail[j]);
                    }
                }
                r.push((pos, k));
                pos = k + 1;
            },
            None => {
                proof {
                    assert(split_char(rest, c) == seq![rest]);
                    assert(whole[r@.len() as int] == split_char(rest, c)[0]);
                }
                r.push((pos, hi));
                return r;
            },
        }
    }
}

/// The pieces joined with `sep` between them (`[&str]::join`).
pub open spec fn join_with(ps: Seq<Seq<char>>, sep: Seq<char>) -> Seq<char>
    decreases ps.len(),
{
    if ps.len() == 0 {
        Seq::empty()
    } else if ps.len() == 1 {
        ps[0]
    } else {
        join_with(ps.drop_last(), sep) + sep + ps.last()
    }
}

/// A digit of the given radix (10 or 16), as `char::to_digit` reads it.
pub open spec fn is_radix_digit(c: char, radix: int) -> bool {
    ||| ('0' <= c && c <= '9')
    ||| (radix == 16 && (('a' <= c && c <= 'f') || ('A' <= c && c <= 'F')))
}

pub open spec fn radix_digit_value(c: char) -> int {
    if '0' <= c && c <= '9' {
        (c as int) - ('0' as int)
    } else if 'a' <= c && c <= 'f' {
        (c as int) - ('a' as int) + 10
    } else {
        (c as int) - ('A' as int) + 10
    }
}

pub open spec fn all_radix(s: Seq<char>, radix: int) -> bool {
    forall|i: int| 0 <= i < s.len() ==> is_radix_digit(#[trigger] s[i], radix)
}

/// The value of a run of digits in the radix.
pub open spec fn radix_value(s: Seq<char>, radix: int) -> int
    decreases s.len(),
{
    if s.len() == 0 {
        0
    } else {
        radix_value(s.drop_last(), radix) * radix + radix_digit_value(s.last())
    }
}

/// `from_str_radix` for an unsigned type whose largest value is `max`: an optional `'+'`, then at
/// least one digit, within range.
pub open spec fn parse_uint(s: Seq<char>, radix: int, max: int) -> Option<int> {
    let b = unsigned_body(s);
    if b.len() > 0 && all_radix(b, radix) && radix_value(b, radix) <= max {
        Some(radix_value(b, radix))
    } else {
        None
    }
}

proof fn lemma_radix_nonneg(s: Seq<char>, radix: int)
    requires
        all_radix(s, radix),
        radix == 10 || radix == 16,
    ensures
        radix_value(s, radix) >= 0,
    decreases s.len(),
{
    if s.len() > 0 {
        let d = s.drop_last();
        assert(all_radix(d, radix)) by {
            assert forall|i: int| 0 <= i < d.len() implies is_radix_digit(#[trigger] d[i], radix) by {
                assert(d[i] == s[i]);
            }
        }
        lemma_radix_nonneg(d, radix);
        assert(is_radix_digit(s[s.len() - 1], radix));
        assert(radix_value(d, radix) * radix >= 0) by (nonlinear_arith)
            requires
                radix_value(d, radix) >= 0,
                radix >= 0,
        ;
    }
}

proof fn lemma_radix_prefix_le(s: Seq<char>, k: int, radix: int)
    requires
        all_radix(s, radix),
        radix == 10 || radix == 16,
        0 <= k <= s.len(),
    ensures
        radix_value(s.take(k), radix) <= radix_value(s, radix),
    decreases s.len(),
{
    if k < s.len() {
        let d = s.drop_last();
        assert(all_radix(d, radix)) by {
            assert forall|i: int| 0 <= i < d.len() implies is_radix_digit(#[trigger] d[i], radix) by {
                assert(d[i] == s[i]);
            }
        }
        lemma_radix_prefix_le(d, k, radix);
        assert(d.take(k) == s.take(k));
        lemma_radix_nonneg(d, radix);
        assert(is_radix_digit(s[s.len() - 1], radix));
        assert(radix_value(d, radix) <= radix_value(d, radix) * radix) by (nonlinear_arith)
            requires
                radix_value(d, radix) >= 0,
                radix >= 1,
        ;
    } else {
        assert(s.take(k) == s);
    }
}

/// `from_str_radix` (radix 10 or 16) into an unsigned type whose largest value is `max`, on
/// `s[lo..hi]`.
pub fn parse_uint_chars(s: &[char], lo: usize, hi: usize, radix: u32, max: u64) -> (r: Option<u64>)
    requires
        lo <= hi <= s@.len(),
        radix == 10 || radix == 16,
    ensures
        match parse_uint(s@.subrange(lo as int, hi as int), radix as int, max as int) {
            Some(v) => r == Some(v as u64) && 0 <= v <= max,
            None => r is None,
        },
{
    let ghost t = s@.subrange(lo as int, hi as int);
    let mut i: usize = lo;
    if lo < hi && s[lo] == '+' {
        i = lo + 1;
    }
    let start = i;
    let ghost b = unsigned_body(t);
    assert(b == s@.subrange(start as int, hi as int));
    if start == hi {
        return None;
    }
    let mut acc: u64 = 0;
    while i < hi
        invariant
            lo <= start <= i <= hi <= s@.len(),
            radix == 10 || radix == 16,
            t == s@.subrange(lo as int, hi as int),
            b == s@.subrange(start as int, hi as int),
            b == unsigned_body(t),
            all_radix(b.take(i - start), radix as int),
            acc == radix_value(b.take(i - start), radix as int),
            acc <= max,
        decreases hi - i,
    {
        let c = s[i];
        let ok = ('0' <= c && c <= '9') || (radix == 16 && (('a' <= c && c <= 'f') || ('A' <= c
            && c <= 'F')));
        if !ok {
            assert(b[i - start] == c);
            assert(!is_radix_digit(b[i - start], radix as int));
            return None;
        }
        let ghost pre = b.take(i - start);
        let ghost post = b.take(i - start + 1);
        assert(post.drop_last() == pre);
        assert(post.last() == c);
        assert(all_radix(post, radix as int)) by {
            assert forall|j: int| 0 <= j < post.len() implies is_radix_digit(
                #[trigger] post[j],
                radix as int,
            ) by {
                if j < post.len() - 1 {
                    assert(post[j] == pre[j]);
                }
            }
        }
        let d: u64 = if '0' <= c && c <= '9' {
            (c as u32 - '0' as u32) as u64
        } else if 'a' <= c && c <= 'f' {
            (c as u32 - 'a' as u32 + 10) as u64
        } else {
            (c as u32 - 'A' as u32 + 10) as u64
        };
        assert(d == radix_digit_value(c));
        let rr = radix as u64;
        if d > max || acc > (max - d) / rr {
            proof {
                if d <= max {
                    assert(acc * rr + d > max) by (nonlinear_arith)
                        requires
                            acc > (max - d) / (rr as int),
                            rr >= 1,
                            d <= max,
                    ;
                } else {
                    assert(acc * rr >= 0) by (nonlinear_arith)
                        requires
                            acc >= 0,
                            rr >= 1,
                    ;
                }
                assert(radix_value(post, radix as int) == acc * rr + d);
                if all_radix(b, radix as int) {
                    lemma_radix_prefix_le(b, i - start + 1, radix as int);
                }
            }
            return None;
        }
        assert(acc * rr + d <= max) by (nonlinear_arith)
            requires
                acc <= (max - d) / (rr as int),
                rr >= 1,
                d <= max,
        ;
        acc = acc * rr + d;
        i = i + 1;
    }
    assert(b.take(hi - start) == b);
    Some(acc)
}

/// `find_str` is the first occurrence.
pub proof fn lemma_find_str_is(s: Seq<char>, p: Seq<char>, i: int)
    requires
        occurs_at(s, p, i),
        forall|j: int| 0 <= j < i ==> !occurs_at(s, p, j),
    ensures
        find_str(s, p) == Some(i),
{
    let k = choose_first(s, p);
    assert(occurs_at(s, p, k) && forall|j: int| 0 <= j < k ==> !occurs_at(s, p, j));
    if k < i {
        assert(!occurs_at(s, p, k));
    } else if i < k {
        assert(!occurs_at(s, p, i));
    }
}

/// Where `find_str` points, `p` occurs, and it is the first place.
pub proof fn lemma_find_str_some(s: Seq<char>, p: Seq<char>)
    ensures
        find_str(s, p) matches Some(i) ==> occurs_at(s, p, i) && 0 <= i && i + p.len() <= s.len()
            && forall|j: int| 0 <= j < i ==> !occurs_at(s, p, j),
{
    if exists|i: int| occurs_at(s, p, i) {
        let w = choose|i: int| occurs_at(s, p, i);
        lemma_least_occurrence(s, p, w);
    }
}

proof fn lemma_least_occurrence(s: Seq<char>, p: Seq<char>, w: int)
    requires
        occurs_at(s, p, w),
    ensures
        exists|i: int| occurs_at(s, p, i) && forall|j: int| 0 <= j < i ==> !occurs_at(s, p, j),
    decreases w,
{
    if exists|j: int| 0 <= j < w && occurs_at(s, p, j) {
        let j = choose|j: int| 0 <= j < w && occurs_at(s, p, j);
        lemma_least_occurrence(s, p, j);
    } else {
        assert(occurs_at(s, p, w) && forall|j: int| 0 <= j < w ==> !occurs_at(s, p, j));
    }
}

/// The first occurrence of `p` in `s[lo..hi]`, as an index into `s`.
pub fn find_str_in(s: &[char], lo: usize, hi: usize, p: &[char]) -> (r: Option<usize>)
    requires
        lo <= hi <= s@.len(),
    ensures
        match find_str(s@.subrange(lo as int, hi as int), p@) {
            Some(k) => r == Some((lo + k) as usize),
            None => r is None,
        },
        r matches Some(i) ==> lo <= i && i + p@.len() <= hi,
{
    let ghost sub = s@.subrange(lo as int, hi as int);
    let m = p.len();
    if m > hi - lo {
        proof {
            lemma_find_str_some(sub, p@);
        }
        return None;
    }
    let last = hi - m;
    let mut i = lo;
    while i < last
        invariant
            lo <= i <= last,
            last == hi - m,
            m == p@.len(),
            m <= hi - lo,
            hi <= s@.len(),
            sub == s@.subrange(lo as int, hi as int),
            forall|j: int| 0 <= j < i - lo ==> !occurs_at(sub, p@, j),
        decreases last - i,
    {
        if matches_at(s, i, p) {
            proof {
                assert(sub.subrange(i - lo, i - lo + m) == s@.subrange(i as int, i + m));
                lemma_find_str_is(sub, p@, i - lo);
            }
            return Some(i);
        }
        proof {
            assert(sub.subrange(i - lo, i - lo + m) == s@.subrange(i as int, i + m));
        }
        i = i + 1;
    }
    proof {
        assert(sub.subrange(i - lo, i - lo + m) == s@.subrange(i as int, i + m));
    }
    if matches_at(s, i, p) {
        proof {
            lemma_find_str_is(sub, p@, i - lo);
        }
        return Some(i);
    }
    proof {
        assert forall|j: int| 0 <= j implies !occurs_at(sub, p@, j) by {
            if j <= i - lo {
            } else {
                assert(j + m > sub.len());
            }
        }
    }
    None
}

/// The characters of a string.
pub fn chars_of(s: &str) -> (v: Vec<char>)
    ensures
        v@ == s@,
{
    let n = s.unicode_len();
    let mut v: Vec<char> = Vec::with_capacity(n);
    let mut i: usize = 0;
    while i < n
        invariant
            n == s@.len(),
            i <= n,
            v@ == s@.take(i as int),
        decreases n - i,
    {
        v.push(s.get_char(i));
        i = i + 1;
        assert(v@ == s@.take(i as int));
    }
    assert(s@.take(n as int) == s@);
    v
}

/// `String::push`: appends one character.
#[verifier::external_body]
fn push_char(s: &mut String, c: char)
    ensures
        final(s)@ == old(s)@.push(c),
{
    s.push(c);
}

/// Whether two strings hold the same characters.
pub fn str_eq(a: &str, b: &str) -> (r: bool)
    ensures
        r == (a@ == b@),
{
    let x = chars_of(a);
    let y = chars_of(b);
    if x.len() != y.len() {
        return false;
    }
    let mut i: usize = 0;
    while i < x.len()
        invariant
            x@ == a@,
            y@ == b@,
            x@.len() == y@.len(),
            i <= x@.len(),
            forall|j: int| 0 <= j < i ==> x@[j] == y@[j],
        decreases x.len() - i,
    {
        if x[i] != y[i] {
            return false;
        }
        i = i + 1;
    }
    assert(x@ =~= y@);
    true
}

/// Appends the characters `v[lo..hi]` to `s`.
pub fn push_chars(s: &mut String, v: &[char], lo: usize, hi: usize)
    requires
        lo <= hi <= v@.len(),
    ensures
        final(s)@ == old(s)@ + v@.subrange(lo as int, hi as int),
{
    let ghost s0 = s@;
    let mut i = lo;
    while i < hi
        invariant
            lo <= i <= hi <= v@.len(),
            s@ == s0 + v@.subrange(lo as int, i as int),
        decreases hi - i,
    {
        push_char(s, v[i]);
        i = i + 1;
        assert(s@ == s0 + v@.subrange(lo as int, i as int));
    }
}

/// The string made of `v[lo..hi]`.
pub fn string_of(v: &[char], lo: usize, hi: usize) -> (s: String)
    requires
        lo <= hi <= v@.len(),
    ensures
        s@ == v@.subrange(lo as int, hi as int),
{
    let mut s = String::new();
    let mut i = lo;
    while i < hi
        invariant
            lo <= i <= hi <= v@.len(),
            s@ == v@.subrange(lo as int, i as int),
        decreases hi - i,
    {
        push_char(&mut s, v[i]);
        i = i + 1;
        assert(s@ == v@.subrange(lo as int, i as int));
    }
    s
}

} // verus!
