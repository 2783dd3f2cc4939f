//! AutoEq's index of headphone corrections: one markdown line per measurement,
//!
//! ```text
//! - [Sennheiser HD 600](./crinacle/GRAS%2043AG-7%20over-ear/Sennheiser%20HD%20600) by crinacle on GRAS 43AG-7
//! ```
//!
//! read as the grammar `^-\s+\[(.+)\]\((\S+)\)\s+by\s+(.+?)(?:\s+on\s+(.+))?$` reads it (greedy
//! name, lazy source). Lines that are not entries are skipped. The path is a run of non-space
//! rather than "up to the first `)`" because names carry parentheses of their own.
use vstd::prelude::*;

use crate::text::{
    chars_of, concat_str, is_ws, is_ws_char, line_spans, skip_ws_back, split_char, split_spans,
    str_lines, string_of, trim_end,
};

verus! {

/// One line of the index.
#[derive(Debug, Clone, PartialEq)]
pub struct IndexEntry {
    /// Relative to `results/`, still percent-encoded, e.g. `oratory1990/over-ear/Sennheiser%20HD%20600`.
    pub path: String,
    pub name: String,
    /// Who measured it: `oratory1990`, `crinacle`, `Rtings` ...
    pub source: String,
    /// The measurement rig, when the source used more than one.
    pub rig: Option<String>,
}

/// A search hit, as the picker lists it.
#[derive(Debug, Clone, PartialEq)]
pub struct Entry {
    pub path: String,
    pub name: String,
    pub source: String,
    pub rig: Option<String>,
    /// The curve is already on disk.
    pub cached: bool,
}

pub struct IndexEntryV {
    pub path: Seq<char>,
    pub name: Seq<char>,
    pub source: Seq<char>,
    pub rig: Option<Seq<char>>,
}

impl View for IndexEntry {
    type V = IndexEntryV;

    open spec fn view(&self) -> IndexEntryV {
        IndexEntryV {
            path: self.path@,
            name: self.name@,
            source: self.source@,
            rig: match self.rig {
                Some(r) => Some(r@),
                None => None,
            },
        }
    }
}

pub open spec fn entries_view(es: Seq<IndexEntry>) -> Seq<IndexEntryV> {
    es.map_values(|e: IndexEntry| e@)
}

/// Where the run of whitespace from `i` ends.
pub open spec fn ws_run_end(l: Seq<char>, i: int) -> int
    decreases l.len() - i,
{
    if 0 <= i < l.len() && is_ws(l[i]) {
        ws_run_end(l, i + 1)
    } else {
        i
    }
}

/// Where the run of non-whitespace from `i` ends.
pub open spec fn word_run_end(l: Seq<char>, i: int) -> int
    decreases l.len() - i,
{
    if 0 <= i < l.len() && !is_ws(l[i]) {
        word_run_end(l, i + 1)
    } else {
        i
    }
}

/// ` on <rig>` running from `e` to the end of the line: where the rig starts.
pub open spec fn rig_from(l: Seq<char>, e: int) -> Option<int> {
    if 0 <= e < l.len() && is_ws(l[e]) {
        let f = ws_run_end(l, e);
        if f + 2 < l.len() && l[f] == 'o' && l[f + 1] == 'n' && is_ws(l[f + 2]) {
            let g = ws_run_end(l, f + 2);
            if g < l.len() {
                Some(g)
            } else {
                None
            }
        } else {
            None
        }
    } else {
        None
    }
}

/// Where the (lazy) source ends, looking from `e`: the first place a ` on <rig>` takes the rest of
/// the line, or the end of the line.
pub open spec fn source_end(l: Seq<char>, e: int) -> int
    decreases l.len() - e,
{
    if e >= l.len() || rig_from(l, e) is Some {
        e
    } else {
        source_end(l, e + 1)
    }
}

/// What follows a name that ends at `k` (the `]`): `(path)`, whitespace, `by`, whitespace, the
/// source and maybe ` on <rig>`, as path, source and rig; none when that is not what follows.
pub open spec fn tail_at(l: Seq<char>, k: int) -> Option<(Seq<char>, Seq<char>, Option<Seq<char>>)> {
    if 0 <= k && k + 2 < l.len() && l[k] == ']' && l[k + 1] == '(' {
        let w = word_run_end(l, k + 2);
        if w < l.len() && w - 1 > k + 2 && l[w - 1] == ')' {
            let f = ws_run_end(l, w);
            if f + 2 < l.len() && l[f] == 'b' && l[f + 1] == 'y' && is_ws(l[f + 2]) {
                let s = ws_run_end(l, f + 2);
                if s < l.len() {
                    let e = source_end(l, s + 1);
                    Some(
                        (
                            l.subrange(k + 2, w - 1),
                            l.subrange(s, e),
                            match rig_from(l, e) {
                                Some(g) => Some(l.skip(g)),
                                None => None,
                            },
                        ),
                    )
                } else {
                    None
                }
            } else {
                None
            }
        } else {
            None
        }
    } else {
        None
    }
}

/// The last `k` from `k` down to `lo` that a whole entry's tail follows: the greedy name's end.
pub open spec fn last_tail(l: Seq<char>, lo: int, k: int) -> Option<int>
    decreases k - lo + 1,
{
    if k < lo {
        None
    } else if tail_at(l, k) is Some {
        Some(k)
    } else {
        last_tail(l, lo, k - 1)
    }
}

/// A leading `./` (any number of them) taken off.
pub open spec fn strip_dot_slash(p: Seq<char>) -> Seq<char>
    decreases p.len(),
{
    if p.len() >= 2 && p[0] == '.' && p[1] == '/' {
        strip_dot_slash(p.skip(2))
    } else {
        p
    }
}

/// An entry's path never keeps a leading `./`: it is relative to `results/` as it stands.
pub proof fn law_path_has_no_dot_slash(p: Seq<char>)
    ensures
        !(strip_dot_slash(p).len() >= 2 && strip_dot_slash(p)[0] == '.' && strip_dot_slash(p)[1]
            == '/'),
    decreases p.len(),
{
    if p.len() >= 2 && p[0] == '.' && p[1] == '/' {
        law_path_has_no_dot_slash(p.skip(2));
    }
}

/// The entry a line (with no trailing whitespace) is, if it is one: `-`, whitespace, `[`, then a
/// name as long as the rest still reads.
pub open spec fn index_line(l: Seq<char>) -> Option<IndexEntryV> {
    if l.len() > 0 && l[0] == '-' {
        let a = ws_run_end(l, 1);
        if a > 1 && a < l.len() && l[a] == '[' {
            match last_tail(l, a + 2, l.len() - 1) {
                Some(k) => match tail_at(l, k) {
                    Some((p, s, r)) => Some(
                        IndexEntryV {
                            path: strip_dot_slash(p),
                            name: l.subrange(a + 1, k),
                            source: s,
                            rig: r,
                        },
                    ),
                    None => None,
                },
                None => None,
            }
        } else {
            None
        }
    } else {
        None
    }
}

/// The entries of the index's lines, each read without its trailing whitespace, in order.
pub open spec fn index_entries(ls: Seq<Seq<char>>) -> Seq<IndexEntryV>
    decreases ls.len(),
{
    if ls.len() == 0 {
        Seq::empty()
    } else {
        index_entries(ls.drop_last()) + match index_line(trim_end(ls.last())) {
            Some(e) => seq![e],
            None => Seq::empty(),
        }
    }
}

fn ws_run_end_at(l: &[char], i: usize) -> (r: usize)
    requires
        i <= l@.len(),
    ensures
        r == ws_run_end(l@, i as int),
        i <= r <= l@.len(),
{
    let mut j = i;
    while j < l.len() && is_ws_char(l[j])
        invariant
            i <= j <= l@.len(),
            ws_run_end(l@, j as int) == ws_run_end(l@, i as int),
        decreases l.len() - j,
    {
        j = j + 1;
    }
    j
}

fn word_run_end_at(l: &[char], i: usize) -> (r: usize)
    requires
        i <= l@.len(),
    ensures
        r == word_run_end(l@, i as int),
        i <= r <= l@.len(),
{
    let mut j = i;
    while j < l.len() && !is_ws_char(l[j])
        invariant
            i <= j <= l@.len(),
            word_run_end(l@, j as int) == word_run_end(l@, i as int),
        decreases l.len() - j,
    {
        j = j + 1;
    }
    j
}

fn rig_from_at(l: &[char], e: usize) -> (r: Option<usize>)
    requires
        e <= l@.len(),
    ensures
        match rig_from(l@, e as int) {
            Some(g) => r is Some && r->0 == g && g < l@.len(),
            None => r is None,
        },
{
    let n = l.len();
    if !(e < n && is_ws_char(l[e])) {
        return None;
    }
    let f = ws_run_end_at(l, e);
    if !(n - f > 2 && l[f] == 'o' && l[f + 1] == 'n' && is_ws_char(l[f + 2])) {
        return None;
    }
    let g = ws_run_end_at(l, f + 2);
    if g < n {
        Some(g)
    } else {
        None
    }
}

fn source_end_at(l: &[char], e0: usize) -> (r: usize)
    requires
        e0 <= l@.len(),
    ensures
        r == source_end(l@, e0 as int),
        e0 <= r <= l@.len(),
{
    let n = l.len();
    let mut e = e0;
    loop
        invariant
            e0 <= e <= n,
            n == l@.len(),
            source_end(l@, e as int) == source_end(l@, e0 as int),
        decreases n - e,
    {
        if e >= n {
            return e;
        }
        match rig_from_at(l, e) {
            Some(_) => {
                return e;
            },
            None => {
                e = e + 1;
            },
        }
    }
}

/// `tail_at` as positions in `l`: the path's, the source's, and where the rig starts.
fn tail_at_exec(l: &[char], k: usize) -> (r: Option<(usize, usize, usize, usize, Option<usize>)>)
    requires
        k <= l@.len(),
    ensures
        match tail_at(l@, k as int) {
            Some((p, s, g)) => r matches Some((pa, pb, sa, sb, gr)) && pa <= pb <= l@.len() && sa
                <= sb <= l@.len() && l@.subrange(pa as int, pb as int) == p && l@.subrange(
                sa as int,
                sb as int,
            ) == s && match g {
                Some(rv) => gr is Some && gr->0 <= l@.len() && l@.skip(gr->0 as int) == rv,
                None => gr is None,
            },
            None => r is None,
        },
{
    let n = l.len();
    if !(k < n && n - k > 2 && l[k] == ']' && l[k + 1] == '(') {
        return None;
    }
    let w = word_run_end_at(l, k + 2);
    if !(w < n && w - 1 > k + 2 && l[w - 1] == ')') {
        return None;
    }
    let f = ws_run_end_at(l, w);
    if !(n - f > 2 && l[f] == 'b' && l[f + 1] == 'y' && is_ws_char(l[f + 2])) {
        return None;
    }
    let s = ws_run_end_at(l, f + 2);
    if s >= n {
        return None;
    }
    let e = source_end_at(l, s + 1);
    let g = rig_from_at(l, e);
    Some((k + 2, w - 1, s, e, g))
}

/// `strip_dot_slash` of `l[a..b]`: where what is left starts.
fn strip_dot_slash_at(l: &[char], a: usize, b: usize) -> (r: usize)
    requires
        a <= b <= l@.len(),
    ensures
        a <= r <= b,
        l@.subrange(r as int, b as int) == strip_dot_slash(l@.subrange(a as int, b as int)),
{
    let mut p = a;
    while b - p > 1 && l[p] == '.' && l[p + 1] == '/'
        invariant
            a <= p <= b <= l@.len(),
            strip_dot_slash(l@.subrange(p as int, b as int)) == strip_dot_slash(
                l@.subrange(a as int, b as int),
            ),
        decreases b - p,
    {
        assert(l@.subrange(p as int, b as int).skip(2) == l@.subrange(p + 2, b as int));
        p = p + 2;
    }
    p
}

/// Where the greedy name that opens at `a` ends, as `last_tail` finds it.
fn name_end(l: &[char], a: usize) -> (r: Option<usize>)
    requires
        1 < a < l@.len(),
    ensures
        match last_tail(l@, a + 2, l@.len() - 1) {
            Some(k) => r is Some && r->0 == k && k < l@.len(),
            None => r is None,
        },
        r is Some ==> r->0 >= a + 2,
{
    let n = l.len();
    let mut k = n - 1;
    loop
        invariant
            n == l@.len(),
            1 < a < n,
            k < n,
            last_tail(l@, a + 2, k as int) == last_tail(l@, a + 2, n - 1),
        decreases k,
    {
        if k <= a || k - a < 2 {
            return None;
        }
        match tail_at_exec(l, k) {
            Some(_) => {
                return Some(k);
            },
            None => {
                k = k - 1;
            },
        }
    }
}

/// The entry the line `l` (with no trailing whitespace) is, as `index_line` says.
fn index_line_at(l: &[char]) -> (r: Option<IndexEntry>)
    ensures
        match index_line(l@) {
            Some(v) => r matches Some(x) && x@ == v,
            None => r is None,
        },
{
    let n = l.len();
    if n == 0 || l[0] != '-' {
        return None;
    }
    let a = ws_run_end_at(l, 1);
    if !(a > 1 && a < n && l[a] == '[') {
        return None;
    }
    let k = match name_end(l, a) {
        Some(k) => k,
        None => {
            return None;
        },
    };
    let found = match tail_at_exec(l, k) {
        Some(t) => t,
        None => {
            return None;
        },
    };
    let (pa, pb, sa, sb, g) = found;
    let ps = strip_dot_slash_at(l, pa, pb);
    let path = string_of(l, ps, pb);
    let name = string_of(l, a + 1, k);
    let source = string_of(l, sa, sb);
    let rig = match g {
        Some(gg) => {
            assert(l@.skip(gg as int) == l@.subrange(gg as int, n as int));
            Some(string_of(l, gg, n))
        },
        None => None,
    };
    Some(IndexEntry { path, name, source, rig })
}

/// The index's entries, one per line that is one, in order.
pub fn parse_index(md: &str) -> (r: Vec<IndexEntry>)
    ensures
        entries_view(r@) == index_entries(str_lines(md@)),
{
    let t = chars_of(md);
    let spans = line_spans(t.as_slice());
    let ghost ls = str_lines(t@);
    let mut out: Vec<IndexEntry> = Vec::new();
    let mut k: usize = 0;
    assert(entries_view(out@) =~= index_entries(ls.take(0)));
    while k < spans.len()
        invariant
            k <= spans@.len(),
            spans@.len() == ls.len(),
            ls == str_lines(t@),
            t@ == md@,
            forall|i: int|
                0 <= i < spans@.len() ==> {
                    let (a, b) = #[trigger] spans@[i];
                    a <= b <= t@.len() && t@.subrange(a as int, b as int) == ls[i]
                },
            entries_view(out@) == index_entries(ls.take(k as int)),
        decreases spans.len() - k,
    {
        let (a, b) = spans[k];
        let e = skip_ws_back(t.as_slice(), a, b);
        let mut line: Vec<char> = Vec::new();
        let mut i = a;
        while i < e
            invariant
                a <= i <= e <= t@.len(),
                line@ == t@.subrange(a as int, i as int),
            decreases e - i,
        {
            line.push(t[i]);
            i = i + 1;
            assert(line@ == t@.subrange(a as int, i as int));
        }
        let ghost before = entries_view(out@);
        let ghost tk = ls.take(k + 1);
        assert(tk.drop_last() == ls.take(k as int));
        assert(tk.last() == ls[k as int]);
        match index_line_at(line.as_slice()) {
            Some(x) => {
                out.push(x);
                assert(entries_view(out@) =~= before + seq![x@]);
            },
            None => {
                assert(before + Seq::<IndexEntryV>::empty() == before);
            },
        }
        k = k + 1;
    }
    assert(ls.take(k as int) == ls);
    out
}

// --- keeping the index and the curves -----------------------------------------------------------
/// How long a fetched index is trusted before it is checked again: a week, in seconds.
pub const INDEX_TTL: i64 = 604800;

/// What refreshing the index does first.
#[derive(Debug, Clone, Copy, PartialEq, Eq, Structural)]
pub enum Refresh {
    /// The index holds entries fetched within `INDEX_TTL`: nothing to do.
    Fresh,
    /// Fetch it; conditionally on its ETag when there is an index to keep.
    Fetch { conditional: bool },
}

/// The plan for a refresh, given how many entries the index holds, when it was fetched and now
/// (unix seconds).
pub fn refresh_plan(count: i64, fetched_at: Option<i64>, now: i64) -> (r: Refresh)
    ensures
        (count > 0 && (fetched_at matches Some(t) && now - t < INDEX_TTL)) ==> r == Refresh::Fresh,
        !(count > 0 && (fetched_at matches Some(t) && now - t < INDEX_TTL)) ==> r == (Refresh::Fetch {
            conditional: count > 0,
        }),
{
    let fresh = match fetched_at {
        Some(t) => (now as i128) - (t as i128) < INDEX_TTL as i128,
        None => false,
    };
    if count > 0 && fresh {
        Refresh::Fresh
    } else {
        Refresh::Fetch { conditional: count > 0 }
    }
}

/// How a fetch of the index went.
#[derive(Debug, Clone, Copy, PartialEq, Eq, Structural)]
pub enum Fetched {
    /// Unchanged since the ETag it was asked with.
    Unchanged,
    /// A new index with this many entries, now stored.
    Replaced(i64),
    /// The fetch failed.
    Failed,
}

/// How many headphones there are to search after a refresh, or `None` when the refresh is an
/// error. Stale data is still data: a failed fetch keeps the old index, and only an empty index
/// with no way to fill it is an error.
pub fn refresh_count(count: i64, fetched: Fetched) -> (r: Option<i64>)
    ensures
        fetched == Fetched::Unchanged ==> r == Some(count),
        fetched matches Fetched::Replaced(n) ==> r == Some(n),
        fetched == Fetched::Failed ==> r == (if count > 0 {
            Some(count)
        } else {
            None
        }),
{
    match fetched {
        Fetched::Unchanged => Some(count),
        Fetched::Replaced(n) => Some(n),
        Fetched::Failed => if count > 0 {
            Some(count)
        } else {
            None
        },
    }
}

/// Where a headphone's curve lives under `results/`: its path, then the file named after the
/// path's last segment (already percent-encoded).
pub open spec fn curve_path(path: Seq<char>) -> Seq<char> {
    path + "/"@ + split_char(path, '/').last() + "%20FixedBandEQ.txt"@
}

/// The curve file of the headphone at `path`, relative to `results/`.
pub fn curve_file(path: &str) -> (r: String)
    ensures
        r@ == curve_path(path@),
{
    let v = chars_of(path);
    let n = v.len();
    assert(v@.subrange(0, n as int) == v@);
    let parts = split_spans(v.as_slice(), 0, n, '/');
    proof {
        crate::text::lemma_split_nonempty(v@, '/');
    }
    let (a, b) = parts[parts.len() - 1];
    let name = string_of(v.as_slice(), a, b);
    let with_slash = concat_str(path, "/");
    let with_name = concat_str(with_slash.as_str(), name.as_str());
    concat_str(with_name.as_str(), "%20FixedBandEQ.txt")
}

} // verus!
