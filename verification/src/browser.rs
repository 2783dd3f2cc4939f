//! Opening a URL in the user's real browser: what an AppImage's environment must not pass on to
//! the opener. Spawning the process is the app's.
use vstd::prelude::*;

use crate::text::{
    chars_of, join_with, split_char, split_spans, starts_with, string_of, matches_at,
};

verus! {

/// A piece of a colon-separated value that is kept: not empty, and not under the AppDir.
pub open spec fn kept_piece(p: Seq<char>, appdir: Seq<char>) -> bool {
    p.len() > 0 && !starts_with(p, appdir)
}

/// The kept pieces, in order.
pub open spec fn kept_pieces(ps: Seq<Seq<char>>, appdir: Seq<char>) -> Seq<Seq<char>>
    decreases ps.len(),
{
    if ps.len() == 0 {
        ps
    } else if kept_piece(ps.last(), appdir) {
        kept_pieces(ps.drop_last(), appdir).push(ps.last())
    } else {
        kept_pieces(ps.drop_last(), appdir)
    }
}

/// What remains of a colon-separated env value once AppDir-rooted and empty entries are dropped;
/// `None` when nothing survives.
pub open spec fn stripped(value: Seq<char>, appdir: Seq<char>) -> Option<Seq<char>> {
    let kept = kept_pieces(split_char(value, ':'), appdir);
    if kept.len() == 0 {
        None
    } else {
        Some(join_with(kept, seq![':']))
    }
}

/// Drop AppDir-rooted entries from a colon-separated env value. `None` means nothing survived, so
/// the variable should be unset rather than set to an empty string (an empty `LD_LIBRARY_PATH`
/// entry means "current directory").
pub fn strip_appdir(value: &str, appdir: &str) -> (r: Option<String>)
    ensures
        match (r, stripped(value@, appdir@)) {
            (Some(s), Some(t)) => s@ == t,
            (None, None) => true,
            _ => false,
        },
{
    let v = chars_of(value);
    let d = chars_of(appdir);
    let n = v.len();
    let spans = split_spans(v.as_slice(), 0, n, ':');
    let ghost pieces = split_char(v@.subrange(0, n as int), ':');
    assert(v@.subrange(0, n as int) == v@);
    let mut out: Vec<char> = Vec::new();
    let mut count: usize = 0;
    let mut i: usize = 0;
    assert(pieces.take(0) == Seq::<Seq<char>>::empty());
    while i < spans.len()
        invariant
            i <= spans@.len(),
            spans@.len() == pieces.len(),
            n == v@.len(),
            d@ == appdir@,
            forall|k: int|
                0 <= k < spans@.len() ==> {
                    let (a, b) = #[trigger] spans@[k];
                    0 <= a <= b <= n && v@.subrange(a as int, b as int) == pieces[k]
                },
            count <= i,
            count == kept_pieces(pieces.take(i as int), appdir@).len(),
            out@ == join_with(kept_pieces(pieces.take(i as int), appdir@), seq![':']),
        decreases spans.len() - i,
    {
        let (a, b) = spans[i];
        let ghost piece = v@.subrange(a as int, b as int);
        let under = matches_at(v.as_slice(), a, d.as_slice()) && d.len() <= b - a;
        proof {
            assert(piece == pieces[i as int]);
            if d@.len() <= b - a {
                assert(v@.subrange(a as int, a + d@.len()) == piece.take(d@.len() as int));
            }
            let t = pieces.take(i + 1);
            assert(t.drop_last() == pieces.take(i as int));
            assert(t.last() == piece);
        }
        if b > a && !under {
            let ghost before = kept_pieces(pieces.take(i as int), appdir@);
            if count > 0 {
                out.push(':');
            }
            let mut j = a;
            let ghost base = out@;
            while j < b
                invariant
                    a <= j <= b <= v@.len(),
                    out@ == base + v@.subrange(a as int, j as int),
                decreases b - j,
            {
                out.push(v[j]);
                j = j + 1;
                assert(out@ == base + v@.subrange(a as int, j as int));
            }
            proof {
                let after = before.push(piece);
                assert(after.drop_last() == before);
                if before.len() > 0 {
                    assert(join_with(after, seq![':']) == join_with(before, seq![':']) + seq![':']
                        + piece);
                } else {
                    assert(join_with(after, seq![':']) == piece);
                }
            }
            count = count + 1;
        }
        i = i + 1;
    }
    assert(pieces.take(spans@.len() as int) == pieces);
    if count == 0 {
        None
    } else {
        let len = out.len();
        Some(string_of(out.as_slice(), 0, len))
    }
}

} // verus!
