//! What the lyrics panel shows: timed words, display lines and a whole result, with their
//! mathematical views, and the small constructors every provider goes through.
use vstd::prelude::*;

use crate::text::{chars_of, line_spans, skip_ws, skip_ws_back, str_lines, string_of, trim, trim_end};


verus! {

/// One word of a word-synced line.
#[derive(Debug, Clone, PartialEq)]
pub struct LyricWord {
    pub text: String,
    pub start_ms: u64,
    pub end_ms: u64,
}

/// One display line. `time_ms` present iff the line is synced (a plain-lyrics response has none).
#[derive(Debug, Clone, PartialEq)]
pub struct LyricLine {
    pub time_ms: Option<u64>,
    pub end_time_ms: Option<u64>,
    pub text: String,
    pub words: Option<Vec<LyricWord>>,
    pub translation: Option<String>,
}

/// What the UI gets.
#[derive(Debug, Clone, PartialEq)]
pub struct Lyrics {
    /// Attribution shown in the panel footer ("LRCLIB", "Musixmatch", ...).
    pub source: String,
    pub synced: bool,
    pub instrumental: bool,
    pub lines: Vec<LyricLine>,
}

pub struct WordV {
    pub text: Seq<char>,
    pub start_ms: u64,
    pub end_ms: u64,
}

pub struct LineV {
    pub time_ms: Option<u64>,
    pub end_time_ms: Option<u64>,
    pub text: Seq<char>,
    pub words: Option<Seq<WordV>>,
    pub translation: Option<Seq<char>>,
}

pub struct LyricsV {
    pub source: Seq<char>,
    pub synced: bool,
    pub instrumental: bool,
    pub lines: Seq<LineV>,
}

impl View for LyricWord {
    type V = WordV;

    open spec fn view(&self) -> WordV {
        WordV { text: self.text@, start_ms: self.start_ms, end_ms: self.end_ms }
    }
}

pub open spec fn words_view(ws: Seq<LyricWord>) -> Seq<WordV> {
    ws.map_values(|w: LyricWord| w@)
}

pub open spec fn opt_string_view(s: Option<String>) -> Option<Seq<char>> {
    match s {
        Some(t) => Some(t@),
        None => None,
    }
}

impl View for LyricLine {
    type V = LineV;

    open spec fn view(&self) -> LineV {
        LineV {
            time_ms: self.time_ms,
            end_time_ms: self.end_time_ms,
            text: self.text@,
            words: match self.words {
                Some(ws) => Some(words_view(ws@)),
                None => None,
            },
            translation: opt_string_view(self.translation),
        }
    }
}

pub open spec fn lines_view(ls: Seq<LyricLine>) -> Seq<LineV> {
    ls.map_values(|l: LyricLine| l@)
}

impl View for Lyrics {
    type V = LyricsV;

    open spec fn view(&self) -> LyricsV {
        LyricsV {
            source: self.source@,
            synced: self.synced,
            instrumental: self.instrumental,
            lines: lines_view(self.lines@),
        }
    }
}

/// A line with a cue (or none) and text, and nothing else.
pub open spec fn simple_line(time_ms: Option<u64>, text: Seq<char>) -> LineV {
    LineV { time_ms, end_time_ms: None, text, words: None, translation: None }
}

impl LyricLine {
    pub fn simple(time_ms: Option<u64>, text: String) -> (r: Self)
        ensures
            r@ == simple_line(time_ms, text@),
    {
        LyricLine { time_ms, end_time_ms: None, text, words: None, translation: None }
    }
}

/// A copy of a string with the same characters.
pub fn copy_string(s: &String) -> (r: String)
    ensures
        r@ == s@,
{
    s.clone()
}

impl LyricWord {
    /// A copy of the word.
    pub fn duplicate(&self) -> (r: Self)
        ensures
            r@ == self@,
    {
        LyricWord { text: copy_string(&self.text), start_ms: self.start_ms, end_ms: self.end_ms }
    }
}

/// A copy of a word list.
pub fn copy_words(ws: &Vec<LyricWord>) -> (r: Vec<LyricWord>)
    ensures
        words_view(r@) == words_view(ws@),
{
    let mut r: Vec<LyricWord> = Vec::new();
    let mut i: usize = 0;
    while i < ws.len()
        invariant
            i <= ws@.len(),
            r@.len() == i,
            forall|j: int| 0 <= j < i ==> (#[trigger] r@[j])@ == ws@[j]@,
        decreases ws.len() - i,
    {
        r.push(ws[i].duplicate());
        i = i + 1;
    }
    assert(words_view(r@) =~= words_view(ws@));
    r
}

/// A copy of an optional word list.
pub fn copy_opt_words(ws: &Option<Vec<LyricWord>>) -> (r: Option<Vec<LyricWord>>)
    ensures
        match (r, *ws) {
            (Some(a), Some(b)) => words_view(a@) == words_view(b@),
            (None, None) => true,
            _ => false,
        },
{
    match ws {
        Some(v) => Some(copy_words(v)),
        None => None,
    }
}

/// A copy of an optional string.
pub fn copy_opt_string(s: &Option<String>) -> (r: Option<String>)
    ensures
        opt_string_view(r) == opt_string_view(*s),
{
    match s {
        Some(t) => Some(copy_string(t)),
        None => None,
    }
}

// --- results ------------------------------------------------------------------------------------
/// Plain text as un-timed lines, blank lines kept as stanza breaks; nothing when it is blank.
pub open spec fn plain_lyrics(text: Option<Seq<char>>, source: Seq<char>) -> Option<LyricsV> {
    match text {
        None => None,
        Some(t) => {
            let t = trim(t);
            if t.len() == 0 {
                None
            } else {
                let ls = str_lines(t);
                Some(
                    LyricsV {
                        source,
                        synced: false,
                        instrumental: false,
                        lines: Seq::new(ls.len(), |i: int| simple_line(None, trim_end(ls[i]))),
                    },
                )
            }
        },
    }
}

/// Plain text: un-timed lines (blank lines kept as stanza breaks).
pub fn plain_from_text(text: Option<&str>, source: &str) -> (r: Option<Lyrics>)
    ensures
        match (r, plain_lyrics(
            match text {
                Some(t) => Some(t@),
                None => None,
            },
            source@,
        )) {
            (Some(a), Some(b)) => a@ == b,
            (None, None) => true,
            _ => false,
        },
{
    let t = match text {
        Some(t) => t,
        None => {
            return None;
        },
    };
    let all = chars_of(t);
    let n = all.len();
    let lo = skip_ws(all.as_slice(), 0, n);
    let hi = skip_ws_back(all.as_slice(), lo, n);
    assert(all@.subrange(0, n as int) == all@);
    if lo == hi {
        return None;
    }
    let body = {
        let mut b: Vec<char> = Vec::new();
        let mut i = lo;
        while i < hi
            invariant
                lo <= i <= hi <= all@.len(),
                b@ == all@.subrange(lo as int, i as int),
            decreases hi - i,
        {
            b.push(all[i]);
            i = i + 1;
            assert(b@ == all@.subrange(lo as int, i as int));
        }
        b
    };
    let ghost tt = trim(t@);
    assert(body@ == tt);
    let spans = line_spans(body.as_slice());
    let ghost ls = str_lines(body@);
    let mut lines: Vec<LyricLine> = Vec::new();
    let mut k: usize = 0;
    while k < spans.len()
        invariant
            k <= spans@.len(),
            spans@.len() == ls.len(),
            forall|i: int|
                0 <= i < spans@.len() ==> {
                    let (a, b) = #[trigger] spans@[i];
                    a <= b <= body@.len() && body@.subrange(a as int, b as int) == ls[i]
                },
            lines@.len() == k,
            forall|i: int|
                0 <= i < k ==> (#[trigger] lines@[i])@ == simple_line(None, trim_end(ls[i])),
        decreases spans.len() - k,
    {
        let (a, b) = spans[k];
        let e = skip_ws_back(body.as_slice(), a, b);
        let text = string_of(body.as_slice(), a, e);
        lines.push(LyricLine::simple(None, text));
        k = k + 1;
    }
    let r = Lyrics { source: chars_to_string(source), synced: false, instrumental: false, lines };
    assert(lines_view(r.lines@) =~= Seq::new(ls.len(), |i: int| simple_line(None, trim_end(ls[i]))));
    Some(r)
}

/// A string with the same characters.
pub fn chars_to_string(s: &str) -> (r: String)
    ensures
        r@ == s@,
{
    let v = chars_of(s);
    let n = v.len();
    string_of(v.as_slice(), 0, n)
}

/// Some line has a cue.
pub open spec fn any_cued(ls: Seq<LineV>) -> bool {
    exists|i: int| 0 <= i < ls.len() && (#[trigger] ls[i]).time_ms is Some
}

/// A provider's parsed lines as a result, or nothing when there are no lines. `synced` is derived
/// from the lines: any cue at all.
pub open spec fn parsed_lyrics(source: Seq<char>, ls: Seq<LineV>) -> Option<LyricsV> {
    if ls.len() == 0 {
        None
    } else {
        Some(LyricsV { source, synced: any_cued(ls), instrumental: false, lines: ls })
    }
}

/// A provider's parsed lines as a result, or `None` when there was nothing to show. `synced` is
/// derived from the lines rather than asserted by the caller: lines with no cue at all read as
/// plain text, not as a synced view where nothing ever highlights.
pub fn from_parsed(source: &str, lines: Vec<LyricLine>) -> (r: Option<Lyrics>)
    ensures
        match (r, parsed_lyrics(source@, lines_view(lines@))) {
            (Some(a), Some(b)) => a@ == b,
            (None, None) => true,
            _ => false,
        },
{
    if lines.len() == 0 {
        return None;
    }
    let mut synced = false;
    let mut i: usize = 0;
    while i < lines.len()
        invariant
            i <= lines@.len(),
            synced == exists|j: int| 0 <= j < i && (#[trigger] lines@[j]).time_ms is Some,
        decreases lines.len() - i,
    {
        if lines[i].time_ms.is_some() {
            synced = true;
        }
        i = i + 1;
    }
    proof {
        let lv = lines_view(lines@);
        if synced {
            let j = choose|j: int| 0 <= j < lines@.len() && (#[trigger] lines@[j]).time_ms is Some;
            assert(lv[j] == lines@[j]@);
        } else {
            assert forall|j: int| 0 <= j < lv.len() implies !((#[trigger] lv[j]).time_ms is Some) by {
                assert(lv[j] == lines@[j]@);
            }
        }
    }
    Some(Lyrics { source: chars_to_string(source), synced, instrumental: false, lines })
}

} // verus!
