//! How a provider's JSON answer is read once the app has walked it: which field holds the lyrics,
//! and the lines of a JSON lyrics list.
use vstd::prelude::*;

use crate::lyrics::{words_view, LineV, LyricLine, LyricWord, WordV};
use crate::text::{chars_of, has_non_ws, skip_ws, skip_ws_back, string_of, trim};

verus! {

/// The value of a lyrics field in a provider's answer, as far as the rule below reads it.
pub enum Field {
    /// A string.
    Text(String),
    /// A list, as its JSON text.
    List(String),
    /// Anything else.
    Other,
}

/// What a lyrics field's value yields: its text when that is not blank, the JSON of a list of
/// lines, and nothing otherwise.
pub open spec fn field_payload(f: Option<Field>) -> Option<Seq<char>> {
    match f {
        Some(Field::Text(s)) => if trim(s@).len() > 0 {
            Some(s@)
        } else {
            None
        },
        Some(Field::List(j)) => Some(j@),
        _ => None,
    }
}

/// The first field the answer has, in the order given.
pub open spec fn first_field(a: Option<Field>, b: Option<Field>, c: Option<Field>, d: Option<Field>) -> Option<Field> {
    if a is Some {
        a
    } else if b is Some {
        b
    } else if c is Some {
        c
    } else {
        d
    }
}

/// The lyrics in Boidu's answer, from the first of its lyrics fields that it has, in the order
/// `ttml`, `syncedLyrics`, `lyrics`, `lrc` (a field that is there but yields nothing is not passed
/// over for the next).
pub fn boidu_payload(
    ttml: Option<Field>,
    synced_lyrics: Option<Field>,
    lyrics: Option<Field>,
    lrc: Option<Field>,
) -> (r: Option<String>)
    ensures
        match r {
            Some(t) => field_payload(first_field(ttml, synced_lyrics, lyrics, lrc)) == Some(t@),
            None => field_payload(first_field(ttml, synced_lyrics, lyrics, lrc)) is None,
        },
{
    let first = if ttml.is_some() {
        ttml
    } else if synced_lyrics.is_some() {
        synced_lyrics
    } else if lyrics.is_some() {
        lyrics
    } else {
        lrc
    };
    match first {
        Some(Field::Text(s)) => {
            let cs = chars_of(s.as_str());
            proof {
                assert(cs@.subrange(0, cs@.len() as int) =~= s@);
            }
            if has_non_ws(cs.as_slice(), 0, cs.len()) {
                Some(s)
            } else {
                None
            }
        },
        Some(Field::List(j)) => Some(j),
        _ => None,
    }
}


/// One word of a JSON lyrics list as the app read it: the first of its `text` and `word` fields
/// when that is a string, its start (the first of `startTime`, `start`, `time`) and its end (the
/// first of `endTime`, `end`) in milliseconds, when there and readable.
pub struct JsonWord {
    pub text: Option<String>,
    pub start_ms: Option<u64>,
    pub end_ms: Option<u64>,
}

/// One line of a JSON lyrics list as the app read it: the first of its `text`, `words` and `line`
/// fields when that is a string, its cue (the first of `time`, `startTime`, `start`, `t`) in
/// milliseconds when there and readable, and its words when `words` is a list.
pub struct JsonLine {
    pub text: Option<String>,
    pub time_ms: Option<u64>,
    pub words: Vec<JsonWord>,
}

pub open spec fn text_or_empty(s: Option<String>) -> Seq<char> {
    match s {
        Some(t) => t@,
        None => Seq::empty(),
    }
}

/// A word's start: its own, else its line's cue.
pub open spec fn word_start(w: JsonWord, cue: Option<u64>) -> Option<u64> {
    if w.start_ms is Some {
        w.start_ms
    } else {
        cue
    }
}

/// A word's end: its own, else half a second after its start (the largest time at most).
pub open spec fn word_end(w: JsonWord, cue: Option<u64>) -> Option<u64> {
    if w.end_ms is Some {
        w.end_ms
    } else {
        match word_start(w, cue) {
            Some(s) => Some(if s <= u64::MAX - 500 { (s + 500) as u64 } else { u64::MAX }),
            None => None,
        }
    }
}

/// A word is kept when it has a start and an end.
pub open spec fn json_word(w: JsonWord, cue: Option<u64>) -> Option<WordV> {
    match (word_start(w, cue), word_end(w, cue)) {
        (Some(b), Some(e)) => Some(WordV { text: text_or_empty(w.text), start_ms: b, end_ms: e }),
        _ => None,
    }
}

/// The words kept, in order.
pub open spec fn json_words(ws: Seq<JsonWord>, cue: Option<u64>) -> Seq<WordV>
    decreases ws.len(),
{
    if ws.len() == 0 {
        Seq::empty()
    } else {
        json_words(ws.drop_last(), cue) + match json_word(ws.last(), cue) {
            Some(w) => seq![w],
            None => Seq::empty(),
        }
    }
}

/// A JSON line as a lyric line: its text trimmed, its cue, its kept words (none when no word is
/// kept); dropped when it has neither text nor cue.
pub open spec fn json_line_spec(l: JsonLine) -> Option<LineV> {
    let text = trim(text_or_empty(l.text));
    let ws = json_words(l.words@, l.time_ms);
    if text.len() > 0 || l.time_ms is Some {
        Some(
            LineV {
                time_ms: l.time_ms,
                end_time_ms: None,
                text,
                words: if ws.len() > 0 {
                    Some(ws)
                } else {
                    None
                },
                translation: None,
            },
        )
    } else {
        None
    }
}

fn text_of(s: &Option<String>) -> (r: String)
    ensures
        r@ == text_or_empty(*s),
{
    match s {
        Some(t) => t.clone(),
        None => String::new(),
    }
}

fn trimmed(s: &str) -> (r: String)
    ensures
        r@ == trim(s@),
{
    let v = chars_of(s);
    let n = v.len();
    let a = skip_ws(v.as_slice(), 0, n);
    let b = skip_ws_back(v.as_slice(), a, n);
    assert(v@.subrange(0, n as int) == v@);
    string_of(v.as_slice(), a, b)
}

/// See [`json_word`].
fn word_of(w: &JsonWord, cue: Option<u64>) -> (r: Option<LyricWord>)
    ensures
        match r {
            Some(x) => json_word(*w, cue) == Some(x@),
            None => json_word(*w, cue) is None,
        },
{
    let start = match w.start_ms {
        Some(s) => Some(s),
        None => cue,
    };
    let end = match w.end_ms {
        Some(e) => Some(e),
        None => match start {
            Some(s) => Some(s.saturating_add(500)),
            None => None,
        },
    };
    match (start, end) {
        (Some(b), Some(e)) => Some(LyricWord { text: text_of(&w.text), start_ms: b, end_ms: e }),
        _ => None,
    }
}

/// See [`json_line_spec`].
pub fn json_line(l: &JsonLine) -> (r: Option<LyricLine>)
    ensures
        match r {
            Some(x) => json_line_spec(*l) == Some(x@),
            None => json_line_spec(*l) is None,
        },
{
    let raw = text_of(&l.text);
    let text = trimmed(raw.as_str());
    let mut words: Vec<LyricWord> = Vec::new();
    let mut i: usize = 0;
    while i < l.words.len()
        invariant
            i <= l.words@.len(),
            words_view(words@) == json_words(l.words@.take(i as int), l.time_ms),
        decreases l.words.len() - i,
    {
        let ghost before = words_view(words@);
        match word_of(&l.words[i], l.time_ms) {
            Some(w) => {
                words.push(w);
            },
            None => {},
        }
        proof {
            let t = l.words@.take(i + 1);
            assert(t.drop_last() =~= l.words@.take(i as int));
            assert(t.last() == l.words@[i as int]);
            assert(words_view(words@) =~= json_words(t, l.time_ms));
        }
        i = i + 1;
    }
    assert(l.words@.take(l.words@.len() as int) =~= l.words@);
    if text.unicode_len() == 0 && l.time_ms.is_none() {
        return None;
    }
    let n = words.len();
    Some(
        LyricLine {
            time_ms: l.time_ms,
            end_time_ms: None,
            text,
            words: if n > 0 {
                Some(words)
            } else {
                None
            },
            translation: None,
        },
    )
}

/// The lines of a JSON lyrics list, in the list's order, each as [`json_line_spec`] reads it.
pub fn json_lines(items: &Vec<JsonLine>) -> (r: Vec<LyricLine>)
    ensures
        crate::lyrics::lines_view(r@) == json_lines_spec(items@),
{
    let mut out: Vec<LyricLine> = Vec::new();
    let mut i: usize = 0;
    while i < items.len()
        invariant
            i <= items@.len(),
            crate::lyrics::lines_view(out@) == json_lines_spec(items@.take(i as int)),
        decreases items.len() - i,
    {
        match json_line(&items[i]) {
            Some(x) => {
                out.push(x);
            },
            None => {},
        }
        proof {
            let t = items@.take(i + 1);
            assert(t.drop_last() =~= items@.take(i as int));
            assert(t.last() == items@[i as int]);
            assert(crate::lyrics::lines_view(out@) =~= json_lines_spec(t));
        }
        i = i + 1;
    }
    assert(items@.take(items@.len() as int) =~= items@);
    out
}

/// The lines kept, in order.
pub open spec fn json_lines_spec(ls: Seq<JsonLine>) -> Seq<LineV>
    decreases ls.len(),
{
    if ls.len() == 0 {
        Seq::empty()
    } else {
        json_lines_spec(ls.drop_last()) + match json_line_spec(ls.last()) {
            Some(l) => seq![l],
            None => Seq::empty(),
        }
    }
}

} // verus!
