//! The parts of the player that are not mpv: its fixed band list, the pitch filter's name, quoting
//! a path for mpv's command parser, and the words a failed track reaches the user in.
use vstd::prelude::*;

use crate::decimal::{decimal, push_decimal};
use crate::text::{chars_of, concat_str, string_of};

verus! {

/// The centre frequencies of the ten equalizer bands, the ISO octave set every graphic EQ uses.
pub const EQ_BANDS: [u32; 10] = [31, 62, 125, 250, 500, 1000, 2000, 4000, 8000, 16000];

/// The name of the filter that shifts pitch.
pub fn pitch_filter() -> (r: &'static str)
    ensures
        r@ == "rubberband"@,
{
    "rubberband"
}

/// One character as it stands inside mpv's double quotes: `\` and `"` take a backslash.
pub open spec fn escape_char(c: char) -> Seq<char> {
    if c == '\\' {
        seq!['\\', '\\']
    } else if c == '"' {
        seq!['\\', '"']
    } else {
        seq![c]
    }
}

/// Every character of `s` escaped.
pub open spec fn escaped(s: Seq<char>) -> Seq<char>
    decreases s.len(),
{
    if s.len() == 0 {
        Seq::empty()
    } else {
        escaped(s.drop_last()) + escape_char(s.last())
    }
}

/// Quote a filename or URL for mpv's command parser: inside double quotes mpv only treats `\` and
/// `"` specially, so escaping those two is the whole job.
pub fn quoted(arg: &str) -> (r: String)
    ensures
        r@ == seq!['"'] + escaped(arg@) + seq!['"'],
{
    let a = chars_of(arg);
    let mut out: Vec<char> = Vec::new();
    out.push('"');
    let mut i: usize = 0;
    while i < a.len()
        invariant
            i <= a@.len(),
            out@ == seq!['"'] + escaped(a@.take(i as int)),
        decreases a.len() - i,
    {
        let c = a[i];
        if c == '\\' {
            out.push('\\');
            out.push('\\');
        } else if c == '"' {
            out.push('\\');
            out.push('"');
        } else {
            out.push(c);
        }
        proof {
            let t = a@.take(i + 1);
            assert(t.drop_last() == a@.take(i as int));
            assert(t.last() == c);
        }
        i = i + 1;
        assert(out@ =~= seq!['"'] + escaped(a@.take(i as int)));
    }
    out.push('"');
    assert(a@.take(a@.len() as int) == a@);
    let n = out.len();
    string_of(out.as_slice(), 0, n)
}

/// The mpv error codes a failed track is told apart by.
#[derive(Debug, Clone, Copy, PartialEq, Eq, Structural)]
pub enum Code {
    LoadingFailed,
    NothingToPlay,
    UnknownFormat,
    AoInitFailed,
    /// Any other code, by its number.
    Other(i32),
}

/// Why mpv failed a track.
#[derive(Debug)]
pub enum Failure {
    /// `loadfile` failed, for the inner reason.
    Loadfile(Box<Failure>),
    /// mpv's own error code.
    Raw(Code),
    /// Anything else, as the binding describes it.
    Other(String),
}

/// `i` in decimal, with a minus sign when negative.
pub open spec fn signed_decimal(i: int) -> Seq<char> {
    if i < 0 {
        seq!['-'] + decimal((-i) as nat)
    } else {
        decimal(i as nat)
    }
}

/// The words for a failure: raw mpv codes ("Raw(-13)") mean nothing to users.
pub open spec fn failure_text(e: Failure) -> Seq<char>
    decreases e,
{
    match e {
        Failure::Loadfile(inner) => failure_text(*inner),
        Failure::Raw(c) => match c {
            Code::LoadingFailed => "Couldn't load this track \u{2014} YouTube rejected the stream link"@,
            Code::NothingToPlay => "This stream contains no playable audio"@,
            Code::UnknownFormat => "Unrecognized audio format"@,
            Code::AoInitFailed => "Couldn't start audio output"@,
            Code::Other(n) => "Playback failed (mpv error "@ + signed_decimal(n as int) + ")"@,
        },
        Failure::Other(t) => "Playback failed ("@ + t@ + ")"@,
    }
}

/// `i` in decimal.
fn signed_decimal_string(i: i32) -> (r: String)
    ensures
        r@ == signed_decimal(i as int),
{
    let mut v: Vec<char> = Vec::new();
    if i < 0 {
        v.push('-');
        let m: i64 = -(i as i64);
        push_decimal(&mut v, m as u64);
    } else {
        push_decimal(&mut v, i as u64);
    }
    assert(v@ =~= signed_decimal(i as int));
    let n = v.len();
    string_of(v.as_slice(), 0, n)
}

/// The words a failed track reaches the user in.
pub fn friendly_error(e: &Failure) -> (r: String)
    ensures
        r@ == failure_text(*e),
    decreases e,
{
    match e {
        Failure::Loadfile(inner) => friendly_error(inner),
        Failure::Raw(c) => match c {
            Code::LoadingFailed => "Couldn't load this track \u{2014} YouTube rejected the stream link"
                .to_owned(),
            Code::NothingToPlay => "This stream contains no playable audio".to_owned(),
            Code::UnknownFormat => "Unrecognized audio format".to_owned(),
            Code::AoInitFailed => "Couldn't start audio output".to_owned(),
            Code::Other(n) => {
                let head = concat_str("Playback failed (mpv error ", signed_decimal_string(*n).as_str());
                concat_str(head.as_str(), ")")
            },
        },
        Failure::Other(t) => {
            let head = concat_str("Playback failed (", t.as_str());
            concat_str(head.as_str(), ")")
        },
    }
}

} // verus!
