//! Lyrics that providers send base64-encoded: QQ Music's lyric field and Kugou's download.
use vstd::prelude::*;

use crate::lyrics::chars_to_string;

verus! {

/// What `base64`'s standard engine (standard alphabet, padded) decodes a text to; none when the
/// text is not base64 in that form.
pub uninterp spec fn base64_standard(s: Seq<char>) -> Option<Seq<u8>>;

/// The text a run of bytes is as UTF-8; none when the bytes are not UTF-8.
pub uninterp spec fn utf8_text(b: Seq<u8>) -> Option<Seq<char>>;

/// `base64::Engine::decode` with `base64::engine::general_purpose::STANDARD`: the bytes a base64
/// text stands for, as `base64_standard` names them. Nothing more is claimed of the crate's
/// decoding than that it is a function of the text.
#[verifier::external_body]
fn decode_base64(s: &str) -> (r: Option<Vec<u8>>)
    ensures
        match (r, base64_standard(s@)) {
            (Some(v), Some(b)) => v@ == b,
            (None, None) => true,
            _ => false,
        },
{
    base64::Engine::decode(&base64::engine::general_purpose::STANDARD, s).ok()
}

/// `String::from_utf8`: the text the bytes are, when they are UTF-8, as `utf8_text` names it.
#[verifier::external_body]
fn utf8_string(b: Vec<u8>) -> (r: Option<String>)
    ensures
        match (r, utf8_text(b@)) {
            (Some(s), Some(t)) => s@ == t,
            (None, None) => true,
            _ => false,
        },
{
    String::from_utf8(b).ok()
}

/// The text inside a base64 payload: its bytes, when they are UTF-8.
pub open spec fn payload_text(s: Seq<char>) -> Option<Seq<char>> {
    match base64_standard(s) {
        Some(b) => utf8_text(b),
        None => None,
    }
}

/// The text inside a base64 payload, when it decodes to UTF-8 text.
pub fn base64_text(s: &str) -> (r: Option<String>)
    ensures
        match (r, payload_text(s@)) {
            (Some(a), Some(b)) => a@ == b,
            (None, None) => true,
            _ => false,
        },
{
    match decode_base64(s) {
        Some(bytes) => utf8_string(bytes),
        None => None,
    }
}

/// A lyric field that may or may not be base64: the decoded text when there is one, else the
/// field as written.
pub fn decoded_or_raw(raw: &str, decoded: Option<String>) -> (r: String)
    ensures
        r@ == match decoded {
            Some(t) => t@,
            None => raw@,
        },
{
    match decoded {
        Some(t) => t,
        None => chars_to_string(raw),
    }
}

/// QQ Music's lyric field: base64 when it was asked for that, but read as written when it is not.
pub fn qq_lyric_text(raw: &str) -> (r: String)
    ensures
        r@ == match payload_text(raw@) {
            Some(t) => t,
            None => raw@,
        },
{
    let decoded = base64_text(raw);
    decoded_or_raw(raw, decoded)
}

} // verus!
