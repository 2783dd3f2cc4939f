//! The addresses some lyrics providers are asked at: a fixed endpoint with the track's query
//! percent-encoded into it.
use vstd::prelude::*;

use crate::text::concat_str;

verus! {

/// A character's UTF-8 bytes.
pub open spec fn utf8_of(c: char) -> Seq<u8> {
    let v = c as int;
    if v < 0x80 {
        seq![v as u8]
    } else if v < 0x800 {
        seq![(0xC0 + v / 64) as u8, (0x80 + v % 64) as u8]
    } else if v < 0x10000 {
        seq![(0xE0 + v / 4096) as u8, (0x80 + (v / 64) % 64) as u8, (0x80 + v % 64) as u8]
    } else {
        seq![
            (0xF0 + v / 262144) as u8,
            (0x80 + (v / 4096) % 64) as u8,
            (0x80 + (v / 64) % 64) as u8,
            (0x80 + v % 64) as u8,
        ]
    }
}

/// A text's UTF-8 bytes.
pub open spec fn utf8_bytes(s: Seq<char>) -> Seq<u8>
    decreases s.len(),
{
    if s.len() == 0 {
        Seq::empty()
    } else {
        utf8_bytes(s.drop_last()) + utf8_of(s.last())
    }
}

/// A byte that stays as it is: an ASCII letter or digit, or `-`, `.`, `_`, `~`.
pub open spec fn unreserved(b: u8) -> bool {
    (0x30 <= b <= 0x39) || (0x41 <= b <= 0x5A) || (0x61 <= b <= 0x7A) || b == 0x2D || b == 0x2E
        || b == 0x5F || b == 0x7E
}

/// An upper-case hex digit.
pub open spec fn upper_hex(n: int) -> char {
    if n < 10 {
        (0x30 + n) as char
    } else {
        (0x41 + n - 10) as char
    }
}

/// One byte as it is written: as itself when unreserved, else `%` and two upper-case hex digits.
pub open spec fn encode_byte(b: u8) -> Seq<char> {
    if unreserved(b) {
        seq![b as char]
    } else {
        seq!['%', upper_hex((b / 16) as int), upper_hex((b % 16) as int)]
    }
}

/// Bytes as they are written.
pub open spec fn encode_bytes(bs: Seq<u8>) -> Seq<char>
    decreases bs.len(),
{
    if bs.len() == 0 {
        Seq::empty()
    } else {
        encode_bytes(bs.drop_last()) + encode_byte(bs.last())
    }
}

/// What `urlencoding::encode` gives for a text: its UTF-8 bytes percent-encoded, every byte but
/// ASCII letters, digits and `-`, `_`, `.`, `~`, with upper-case hex digits.
pub open spec fn url_encoded(s: Seq<char>) -> Seq<char> {
    encode_bytes(utf8_bytes(s))
}

/// `urlencoding::encode`: the text percent-encoded, as `url_encoded` states it (the crate's
/// `encode_into`: unreserved bytes are copied, every other byte is `%` and two upper-case hex
/// digits of it).
#[verifier::external_body]
fn encode(s: &str) -> (r: String)
    ensures
        r@ == url_encoded(s@),
{
    urlencoding::encode(s).into_owned()
}

/// An address made of a fixed head, an encoded query and a fixed tail.
pub fn url_with(head: &str, encoded: &str, tail: &str) -> (r: String)
    ensures
        r@ == head@ + encoded@ + tail@,
{
    let a = concat_str(head, encoded);
    concat_str(a.as_str(), tail)
}

/// What a search is for: the title, a space, the artists.
pub open spec fn search_text(title: Seq<char>, artists: Seq<char>) -> Seq<char> {
    title + " "@ + artists
}

/// SimpMusic's entry for a video.
pub fn simpmusic_url(video_id: &str) -> (r: String)
    ensures
        r@ == "https://api-lyrics.simpmusic.org/v1/"@ + url_encoded(video_id@),
{
    let e = encode(video_id);
    let r = url_with("https://api-lyrics.simpmusic.org/v1/", e.as_str(), "");
    proof {
        reveal_strlit("");
        assert(r@ =~= "https://api-lyrics.simpmusic.org/v1/"@ + url_encoded(video_id@));
    }
    r
}

fn search(title: &str, artists: &str) -> (r: String)
    ensures
        r@ == search_text(title@, artists@),
{
    let a = concat_str(title, " ");
    concat_str(a.as_str(), artists)
}

/// QQ Music's search for a track.
pub fn qq_search_url(title: &str, artists: &str) -> (r: String)
    ensures
        r@ == "https://c.y.qq.com/soso/fcgi-bin/client_search_cp?w="@ + url_encoded(
            search_text(title@, artists@),
        ) + "&format=json"@,
{
    let q = search(title, artists);
    let e = encode(q.as_str());
    url_with("https://c.y.qq.com/soso/fcgi-bin/client_search_cp?w=", e.as_str(), "&format=json")
}

/// Kugou's search for a track: its first five hits.
pub fn kugou_search_url(title: &str, artists: &str) -> (r: String)
    ensures
        r@ == "https://songsearch.kugou.com/song_search_v2?keyword="@ + url_encoded(
            search_text(title@, artists@),
        ) + "&page=1&pagesize=5"@,
{
    let q = search(title, artists);
    let e = encode(q.as_str());
    url_with("https://songsearch.kugou.com/song_search_v2?keyword=", e.as_str(), "&page=1&pagesize=5")
}

} // verus!
