//! When crossfading stands aside: while the sleep timer waits for the end of the track, and, when
//! the user asks for it, between two tracks off one album.
use vstd::prelude::*;

use crate::text::str_eq;

verus! {

/// What the album rule reads of a track.
pub struct Track {
    pub album: Option<String>,
    pub album_id: Option<String>,
    pub artists: String,
}

/// What the player gets handed.
#[derive(Debug, Clone, Copy, PartialEq, Eq, Structural)]
pub enum Apply {
    /// Tracks meet the gapless way.
    Gapless,
    /// The user's crossfade setting.
    Setting,
}

/// What applies right now: "stop at the end of this track" fades the track out and pauses short
/// of its end, and a crossfade would already have started the next song under it, so for as long
/// as that timer is armed, tracks meet the gapless way.
pub fn sync(end_of_track: bool) -> (r: Apply)
    ensures
        end_of_track ==> r == Apply::Gapless,
        !end_of_track ==> r == Apply::Setting,
{
    if end_of_track {
        Apply::Gapless
    } else {
        Apply::Setting
    }
}

pub open spec fn opt_eq(a: Option<String>, b: Option<String>) -> bool {
    match (a, b) {
        (Some(x), Some(y)) => x@ == y@,
        (None, None) => true,
        _ => false,
    }
}

/// Two tracks off one album: by the album's id when both have one; otherwise by its name, which
/// both must have, and the artist with it.
pub open spec fn album_match(a: Track, b: Track) -> bool {
    match (a.album_id, b.album_id) {
        (Some(x), Some(y)) => x@ == y@,
        _ => a.album is Some && opt_eq(a.album, b.album) && a.artists@ == b.artists@,
    }
}

/// Being off one album is mutual: the rule reads the same either way round.
pub proof fn law_same_album_is_symmetric(a: Track, b: Track)
    ensures
        album_match(a, b) == album_match(b, a),
{
}

/// Tracks that both carry an album id are off one album exactly when the ids are equal, whatever
/// their names and artists (a compilation or a DJ mix has many artists and one id).
pub proof fn law_album_ids_decide(a: Track, b: Track)
    requires
        a.album_id is Some,
        b.album_id is Some,
    ensures
        album_match(a, b) == (a.album_id->0@ == b.album_id->0@),
{
}

/// Without an id on both, tracks are off one album exactly when both name an album, the same one,
/// and have the same artists.
pub proof fn law_album_names_decide_without_ids(a: Track, b: Track)
    requires
        a.album_id is None || b.album_id is None,
    ensures
        album_match(a, b) == (a.album is Some && b.album is Some && a.album->0@ == b.album->0@
            && a.artists@ == b.artists@),
{
}

fn opt_str_eq(a: &Option<String>, b: &Option<String>) -> (r: bool)
    ensures
        r == opt_eq(*a, *b),
{
    match (a, b) {
        (Some(x), Some(y)) => str_eq(x.as_str(), y.as_str()),
        (None, None) => true,
        _ => false,
    }
}

/// Whether two tracks come off the same album.
pub fn same_album(a: &Track, b: &Track) -> (r: bool)
    ensures
        r == album_match(*a, *b),
{
    match (&a.album_id, &b.album_id) {
        (Some(x), Some(y)) => str_eq(x.as_str(), y.as_str()),
        _ => a.album.is_some() && opt_str_eq(&a.album, &b.album) && str_eq(
            a.artists.as_str(),
            b.artists.as_str(),
        ),
    }
}

/// Whether the move from `current` to `next` may crossfade, given the `crossfade_album_gapless`
/// setting: always when that is `"false"`, otherwise unless both come off one album.
pub fn blends(album_gapless: Option<&str>, current: &Track, next: &Track) -> (r: bool)
    ensures
        r == ((album_gapless matches Some(s) && s@ == "false"@) || !album_match(*current, *next)),
{
    let off = match album_gapless {
        Some(s) => str_eq(s, "false"),
        None => false,
    };
    off || !same_album(current, next)
}

} // verus!
