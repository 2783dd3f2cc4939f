//! The verified core of a desktop music player: lyric parsing, the sleep timer's decisions,
//! download file naming, crossfade album rules and the other rules the app is built on.
use vstd::prelude::*;

pub mod text;
pub mod decimal;
pub mod lyrics;
pub mod lrc;
pub mod sleep;
pub mod downloads;
pub mod browser;
pub mod player;
pub mod community;
pub mod merge;
pub mod ttml;
pub mod rich;
pub mod providers;
pub mod crossfade;
pub mod autoeq;
pub mod sponsorblock;
pub mod codec;
pub mod chain;
pub mod mix;
pub mod webview;
pub mod requests;
pub mod answers;
pub mod seconds;

verus! {

} // verus!
