# limusic

The rules a desktop YouTube Music player is built on, written in Verus and proved against their
contracts: reading lyrics (LRC, enhanced LRC, SimpMusic's word-synced format, TTML/AAML), cleaning
and combining them (syncer credits, HTML entities, translations, word timings), choosing among
providers and search hits, the two-deck mixer's crossfade decisions, the sleep timer's state,
SponsorBlock's skip decisions, download file naming and ranged transfers, the crossfade album rule,
AutoEq's index, and the scripts and waits of the hidden webview the cipher runs in.

- `src/` is the verified library. Each module states its behaviour as spec functions over
  sequences of characters and views of its types, and the laws the library keeps (lines come out
  in cue order, a skip happens once and forward, an offline run caches nothing, ...) are public
  proof functions.
- `tests/` runs the library on concrete values.
- `app/` is the ordinary Rust around it: HTTP providers, serde shapes, the player that carries out
  the mixer's steps on its libmpv decks, the webview bridge's async waits, and the float maths of
  the player and the equalizer.
